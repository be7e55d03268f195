//! CBC chaining over whole blocks, and the block state of the decrypting
//! direction: a carry-over of fewer than 16 bytes between calls.
use crate::error::Error;
use crate::kdf::{derives, derivation_error, get_aes_key};
use crate::primitives::{cbc_decrypt_block, cbc_encrypt_block, decrypt_block};
use vstd::prelude::*;

verus! {

/// The cipher block size in bytes.
pub const BLOCK_SIZE: usize = 16;

/// The longest prefix of `s` made of whole blocks.
pub open spec fn aligned(s: Seq<u8>) -> Seq<u8> {
    s.take(s.len() - s.len() % 16)
}

/// `s` followed by the zeros that fill its last block.
pub open spec fn zero_pad(s: Seq<u8>) -> Seq<u8> {
    s + Seq::new(((16 - s.len() % 16) % 16) as nat, |_i: int| 0u8)
}

/// The chaining value for the block that follows the ciphertext `ct`: the IV
/// while `ct` holds no block, else the last block of `ct`.
pub open spec fn chain_after(iv: Seq<u8>, ct: Seq<u8>) -> Seq<u8> {
    if ct.len() < 16 {
        iv
    } else {
        ct.subrange(ct.len() - 16, ct.len() as int)
    }
}

/// CBC decryption of a ciphertext made of whole blocks, block by block.
pub open spec fn cbc_decrypt(key: Seq<u8>, iv: Seq<u8>, ct: Seq<u8>) -> Seq<u8>
    decreases ct.len(),
{
    if ct.len() < 16 {
        Seq::empty()
    } else {
        let head = ct.take(ct.len() - 16);
        cbc_decrypt(key, iv, head) + cbc_decrypt_block(
            key,
            chain_after(iv, head),
            ct.skip(ct.len() - 16),
        )
    }
}

/// CBC encryption of a plaintext made of whole blocks, block by block.
pub open spec fn cbc_encrypt(key: Seq<u8>, iv: Seq<u8>, pt: Seq<u8>) -> Seq<u8>
    decreases pt.len(),
{
    if pt.len() < 16 {
        Seq::empty()
    } else {
        let head = cbc_encrypt(key, iv, pt.take(pt.len() - 16));
        head + cbc_encrypt_block(key, chain_after(iv, head), pt.skip(pt.len() - 16))
    }
}

/// Whole blocks followed by fewer than 16 bytes: the blocks are the aligned
/// part.
pub proof fn lemma_aligned_split(blocks: Seq<u8>, rest: Seq<u8>)
    requires
        blocks.len() % 16 == 0,
        rest.len() < 16,
    ensures
        aligned(blocks + rest) == blocks,
        (blocks + rest).len() % 16 == rest.len(),
{
    let n = blocks.len() as int;
    let r = rest.len() as int;
    assert((n + r) % 16 == r) by (nonlinear_arith)
        requires
            n % 16 == 0,
            0 <= r < 16,
            n >= 0,
    ;
    assert((blocks + rest).take(n) =~= blocks);
}

pub(crate) fn append(v: &mut Vec<u8>, s: &[u8])
    ensures
        final(v)@ == old(v)@ + s@,
{
    v.extend_from_slice(s);
    assert(final(v)@ =~= old(v)@ + s@);
}

/// The decrypting block state: a key, the chaining value, and the bytes of a
/// block not yet complete.
pub struct Cipher {
    key: [u8; 32],
    chain: [u8; 16],
    buf: [u8; 16],
    buf_len: usize,
    iv: Ghost<Seq<u8>>,
    processed: Ghost<Seq<u8>>,
}

impl Cipher {
    pub closed spec fn key(&self) -> Seq<u8> {
        self.key@
    }

    pub closed spec fn iv(&self) -> Seq<u8> {
        self.iv@
    }

    /// The ciphertext decrypted so far: whole blocks.
    pub closed spec fn processed(&self) -> Seq<u8> {
        self.processed@
    }

    /// The bytes of the incomplete block.
    pub closed spec fn carry(&self) -> Seq<u8> {
        self.buf@.take(self.buf_len as int)
    }

    /// Every ciphertext byte given so far.
    pub open spec fn fed(&self) -> Seq<u8> {
        self.processed() + self.carry()
    }

    /// The plaintext of the blocks decrypted so far.
    pub open spec fn plain(&self) -> Seq<u8> {
        cbc_decrypt(self.key(), self.iv(), self.processed())
    }

    pub closed spec fn wf(&self) -> bool {
        &&& self.iv@.len() == 16
        &&& self.buf_len < 16
        &&& self.processed@.len() % 16 == 0
        &&& self.chain@ == chain_after(self.iv@, self.processed@)
        &&& self.plain().len() == self.processed@.len()
    }

    /// What a well-formed state tells of its parts.
    pub proof fn lemma_wf(&self)
        requires
            self.wf(),
        ensures
            self.carry().len() < 16,
            self.processed().len() % 16 == 0,
            self.processed() == aligned(self.fed()),
            self.plain().len() == self.processed().len(),
            self.iv().len() == 16,
    {
        lemma_aligned_split(self.processed(), self.carry());
    }

    /// The state for a parameter block and password, before any ciphertext.
    pub fn from_properties(properties: &[u8], password: &[u8]) -> (r: Result<Self, Error>)
        ensures
            match r {
                Ok(c) => {
                    &&& c.wf()
                    &&& c.fed() == Seq::<u8>::empty()
                    &&& derives(properties@, password@, c.key(), c.iv())
                },
                Err(e) => derivation_error(properties@, password@, e),
            },
            r is Ok <==> exists|k: Seq<u8>, v: Seq<u8>| derives(properties@, password@, k, v),
    {
        match get_aes_key(properties, password) {
            Ok((key, iv)) => {
                let c = Cipher {
                    key,
                    chain: iv,
                    buf: [0u8; 16],
                    buf_len: 0,
                    iv: Ghost(iv@),
                    processed: Ghost(Seq::empty()),
                };
                assert(c.fed() =~= Seq::<u8>::empty());
                Ok(c)
            },
            Err(e) => {
                assert forall|k: Seq<u8>, v: Seq<u8>| !derives(properties@, password@, k, v) by {}
                Err(e)
            },
        }
    }

    /// Takes `data` as further ciphertext, decrypts each block that it
    /// completes, and appends the plaintext to `output`; returns its length.
    pub fn update(&mut self, data: &[u8], output: &mut Vec<u8>) -> (n: usize)
        requires
            old(self).wf(),
        ensures
            final(self).wf(),
            final(self).key() == old(self).key(),
            final(self).iv() == old(self).iv(),
            final(self).fed() == old(self).fed() + data@,
            final(output)@ == old(output)@ + final(self).plain().skip(old(self).plain().len() as int),
            final(self).plain().take(old(self).plain().len() as int) == old(self).plain(),
            n == final(self).plain().len() - old(self).plain().len(),
    {
        let ghost plain0 = self.plain();
        let ghost out0 = output@;
        let ghost mut produced: Seq<u8> = Seq::empty();
        let start = output.len();
        let mut i: usize = 0;
        while i < data.len()
            invariant
                self.wf(),
                i <= data@.len(),
                self.key() == old(self).key(),
                self.iv() == old(self).iv(),
                self.fed() == old(self).fed() + data@.take(i as int),
                plain0 == old(self).plain(),
                self.plain() == plain0 + produced,
                output@ == out0 + produced,
                out0 == old(output)@,
                start == out0.len(),
            decreases data@.len() - i,
        {
            let ghost fed0 = self.fed();
            let ghost processed0 = self.processed@;
            let ghost carry0 = self.carry();
            self.buf[self.buf_len] = data[i];
            self.buf_len = self.buf_len + 1;
            assert(self.carry() =~= carry0.push(data@[i as int]));
            assert(data@.take(i + 1) =~= data@.take(i as int).push(data@[i as int]));
            if self.buf_len == BLOCK_SIZE {
                let out = decrypt_block(&self.key, &self.chain, &self.buf);
                let ghost block = self.buf@;
                append(output, &out);
                proof {
                    assert(self.carry() =~= block);
                    let ct = processed0 + block;
                    assert(ct.take(ct.len() - 16) =~= processed0);
                    assert(ct.skip(ct.len() - 16) =~= block);
                    assert(chain_after(self.iv@, ct) =~= block);
                    produced = produced + out@;
                }
                self.chain = self.buf;
                self.buf_len = 0;
                self.processed = Ghost(processed0 + block);
                assert(self.carry() =~= Seq::<u8>::empty());
            }
            assert(self.fed() =~= fed0.push(data@[i as int]));
            i += 1;
            assert(self.fed() =~= old(self).fed() + data@.take(i as int));
        }
        assert(data@.take(data@.len() as int) =~= data@);
        assert(produced =~= self.plain().skip(plain0.len() as int));
        assert(self.plain().take(plain0.len() as int) =~= plain0);
        output.len() - start
    }

    /// Ends the ciphertext: `Ok(0)` where it ended on a block boundary,
    /// else `IllegalBlockSize`.
    pub fn do_final(&self) -> (r: Result<usize, Error>)
        requires
            self.wf(),
        ensures
            self.carry().len() == 0 <==> r == Ok::<usize, Error>(0),
            self.carry().len() != 0 <==> r matches Err(Error::IllegalBlockSize),
    {
        if self.buf_len == 0 {
            Ok(0)
        } else {
            Err(Error::IllegalBlockSize)
        }
    }
}

} // verus!
