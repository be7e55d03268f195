//! The options that encryption starts from, and the encrypting stream. The
//! stream hands each encrypted block back to the caller, who sends it on to
//! the sink.
use crate::cipher::{
    aligned, append, cbc_decrypt, cbc_encrypt, chain_after, lemma_aligned_split, zero_pad,
    BLOCK_SIZE,
};
use crate::error::Error;
use crate::kdf::{
    cycles_power, derivation_error, derived_iv, derives, get_aes_key, iv_size, properties_fit,
    salt_of, salt_size,
};
use crate::decoder::Aes256Sha256Decoder;
use crate::primitives::encrypt_block;
use vstd::prelude::*;

verus! {

/// Length of the parameter block that the options write.
pub const PROPERTIES_LEN: usize = 34;

/// Iteration power of new options.
pub const DEFAULT_CYCLES_POWER: u8 = 8;

#[derive(Debug, Clone)]
pub struct AesEncoderOptions {
    pub password: Vec<u8>,
    pub iv: [u8; 16],
    pub salt: [u8; 16],
    pub num_cycles_power: u8,
}

/// Sixteen bytes from the thread-local random generator.
fn random_arr() -> (a: [u8; 16]) {
    let mut a = [0u8; 16];
    let mut i: usize = 0;
    while i < 16
        invariant
            i <= 16,
        decreases 16 - i,
    {
        a[i] = rand::random::<u8>();
        i += 1;
    }
    a
}

impl AesEncoderOptions {
    /// The parameter block: the masked iteration power with both high bits
    /// set, `0xff` for full 16-byte salt and IV, then the salt and the IV.
    pub open spec fn spec_properties(&self) -> Seq<u8> {
        seq![(self.num_cycles_power & 0x3f) | 0xc0, 0xffu8] + self.salt@ + self.iv@
    }

    /// Options with a random salt and IV.
    pub fn new(password: Vec<u8>) -> (r: Self)
        ensures
            r.password@ == password@,
            r.num_cycles_power == DEFAULT_CYCLES_POWER,
    {
        let iv = random_arr();
        let salt = random_arr();
        AesEncoderOptions { password, iv, salt, num_cycles_power: DEFAULT_CYCLES_POWER }
    }

    pub fn properties(&self) -> (r: [u8; 34])
        ensures
            r@ == self.spec_properties(),
    {
        let mut props = [0u8; 34];
        self.write_properties(&mut props);
        props
    }

    /// Writes the parameter block over the first 34 bytes of `props`.
    pub fn write_properties(&self, props: &mut [u8])
        requires
            old(props)@.len() >= PROPERTIES_LEN,
        ensures
            final(props)@ == self.spec_properties() + old(props)@.skip(PROPERTIES_LEN as int),
    {
        props[0] = (self.num_cycles_power & 0x3f) | 0xc0;
        props[1] = 0xff;
        let mut i: usize = 0;
        while i < 16
            invariant
                i <= 16,
                props@.len() == old(props)@.len(),
                old(props)@.len() >= PROPERTIES_LEN,
                props@[0] == (self.num_cycles_power & 0x3f) | 0xc0,
                props@[1] == 0xffu8,
                forall|k: int| 0 <= k < i ==> props@[2 + k] == self.salt@[k],
                forall|k: int| 2 + i <= k < props@.len() ==> props@[k] == old(props)@[k],
            decreases 16 - i,
        {
            props[2 + i] = self.salt[i];
            i += 1;
        }
        let mut j: usize = 0;
        while j < 16
            invariant
                j <= 16,
                props@.len() == old(props)@.len(),
                old(props)@.len() >= PROPERTIES_LEN,
                props@[0] == (self.num_cycles_power & 0x3f) | 0xc0,
                props@[1] == 0xffu8,
                forall|k: int| 0 <= k < 16 ==> props@[2 + k] == self.salt@[k],
                forall|k: int| 0 <= k < j ==> props@[18 + k] == self.iv@[k],
                forall|k: int| 18 + j <= k < props@.len() ==> props@[k] == old(props)@[k],
            decreases 16 - j,
        {
            props[18 + j] = self.iv[j];
            j += 1;
        }
        assert(props@ =~= self.spec_properties() + old(props)@.skip(PROPERTIES_LEN as int));
    }
}

/// The parameter block that options write parses back to their salt, IV and
/// iteration power.
pub proof fn lemma_properties_parse(options: AesEncoderOptions)
    ensures
        properties_fit(options.spec_properties()),
        salt_size(options.spec_properties()) == 16,
        iv_size(options.spec_properties()) == 16,
        salt_of(options.spec_properties()) == options.salt@,
        derived_iv(options.spec_properties()) == options.iv@,
        cycles_power(options.spec_properties()) == options.num_cycles_power & 0x3f,
{
    let p = options.spec_properties();
    let c = options.num_cycles_power;
    assert(p[0] == (c & 0x3f) | 0xc0);
    assert(p[1] == 0xffu8);
    assert((((c & 0x3f) | 0xc0) >> 6u8) & 1u8 == 1u8 && (((c & 0x3f) | 0xc0) >> 7u8) & 1u8 == 1u8)
        by (bit_vector);
    assert(0xffu8 & 15u8 == 15u8 && 0xffu8 >> 4u8 == 15u8) by (bit_vector);
    assert(((c & 0x3f) | 0xc0) & 0x3f == c & 0x3f) by (bit_vector);
    assert(salt_of(p) =~= options.salt@);
    assert(derived_iv(p) =~= options.iv@);
}

pub struct Aes256Sha256Encoder {
    key: [u8; 32],
    chain: [u8; 16],
    buffer: [u8; 16],
    buffer_len: usize,
    done: bool,
    write_size: u64,
    iv: Ghost<Seq<u8>>,
    written: Ghost<Seq<u8>>,
    sealed: Ghost<Seq<u8>>,
    emitted: Ghost<Seq<u8>>,
}

impl Aes256Sha256Encoder {
    pub closed spec fn key(&self) -> Seq<u8> {
        self.key@
    }

    pub closed spec fn iv(&self) -> Seq<u8> {
        self.iv@
    }

    /// Every plaintext byte accepted so far.
    pub closed spec fn written(&self) -> Seq<u8> {
        self.written@
    }

    /// Every ciphertext byte handed back so far.
    pub closed spec fn emitted(&self) -> Seq<u8> {
        self.emitted@
    }

    /// The stream has been finalized.
    pub closed spec fn spec_done(&self) -> bool {
        self.done
    }

    pub closed spec fn spec_write_size(&self) -> nat {
        self.write_size as nat
    }

    closed spec fn carry(&self) -> Seq<u8> {
        self.buffer@.take(self.buffer_len as int)
    }

    /// The plaintext that the ciphertext so far encrypts: the whole blocks of
    /// what was written, and once finalized all of it, zero-padded.
    pub open spec fn encrypted_plain(&self) -> Seq<u8> {
        if self.spec_done() {
            zero_pad(self.written())
        } else {
            aligned(self.written())
        }
    }

    /// The ciphertext so far encrypts `sealed` block by block.
    closed spec fn chain_wf(&self) -> bool {
        &&& self.iv@.len() == 16
        &&& self.sealed@.len() % 16 == 0
        &&& self.emitted@ == cbc_encrypt(self.key@, self.iv@, self.sealed@)
        &&& cbc_decrypt(self.key@, self.iv@, self.emitted@) == self.sealed@
        &&& self.emitted@.len() == self.sealed@.len()
        &&& self.chain@ == chain_after(self.iv@, self.emitted@)
        &&& self.write_size == self.emitted@.len()
    }

    pub closed spec fn wf(&self) -> bool {
        &&& self.chain_wf()
        &&& self.buffer_len < 16
        &&& !self.done ==> self.written@ == self.sealed@ + self.carry()
        &&& self.done ==> self.buffer_len == 0 && self.sealed@ == zero_pad(self.written@)
    }

    /// The ciphertext is the CBC encryption of `encrypted_plain`, which its
    /// decryption gives back.
    pub proof fn lemma_output(&self)
        requires
            self.wf(),
        ensures
            self.emitted() == cbc_encrypt(self.key(), self.iv(), self.encrypted_plain()),
            cbc_decrypt(self.key(), self.iv(), self.emitted()) == self.encrypted_plain(),
            self.emitted().len() == self.encrypted_plain().len(),
            self.emitted().len() % 16 == 0,
            self.spec_write_size() == self.emitted().len(),
    {
        if !self.done {
            lemma_aligned_split(self.sealed@, self.carry());
        }
    }

    /// A stream that encrypts with the key and IV that the options derive.
    pub fn new(options: &AesEncoderOptions) -> (r: Result<Self, Error>)
        ensures
            match r {
                Ok(e) => {
                    &&& e.wf()
                    &&& e.written() == Seq::<u8>::empty()
                    &&& e.emitted() == Seq::<u8>::empty()
                    &&& !e.spec_done()
                    &&& derives(options.spec_properties(), options.password@, e.key(), e.iv())
                },
                Err(e) => e matches Error::PasswordRequired,
            },
            r is Ok <==> options.password@.len() > 0,
    {
        let props = options.properties();
        proof {
            lemma_properties_parse(*options);
        }
        let (key, iv) = get_aes_key(props.as_slice(), options.password.as_slice())?;
        let e = Aes256Sha256Encoder {
            key,
            chain: iv,
            buffer: [0u8; 16],
            buffer_len: 0,
            done: false,
            write_size: 0,
            iv: Ghost(iv@),
            written: Ghost(Seq::empty()),
            sealed: Ghost(Seq::empty()),
            emitted: Ghost(Seq::empty()),
        };
        assert(e.carry() =~= Seq::<u8>::empty());
        assert(e.written@ =~= e.sealed@ + e.carry());
        Ok(e)
    }

    /// The number of ciphertext bytes handed back so far.
    pub fn write_size(&self) -> (r: u64)
        requires
            self.wf(),
        ensures
            r == self.emitted().len(),
    {
        self.write_size
    }

    /// Encrypts the full block `block`, appends it to `out`, and chains on
    /// from it.
    fn write_block(&mut self, block: [u8; 16], out: &mut Vec<u8>)
        requires
            old(self).chain_wf(),
            old(self).write_size + 16 <= u64::MAX,
        ensures
            final(self).chain_wf(),
            final(self).sealed@ == old(self).sealed@ + block@,
            final(self).emitted@ == old(self).emitted@ + (final(self).emitted@.skip(
                old(self).emitted@.len() as int,
            )),
            final(out)@ == old(out)@ + final(self).emitted@.skip(old(self).emitted@.len() as int),
            final(self).key == old(self).key,
            final(self).iv == old(self).iv,
            final(self).written == old(self).written,
            final(self).buffer == old(self).buffer,
            final(self).buffer_len == old(self).buffer_len,
            final(self).done == old(self).done,
    {
        let c = encrypt_block(&self.key, &self.chain, &block);
        append(out, &c);
        let ghost pt = self.sealed@ + block@;
        let ghost ct = self.emitted@ + c@;
        proof {
            assert(pt.take(pt.len() - 16) =~= self.sealed@);
            assert(pt.skip(pt.len() - 16) =~= block@);
            assert(ct.take(ct.len() - 16) =~= self.emitted@);
            assert(ct.skip(ct.len() - 16) =~= c@);
            assert(chain_after(self.iv@, ct) =~= c@);
            assert(ct.skip(self.emitted@.len() as int) =~= c@);
        }
        self.chain = c;
        self.write_size = self.write_size + 16;
        self.sealed = Ghost(pt);
        self.emitted = Ghost(ct);
    }

    /// Ends the stream: zero-pads and encrypts the incomplete block, if any.
    fn finish(&mut self, out: &mut Vec<u8>)
        requires
            old(self).wf(),
            old(self).write_size + 16 <= u64::MAX,
        ensures
            final(self).wf(),
            final(self).done,
            final(self).written == old(self).written,
            final(self).key == old(self).key,
            final(self).iv == old(self).iv,
            final(self).emitted@.take(old(self).emitted@.len() as int) == old(self).emitted@,
            final(out)@ == old(out)@ + final(self).emitted@.skip(old(self).emitted@.len() as int),
    {
        if self.done {
            assert(self.emitted@.skip(self.emitted@.len() as int) =~= Seq::<u8>::empty());
            assert(self.emitted@.take(self.emitted@.len() as int) =~= self.emitted@);
            assert(out@ =~= out@ + Seq::<u8>::empty());
            return;
        }
        let ghost carry = self.carry();
        let ghost e0 = self.emitted@;
        proof {
            lemma_aligned_split(self.sealed@, carry);
        }
        if self.buffer_len > 0 {
            let mut k: usize = self.buffer_len;
            while k < BLOCK_SIZE
                invariant
                    self.chain_wf(),
                    !self.done,
                    0 < self.buffer_len < 16,
                    self.buffer_len == old(self).buffer_len,
                    self.written == old(self).written,
                    self.sealed == old(self).sealed,
                    self.emitted == old(self).emitted,
                    self.write_size == old(self).write_size,
                    self.key == old(self).key,
                    self.iv == old(self).iv,
                    self.write_size + 16 <= u64::MAX,
                    old(self).written@ == old(self).sealed@ + carry,
                    carry.len() == self.buffer_len,
                    self.buffer_len <= k <= 16,
                    self.buffer@.take(self.buffer_len as int) == carry,
                    forall|j: int| self.buffer_len <= j < k ==> self.buffer@[j] == 0u8,
                decreases 16 - k,
            {
                self.buffer[k] = 0;
                k += 1;
            }
            let ghost block = self.buffer@;
            assert(block =~= carry + Seq::new((16 - carry.len()) as nat, |_i: int| 0u8));
            self.write_block(self.buffer, out);
            self.buffer_len = 0;
            assert(self.sealed@ =~= zero_pad(self.written@));
        } else {
            assert(self.sealed@ =~= zero_pad(self.written@));
            assert(self.emitted@.skip(self.emitted@.len() as int) =~= Seq::<u8>::empty());
            assert(out@ =~= out@ + Seq::<u8>::empty());
        }
        self.done = true;
        assert(self.emitted@.take(e0.len() as int) =~= e0);
    }

    /// Accepts `buf`: encrypts each block it completes and appends the
    /// ciphertext to `out`, keeping the rest for later. Returns `buf.len()`.
    /// An empty `buf` finalizes the stream: the last incomplete block is
    /// zero-padded and encrypted. After that, writes accept nothing.
    pub fn write(&mut self, buf: &[u8], out: &mut Vec<u8>) -> (r: usize)
        requires
            old(self).wf(),
            old(self).spec_write_size() + buf@.len() + 16 <= u64::MAX,
        ensures
            final(self).wf(),
            final(self).key() == old(self).key(),
            final(self).iv() == old(self).iv(),
            old(self).spec_done() && buf@.len() > 0 ==> r == 0 && *final(self) == *old(self),
            buf@.len() == 0 ==> r == 0 && final(self).spec_done() && final(self).written()
                == old(self).written(),
            !old(self).spec_done() && buf@.len() > 0 ==> r == buf@.len() && !final(self).spec_done()
                && final(self).written() == old(self).written() + buf@,
            final(self).emitted() == cbc_encrypt(
                final(self).key(),
                final(self).iv(),
                final(self).encrypted_plain(),
            ),
            final(self).emitted().take(old(self).emitted().len() as int) == old(self).emitted(),
            final(out)@ == old(out)@ + final(self).emitted().skip(old(self).emitted().len() as int),
    {
        if self.done && buf.len() > 0 {
            proof {
                self.lemma_output();
            }
            assert(self.emitted@.skip(self.emitted@.len() as int) =~= Seq::<u8>::empty());
            assert(self.emitted@.take(self.emitted@.len() as int) =~= self.emitted@);
            assert(out@ =~= out@ + Seq::<u8>::empty());
            return 0;
        }
        if buf.len() == 0 {
            self.finish(out);
            proof {
                self.lemma_output();
            }
            return 0;
        }
        let ghost e0 = self.emitted@;
        let ghost out0 = out@;
        let mut i: usize = 0;
        while i < buf.len()
            invariant
                self.wf(),
                !self.done,
                i <= buf@.len(),
                self.key == old(self).key,
                self.iv == old(self).iv,
                self.written@ == old(self).written@ + buf@.take(i as int),
                e0 == old(self).emitted@,
                out0 == old(out)@,
                self.emitted@.take(e0.len() as int) == e0,
                self.emitted@.len() >= e0.len(),
                out@ == out0 + self.emitted@.skip(e0.len() as int),
                self.write_size + self.buffer_len <= old(self).write_size + old(self).buffer_len + i,
                old(self).buffer_len < 16,
                old(self).write_size + buf@.len() + 16 <= u64::MAX,
            decreases buf@.len() - i,
        {
            let ghost w0 = self.written@;
            let ghost carry0 = self.carry();
            let ghost em = self.emitted@;
            self.buffer[self.buffer_len] = buf[i];
            self.buffer_len = self.buffer_len + 1;
            self.written = Ghost(w0.push(buf@[i as int]));
            assert(self.carry() =~= carry0.push(buf@[i as int]));
            assert(buf@.take(i + 1) =~= buf@.take(i as int).push(buf@[i as int]));
            if self.buffer_len == BLOCK_SIZE {
                let ghost block = self.buffer@;
                assert(block =~= self.carry());
                self.write_block(self.buffer, out);
                self.buffer_len = 0;
                proof {
                    assert(self.carry() =~= Seq::<u8>::empty());
                    assert(self.written@ =~= self.sealed@ + self.carry());
                    let added = self.emitted@.skip(em.len() as int);
                    assert(self.emitted@ == em + added);
                    assert(self.emitted@.take(e0.len() as int) =~= em.take(e0.len() as int));
                    assert(self.emitted@.skip(e0.len() as int) =~= em.skip(e0.len() as int) + added);
                    assert(out@ =~= out0 + self.emitted@.skip(e0.len() as int));
                }
            } else {
                assert(self.written@ =~= self.sealed@ + self.carry());
            }
            i += 1;
        }
        assert(buf@.take(buf@.len() as int) =~= buf@);
        proof {
            self.lemma_output();
        }
        buf.len()
    }
}

/// Encrypting and then decrypting with the same parameter block and
/// password gives back the plaintext, followed by the zeros that filled its
/// last block.
pub proof fn lemma_round_trip(
    props: Seq<u8>,
    password: Seq<u8>,
    enc: Aes256Sha256Encoder,
    dec: Aes256Sha256Decoder,
)
    requires
        enc.wf(),
        enc.spec_done(),
        derives(props, password, enc.key(), enc.iv()),
        derives(props, password, dec.key(), dec.iv()),
        dec.consumed() == enc.emitted(),
    ensures
        dec.plaintext() == zero_pad(enc.written()),
        dec.plaintext().take(enc.written().len() as int) == enc.written(),
{
    enc.lemma_output();
    lemma_aligned_split(enc.emitted(), Seq::empty());
    assert(enc.emitted() + Seq::<u8>::empty() =~= enc.emitted());
    assert(zero_pad(enc.written()).take(enc.written().len() as int) =~= enc.written());
}

/// Two encrypting streams with the same key and IV that have accepted the
/// same bytes, in whatever pieces, have handed back the same ciphertext.
pub proof fn lemma_encoder_chunking(a: Aes256Sha256Encoder, b: Aes256Sha256Encoder)
    requires
        a.wf(),
        b.wf(),
        a.key() == b.key(),
        a.iv() == b.iv(),
        a.written() == b.written(),
        a.spec_done() == b.spec_done(),
    ensures
        a.emitted() == b.emitted(),
{
    a.lemma_output();
    b.lemma_output();
}

/// Two decrypting streams with the same key and IV that have taken the same
/// ciphertext, in whatever pieces, have decrypted the same plaintext.
pub proof fn lemma_decoder_chunking(a: Aes256Sha256Decoder, b: Aes256Sha256Decoder)
    requires
        a.key() == b.key(),
        a.iv() == b.iv(),
        a.consumed() == b.consumed(),
    ensures
        a.plaintext() == b.plaintext(),
{
}

} // verus!
