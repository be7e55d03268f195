//! The decrypting stream. The caller pulls ciphertext from its source and
//! hands it over; the stream serves plaintext from a buffered window.
use crate::cipher::{aligned, cbc_decrypt, Cipher};
use crate::error::Error;
use crate::kdf::{derivation_error, derives};
use vstd::prelude::*;

verus! {

/// Ciphertext bytes to pull from the source per refill.
pub const READ_CHUNK: usize = 512;

/// Where a seek is measured from.
#[derive(Debug, Clone, Copy)]
pub enum SeekFrom {
    Start(u64),
    End(i64),
    Current(i64),
}

pub struct Aes256Sha256Decoder {
    cipher: Cipher,
    done: bool,
    obuffer: Vec<u8>,
    ostart: usize,
    ofinish: usize,
    pos: usize,
}

impl Aes256Sha256Decoder {
    pub closed spec fn key(&self) -> Seq<u8> {
        self.cipher.key()
    }

    pub closed spec fn iv(&self) -> Seq<u8> {
        self.cipher.iv()
    }

    /// Every ciphertext byte handed over so far.
    pub closed spec fn consumed(&self) -> Seq<u8> {
        self.cipher.fed()
    }

    /// The ciphertext bytes past the last whole block.
    pub closed spec fn carry(&self) -> Seq<u8> {
        self.cipher.carry()
    }

    /// The plaintext of every whole block handed over so far.
    pub open spec fn plaintext(&self) -> Seq<u8> {
        cbc_decrypt(self.key(), self.iv(), aligned(self.consumed()))
    }

    /// The plaintext from the current position on: what reads return next.
    pub open spec fn unread(&self) -> Seq<u8> {
        self.plaintext().skip(self.spec_position() as int)
    }

    /// The offset in the plaintext of the next byte to read.
    pub closed spec fn spec_position(&self) -> nat {
        self.pos as nat
    }

    /// The number of decrypted bytes buffered and not yet read.
    pub closed spec fn spec_available(&self) -> nat {
        (self.ofinish - self.ostart) as nat
    }

    /// The source has ended and the stream takes no more ciphertext.
    pub closed spec fn spec_done(&self) -> bool {
        self.done
    }

    pub closed spec fn wf(&self) -> bool {
        let plain = self.cipher.plain();
        &&& self.cipher.wf()
        &&& self.ofinish == self.obuffer@.len()
        &&& self.ostart <= self.ofinish
        &&& self.obuffer@.len() <= plain.len()
        &&& self.obuffer@ == plain.skip(plain.len() - self.obuffer@.len())
        &&& self.pos + self.ofinish - self.ostart == plain.len()
        &&& plain.len() <= usize::MAX
    }

    /// What a well-formed stream tells of its parts: the buffered bytes are
    /// the end of the plaintext, from the current position on.
    proof fn lemma_wf(&self)
        requires
            self.wf(),
        ensures
            self.spec_position() + self.spec_available() == self.plaintext().len(),
            self.plaintext() == self.cipher.plain(),
            self.unread() == self.obuffer@.subrange(self.ostart as int, self.ofinish as int),
            self.consumed() == self.cipher.fed(),
            self.carry().len() < 16,
            self.iv().len() == 16,
    {
        self.cipher.lemma_wf();
        assert(self.unread() =~= self.obuffer@.subrange(self.ostart as int, self.ofinish as int));
    }

    /// Opens a stream for a parameter block and password.
    pub fn new(properties: &[u8], password: &[u8]) -> (r: Result<Self, Error>)
        ensures
            match r {
                Ok(d) => {
                    &&& d.wf()
                    &&& d.consumed() == Seq::<u8>::empty()
                    &&& d.spec_position() == 0
                    &&& d.spec_available() == 0
                    &&& !d.spec_done()
                    &&& derives(properties@, password@, d.key(), d.iv())
                },
                Err(e) => derivation_error(properties@, password@, e),
            },
            r is Ok <==> exists|k: Seq<u8>, v: Seq<u8>| derives(properties@, password@, k, v),
    {
        let cipher = Cipher::from_properties(properties, password)?;
        proof {
            cipher.lemma_wf();
        }
        Ok(Aes256Sha256Decoder {
            cipher,
            done: false,
            obuffer: Vec::new(),
            ostart: 0,
            ofinish: 0,
            pos: 0,
        })
    }

    pub fn position(&self) -> (r: usize)
        ensures
            r == self.spec_position(),
    {
        self.pos
    }

    pub fn available(&self) -> (r: usize)
        requires
            self.wf(),
        ensures
            r == self.spec_available(),
    {
        self.ofinish - self.ostart
    }

    pub fn is_done(&self) -> (r: bool)
        ensures
            r == self.spec_done(),
    {
        self.done
    }

    /// A read must first pull from the source: nothing is buffered and the
    /// source has not ended.
    pub fn needs_input(&self) -> (r: bool)
        requires
            self.wf(),
        ensures
            r == (self.spec_available() == 0 && !self.spec_done()),
    {
        self.ostart >= self.ofinish && !self.done
    }

    /// Hands over the next ciphertext pulled from the source; an empty
    /// `input` says the source has ended, which ends the stream once. Returns
    /// the number of plaintext bytes this made available.
    pub fn get_more_data(&mut self, input: &[u8]) -> (r: Result<usize, Error>)
        requires
            old(self).wf(),
            old(self).spec_position() + old(self).spec_available() + input@.len() + 16
                <= usize::MAX,
        ensures
            final(self).wf(),
            final(self).key() == old(self).key(),
            final(self).iv() == old(self).iv(),
            final(self).spec_position() == old(self).spec_position(),
            old(self).spec_done() ==> r == Ok::<usize, Error>(0) && *final(self) == *old(self),
            !old(self).spec_done() && input@.len() == 0 ==> {
                &&& final(self).spec_done()
                &&& final(self).consumed() == old(self).consumed()
                &&& final(self).spec_available() == old(self).spec_available()
                &&& (old(self).carry().len() == 0 <==> r == Ok::<usize, Error>(0))
                &&& (old(self).carry().len() != 0 <==> r matches Err(Error::IllegalBlockSize))
            },
            !old(self).spec_done() && input@.len() > 0 ==> {
                &&& !final(self).spec_done()
                &&& final(self).consumed() == old(self).consumed() + input@
                &&& r matches Ok(n) && n + old(self).plaintext().len()
                    == final(self).plaintext().len()
                &&& final(self).spec_available() + old(self).plaintext().len()
                    == old(self).spec_available() + final(self).plaintext().len()
            },
            final(self).plaintext().take(old(self).plaintext().len() as int) == old(self).plaintext(),
    {
        proof {
            self.lemma_wf();
        }
        if self.done {
            return Ok(0);
        }
        if self.ostart >= self.ofinish {
            self.obuffer.clear();
            self.ostart = 0;
            self.ofinish = 0;
            assert(self.obuffer@ =~= self.cipher.plain().skip(self.cipher.plain().len() as int));
        }
        if input.len() == 0 {
            self.done = true;
            let r = self.cipher.do_final();
            assert(self.plaintext().take(self.plaintext().len() as int) =~= self.plaintext());
            return r;
        }
        let ghost fed0 = self.cipher.fed();
        proof {
            self.cipher.lemma_wf();
            assert(fed0.len() < self.cipher.plain().len() + 16);
        }
        let n = self.cipher.update(input, &mut self.obuffer);
        proof {
            self.cipher.lemma_wf();
            let plain = self.cipher.plain();
            assert(plain.len() <= fed0.len() + input@.len());
            assert(self.obuffer@ =~= plain.skip(plain.len() - self.obuffer@.len()));
        }
        self.ofinish = self.obuffer.len();
        Ok(n)
    }

    /// Copies buffered plaintext into `buf`: as many bytes as both hold.
    /// Pulls nothing; where `needs_input` holds, hand over input first.
    pub fn read(&mut self, buf: &mut [u8]) -> (n: usize)
        requires
            old(self).wf(),
        ensures
            final(self).wf(),
            n == if old(buf)@.len() < old(self).spec_available() {
                old(buf)@.len()
            } else {
                old(self).spec_available()
            },
            final(buf)@.len() == old(buf)@.len(),
            final(buf)@.take(n as int) == old(self).unread().take(n as int),
            final(buf)@.skip(n as int) == old(buf)@.skip(n as int),
            final(self).spec_position() == old(self).spec_position() + n,
            final(self).spec_available() == old(self).spec_available() - n,
            final(self).consumed() == old(self).consumed(),
            final(self).spec_done() == old(self).spec_done(),
            final(self).key() == old(self).key(),
            final(self).iv() == old(self).iv(),
    {
        proof {
            self.lemma_wf();
        }
        let avail = self.ofinish - self.ostart;
        let size = if buf.len() < avail {
            buf.len()
        } else {
            avail
        };
        let mut j: usize = 0;
        while j < size
            invariant
                self.wf(),
                *self == *old(self),
                j <= size <= buf@.len(),
                size <= self.ofinish - self.ostart,
                buf@.len() == old(buf)@.len(),
                forall|k: int| 0 <= k < j ==> buf@[k] == self.obuffer@[self.ostart + k],
                forall|k: int| j <= k < buf@.len() ==> buf@[k] == old(buf)@[k],
            decreases size - j,
        {
            buf[j] = self.obuffer[self.ostart + j];
            j += 1;
        }
        assert(buf@.take(size as int) =~= old(self).unread().take(size as int));
        assert(buf@.skip(size as int) =~= old(buf)@.skip(size as int));
        self.ostart = self.ostart + size;
        self.pos = self.pos + size;
        size
    }

    /// Moves forward inside the buffered window. A target behind the current
    /// position leaves the stream as it is and returns 0; one past the window,
    /// or any seek from the end, fails with `Unsupported`. Otherwise returns
    /// the new position.
    pub fn seek(&mut self, pos: SeekFrom) -> (r: Result<u64, Error>)
        requires
            old(self).wf(),
        ensures
            final(self).wf(),
            match seek_delta(pos, old(self).spec_position()) {
                None => r matches Err(Error::Unsupported(_)) && *final(self) == *old(self),
                Some(d) => if d < 0 {
                    r == Ok::<u64, Error>(0) && *final(self) == *old(self)
                } else if d > old(self).spec_available() {
                    r matches Err(Error::Unsupported(_)) && *final(self) == *old(self)
                } else {
                    &&& r == Ok::<u64, Error>((old(self).spec_position() + d) as u64)
                    &&& final(self).spec_position() == old(self).spec_position() + d
                    &&& final(self).spec_available() == old(self).spec_available() - d
                    &&& final(self).consumed() == old(self).consumed()
                    &&& final(self).spec_done() == old(self).spec_done()
                    &&& final(self).key() == old(self).key()
                    &&& final(self).iv() == old(self).iv()
                },
            },
    {
        proof {
            self.lemma_wf();
        }
        let len = self.ofinish - self.ostart;
        let n: usize = match pos {
            SeekFrom::Start(p) => {
                if p < self.pos as u64 {
                    return Ok(0);
                }
                let d = p - self.pos as u64;
                if d > len as u64 {
                    return Err(Error::unsupported("Aes256 decoder cannot seek past the decrypted window"));
                }
                d as usize
            },
            SeekFrom::End(_) => {
                return Err(Error::unsupported("Aes256 decoder unsupport seek from end"));
            },
            SeekFrom::Current(d) => {
                if d < 0 {
                    return Ok(0);
                }
                if d as u64 > len as u64 {
                    return Err(Error::unsupported("Aes256 decoder cannot seek past the decrypted window"));
                }
                d as usize
            },
        };
        self.ostart = self.ostart + n;
        self.pos = self.pos + n;
        Ok(self.pos as u64)
    }
}

/// How far a seek moves from `position`; `None` for a seek from the end.
pub open spec fn seek_delta(pos: SeekFrom, position: nat) -> Option<int> {
    match pos {
        SeekFrom::Start(p) => Some(p - position),
        SeekFrom::End(_) => None,
        SeekFrom::Current(d) => Some(d as int),
    }
}

} // verus!
