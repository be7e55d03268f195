//! The failures of the codec and of the archive code around it.
use crate::primitives::invalid_data;
use vstd::prelude::*;

verus! {

#[derive(Debug)]
pub enum Error {
    BadSignature([u8; 6]),
    UnsupportedVersion { major: u8, minor: u8 },
    ChecksumVerificationFailed,
    NextHeaderCrcMismatch,
    /// A failure of the wrapped source or sink, with its context; an empty
    /// context marks a failure met while reading a stream.
    Io(std::io::Error, String),
    FileOpen(std::io::Error, String),
    /// A malformed parameter block or another format error.
    Other(String),
    BadTerminatedStreamsInfo(u8),
    BadTerminatedUnpackInfo,
    BadTerminatedPackInfo(u8),
    BadTerminatedSubStreamsInfo,
    BadTerminatedheader(u8),
    ExternalUnsupported,
    UnsupportedCompressionMethod(String),
    MaxMemLimited { max_kb: usize, actaul_kb: usize },
    /// The key derivation was given an empty password.
    PasswordRequired,
    /// An operation the stream does not offer, such as a seek outside the
    /// decrypted window.
    Unsupported(String),
    /// A failure on an encrypted stream that a wrong password explains.
    MaybeBadPassword(std::io::Error),
    /// The ciphertext ended inside a cipher block.
    IllegalBlockSize,
}

impl Error {
    pub fn other(s: &str) -> (r: Self)
        ensures
            r matches Error::Other(m) && m@ == s@,
    {
        Error::Other(s.to_string())
    }

    pub fn unsupported(s: &str) -> (r: Self)
        ensures
            r matches Error::Unsupported(m) && m@ == s@,
    {
        Error::Unsupported(s.to_string())
    }

    pub fn io(e: std::io::Error) -> (r: Self)
        ensures
            r matches Error::Io(x, m) && x == e && m@.len() == 0,
    {
        proof {
            reveal_strlit("");
        }
        Self::io_msg(e, "")
    }

    pub fn io_msg(e: std::io::Error, msg: &str) -> (r: Self)
        ensures
            r matches Error::Io(x, m) && x == e && m@ == msg@,
    {
        Error::Io(e, msg.to_string())
    }

    /// `MaybeBadPassword` for a failure on an encrypted stream, else a plain
    /// I/O failure.
    pub fn bad_password(e: std::io::Error, encrypted: bool) -> (r: Self)
        ensures
            encrypted ==> (r matches Error::MaybeBadPassword(x) && x == e),
            !encrypted ==> (r matches Error::Io(x, m) && x == e && m@.len() == 0),
    {
        if encrypted {
            Error::MaybeBadPassword(e)
        } else {
            Self::io(e)
        }
    }

    pub fn file_open(e: std::io::Error, filename: &str) -> (r: Self)
        ensures
            r matches Error::Io(x, m) && x == e && m@ == filename@,
    {
        Error::Io(e, filename.to_string())
    }

    /// Whether a wrong password explains this failure on an encrypted stream:
    /// a stream I/O failure (one with no context) or a ciphertext that ended
    /// inside a block.
    pub open spec fn blames_password(&self) -> bool {
        ||| self matches Error::Io(_, m) && m@.len() == 0
        ||| self matches Error::IllegalBlockSize
    }

    /// Reports this failure as `MaybeBadPassword` where the stream is
    /// encrypted and a wrong password explains it; else leaves it as it is.
    pub fn maybe_bad_password(self, encrypted: bool) -> (r: Self)
        ensures
            encrypted && self.blames_password() ==> r matches Error::MaybeBadPassword(_),
            match self {
                Error::Io(x, m) => encrypted && m@.len() == 0 ==> (r matches Error::MaybeBadPassword(
                    y,
                ) && y == x),
                _ => true,
            },
            !(encrypted && self.blames_password()) ==> r == self,
    {
        if !encrypted {
            return self;
        }
        match self {
            Error::Io(e, s) => {
                if s.as_str().is_empty() {
                    Error::MaybeBadPassword(e)
                } else {
                    Error::Io(e, s)
                }
            },
            Error::IllegalBlockSize => Error::MaybeBadPassword(invalid_data("IllegalBlockSize")),
            other => other,
        }
    }
}

} // verus!
