//! Verification of a streamed download: bytes arrive chunk by chunk; at the
//! end the accumulated size must equal the declared size exactly, and the
//! content digest must equal the expected digest, or the download is rejected
//! with an integrity error. The caller performs the transport and the file
//! writes; this module decides acceptance.

use vstd::prelude::*;

verus! {

use crate::errors::Error;
use crate::hashing::ContentHasher;
use crate::hashing::md5_hex_of;
use vstd::string::StringExecFns;

/// One download in progress: the declared checks and what has arrived so
/// far. The digest is computed incrementally during the same streaming pass,
/// never from a second read of the data.
pub struct DownloadSession {
    expected_size: Option<u64>,
    expected_hash: Option<String>,
    received: u64,
    hasher: ContentHasher,
}

impl DownloadSession {
    /// The bytes fed so far, in order.
    pub closed spec fn bytes_received(self) -> Seq<u8> {
        self.hasher.bytes_fed()
    }

    /// The declared size this session checks against, if any.
    pub closed spec fn size_check(self) -> Option<u64> {
        self.expected_size
    }

    /// The expected digest this session checks against, if any.
    pub closed spec fn hash_check(self) -> Option<Seq<char>> {
        match self.expected_hash {
            Some(h) => Some(h@),
            None => None,
        }
    }

    /// The byte counter matches the fed stream.
    pub closed spec fn wf(self) -> bool {
        self.received == self.bytes_received().len()
    }

    /// Whether the accumulated bytes pass the declared size check.
    pub open spec fn size_ok(self) -> bool {
        match self.size_check() {
            Some(s) => self.bytes_received().len() == s,
            None => true,
        }
    }

    /// Whether the accumulated bytes pass the expected digest check.
    pub open spec fn hash_ok(self) -> bool {
        match self.hash_check() {
            Some(h) => h == md5_hex_of(self.bytes_received()),
            None => true,
        }
    }

    /// Starts a download with the checks it must pass at the end.
    pub fn begin(expected_size: Option<u64>, expected_hash: Option<String>) -> (r: Self)
        ensures
            r.wf(),
            r.bytes_received() == Seq::<u8>::empty(),
            r.size_check() == expected_size,
            r.hash_check() == (match expected_hash {
                Some(h) => Some(h@),
                None => None::<Seq<char>>,
            }),
    {
        Self { expected_size, expected_hash, received: 0, hasher: ContentHasher::new() }
    }

    /// Accepts one chunk of the stream, counting and digesting it in the
    /// same pass.
    pub fn feed(&mut self, chunk: &[u8])
        requires
            old(self).wf(),
            old(self).bytes_received().len() + chunk@.len() <= u64::MAX,
        ensures
            final(self).wf(),
            final(self).bytes_received() == old(self).bytes_received() + chunk@,
            final(self).size_check() == old(self).size_check(),
            final(self).hash_check() == old(self).hash_check(),
    {
        self.hasher.update(chunk);
        self.received = self.received + chunk.len() as u64;
    }

    /// Ends the stream: accepts and returns the computed digest exactly when
    /// every declared check passes, and rejects with an integrity error
    /// otherwise. A partial or corrupted transfer is never accepted.
    pub fn finish(self) -> (r: Result<String, Error>)
        requires
            self.wf(),
        ensures
            r is Ok <==> self.size_ok() && self.hash_ok(),
            r matches Ok(d) ==> d@ == md5_hex_of(self.bytes_received()),
            r matches Err(e) ==> e is IntegrityError,
    {
        let received = self.received;
        let expected_size = self.expected_size;
        let expected_hash = self.expected_hash;
        let digest = self.hasher.finish();
        if let Some(s) = expected_size {
            if received != s {
                return Err(
                    Error::IntegrityError {
                        detail: "downloaded size differs from the declared size".to_owned(),
                    },
                );
            }
        }
        if let Some(h) = &expected_hash {
            if !digest.eq(h) {
                let mut detail = "content digest mismatch: expected ".to_owned();
                detail.append(h.as_str());
                detail.append(", calculated ");
                detail.append(digest.as_str());
                return Err(Error::IntegrityError { detail });
            }
        }
        Ok(digest)
    }
}

} // verus!
