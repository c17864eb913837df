//! Streaming content digests: an MD5-compatible 128-bit digest of a byte
//! stream, fed in bounded-size chunks, rendered as a lowercase hex string.

use vstd::prelude::*;

verus! {

use vstd::slice::slice_subrange;

/// Declares the md5 crate's streaming context; what it has consumed is
/// spoken of only through `md5_fed`.
#[verifier::external_type_specification]
#[verifier::external_body]
pub struct ExMd5Context(md5::Context);

/// The stream of bytes consumed so far by an MD5 context.
pub uninterp spec fn md5_fed(c: md5::Context) -> Seq<u8>;

/// The lowercase hex digest of a byte sequence. The digest is a function of
/// the bytes alone; its definition is the MD5 algorithm, left uninterpreted.
pub uninterp spec fn md5_hex_of(bytes: Seq<u8>) -> Seq<char>;

/// Relies on md5::Context::new: a fresh context has consumed nothing.
#[verifier::external_body]
fn md5_context_new() -> (c: md5::Context)
    ensures
        md5_fed(c) == Seq::<u8>::empty(),
{
    md5::Context::new()
}

/// Relies on md5::Context::consume: it appends the chunk to the consumed
/// stream and does nothing else.
#[verifier::external_body]
fn md5_context_consume(c: &mut md5::Context, chunk: &[u8])
    ensures
        md5_fed(*final(c)) == md5_fed(*old(c)) + chunk@,
{
    c.consume(chunk);
}

/// Relies on md5::Context::finalize and the LowerHex rendering of
/// md5::Digest: the digest depends on the consumed bytes alone and prints as
/// exactly 32 lowercase hex digits (two per digest byte).
#[verifier::external_body]
fn md5_context_finalize_hex(c: md5::Context) -> (r: String)
    ensures
        r@ == md5_hex_of(md5_fed(c)),
        r@.len() == 32,
{
    format!("{:x}", c.finalize())
}

/// A streaming content hasher: bytes go in chunk by chunk, a lowercase hex
/// digest comes out. A pure function of the fed bytes; no side effects.
pub struct ContentHasher {
    ctx: md5::Context,
}

impl ContentHasher {
    /// The bytes fed so far.
    pub closed spec fn bytes_fed(self) -> Seq<u8> {
        md5_fed(self.ctx)
    }

    /// A fresh hasher with nothing fed.
    pub fn new() -> (r: Self)
        ensures
            r.bytes_fed() == Seq::<u8>::empty(),
    {
        Self { ctx: md5_context_new() }
    }

    /// Feeds one chunk.
    pub fn update(&mut self, chunk: &[u8])
        ensures
            final(self).bytes_fed() == old(self).bytes_fed() + chunk@,
    {
        md5_context_consume(&mut self.ctx, chunk);
    }

    /// Finishes the stream and returns the digest of everything fed.
    pub fn finish(self) -> (r: String)
        ensures
            r@ == md5_hex_of(self.bytes_fed()),
            r@.len() == 32,
    {
        md5_context_finalize_hex(self.ctx)
    }
}

/// Size of the chunks `hash_bytes` feeds, so hashing never needs the whole
/// input resident at once when the caller streams it.
pub const HASH_CHUNK_SIZE: usize = 1024;

/// Digests a byte slice by streaming it through a `ContentHasher` in
/// bounded-size chunks.
pub fn hash_bytes(data: &[u8]) -> (r: String)
    ensures
        r@ == md5_hex_of(data@),
        r@.len() == 32,
{
    let mut h = ContentHasher::new();
    let n = data.len();
    let mut i: usize = 0;
    while i < n
        invariant
            n == data@.len(),
            0 <= i <= n,
            h.bytes_fed() == data@.subrange(0, i as int),
        decreases n - i,
    {
        let j = if n - i < HASH_CHUNK_SIZE {
            n
        } else {
            i + HASH_CHUNK_SIZE
        };
        let chunk = slice_subrange(data, i, j);
        h.update(chunk);
        proof {
            assert(h.bytes_fed() =~= data@.subrange(0, j as int));
        }
        i = j;
    }
    proof {
        assert(data@.subrange(0, n as int) =~= data@);
    }
    h.finish()
}

/// The digest is deterministic: it is a function of the byte sequence alone,
/// so hashing the same bytes twice yields identical digests.
pub proof fn lemma_digest_deterministic(a: Seq<u8>, b: Seq<u8>)
    requires
        a == b,
    ensures
        md5_hex_of(a) == md5_hex_of(b),
{
}

} // verus!
