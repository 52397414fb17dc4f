//! Checksums: a streaming SHA-512 digest fed in fixed-size chunks, rendered
//! as lowercase hex, and the sidecar file content written next to each
//! archive.

use sha2::Digest;
use vstd::prelude::*;
use vstd::slice::slice_subrange;
use vstd::string::*;

verus! {

/// An in-progress SHA-512 computation over the bytes fed so far.
#[verifier::external_body]
pub struct Sha512Stream {
    inner: sha2::Sha512,
}

/// The bytes fed into a digest stream so far.
pub uninterp spec fn sha_fed(h: Sha512Stream) -> Seq<u8>;

/// The SHA-512 digest of a byte sequence; the result depends on the bytes
/// alone.
pub uninterp spec fn sha512_digest(data: Seq<u8>) -> Seq<u8>;

/// Relies on sha2::Sha512::new: a fresh digest state with nothing fed.
#[verifier::external_body]
pub fn sha512_new() -> (r: Sha512Stream)
    ensures
        sha_fed(r) == Seq::<u8>::empty(),
{
    Sha512Stream { inner: sha2::Sha512::new() }
}

/// Relies on sha2::Sha512::update: feeding bytes appends them to the
/// digested stream.
#[verifier::external_body]
pub fn sha512_update(h: &mut Sha512Stream, chunk: &[u8])
    ensures
        sha_fed(*final (h)) == sha_fed(*old(h)) + chunk@,
{
    h.inner.update(chunk);
}

/// Relies on sha2::Sha512::finalize: the 64-byte SHA-512 digest of exactly
/// the bytes fed.
#[verifier::external_body]
pub fn sha512_finalize(h: Sha512Stream) -> (r: Vec<u8>)
    ensures
        r@ == sha512_digest(sha_fed(h)),
        r@.len() == 64,
{
    h.inner.finalize().to_vec()
}

/// The lowercase hex rendering of a byte sequence; the result depends on
/// the bytes alone.
pub uninterp spec fn hex_of(b: Seq<u8>) -> Seq<char>;

/// Relies on hex::encode: two lowercase hex digits for each byte.
#[verifier::external_body]
pub fn to_hex(b: &Vec<u8>) -> (r: String)
    ensures
        r@ == hex_of(b@),
        r@.len() == 2 * b@.len(),
{
    hex::encode(b)
}

/// The hex SHA-512 digest of a byte buffer, streamed through the hasher in
/// fixed 8192-byte chunks.
pub fn compute_sha512(data: &Vec<u8>) -> (r: String)
    ensures
        r@ == hex_of(sha512_digest(data@)),
        r@.len() == 128,
{
    let mut h = sha512_new();
    let n = data.len();
    let mut i: usize = 0;
    proof {
        assert(data@.subrange(0, 0) =~= Seq::<u8>::empty());
    }
    while i < n
        invariant
            0 <= i <= n,
            n == data@.len(),
            sha_fed(h) == data@.subrange(0, i as int),
        decreases n - i,
    {
        let end = if n - i > 8192 {
            i + 8192
        } else {
            n
        };
        let chunk = slice_subrange(data.as_slice(), i, end);
        proof {
            assert(chunk@ =~= data@.subrange(i as int, end as int));
        }
        sha512_update(&mut h, chunk);
        proof {
            assert(data@.subrange(0, i as int) + data@.subrange(i as int, end as int)
                =~= data@.subrange(0, end as int));
        }
        i = end;
    }
    proof {
        assert(data@.subrange(0, n as int) =~= data@);
    }
    let digest = sha512_finalize(h);
    to_hex(&digest)
}

/// The content of a checksum sidecar file: the hex digest and a newline.
pub fn checksum_sidecar_content(hex_digest: &str) -> (r: String)
    ensures
        r@ == hex_digest@ + "\n"@,
{
    let mut r = String::from_str(hex_digest);
    r.append("\n");
    r
}

} // verus!
