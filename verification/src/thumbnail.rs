//! Thumbnails: the size a thumbnail is scaled to, and the cache key a
//! photo's thumbnail is stored under.

use vstd::prelude::*;
use vstd::bytes::{spec_u64_to_le_bytes, u64_to_le_bytes};
use vstd::string::*;
use crate::hash::hex_lower;
use sha2::Digest;

verus! {

/// Length of the longer edge of a thumbnail.
pub const THUMB_MAX_EDGE: u32 = 256;

/// `a / b` scaled to the maximum edge and rounded half away from zero.
pub open spec fn scaled_edge(a: nat, b: nat) -> nat {
    if b == 0 {
        0
    } else {
        ((512 * a + b) / (2 * b)) as nat
    }
}

/// Size of the thumbnail of a `width` by `height` image: the longer edge
/// becomes 256 and the other keeps the aspect ratio, rounded, at least 1.
pub open spec fn thumb_size(width: u32, height: u32) -> (nat, nat) {
    if width >= height {
        let nh = scaled_edge(height as nat, width as nat);
        (256, if nh >= 1 { nh } else { 1 })
    } else {
        let nw = scaled_edge(width as nat, height as nat);
        (if nw >= 1 { nw } else { 1 }, 256)
    }
}

/// Computes the thumbnail size of an image.
pub fn thumbnail_size(width: u32, height: u32) -> (r: (u32, u32))
    ensures
        (r.0 as nat, r.1 as nat) == thumb_size(width, height),
        r.0 <= 256,
        r.1 <= 256,
{
    if width >= height {
        let nh: u64 = if width == 0 {
            0
        } else {
            let num: u64 = 512 * (height as u64) + (width as u64);
            let den: u64 = 2 * (width as u64);
            proof {
                assert(num < 257 * den);
                assert(num / den <= 256) by (nonlinear_arith)
                    requires
                        num < 257 * den,
                        den > 0,
                ;
            }
            num / den
        };
        (THUMB_MAX_EDGE, if nh >= 1 { nh as u32 } else { 1 })
    } else {
        let num: u64 = 512 * (width as u64) + (height as u64);
        let den: u64 = 2 * (height as u64);
        proof {
            assert(num < 257 * den);
            assert(num / den <= 256) by (nonlinear_arith)
                requires
                    num < 257 * den,
                    den > 0,
            ;
        }
        let nw: u64 = num / den;
        (if nw >= 1 { nw as u32 } else { 1 }, THUMB_MAX_EDGE)
    }
}

/// The SHA-256 digest of a byte sequence.
pub uninterp spec fn sha256_digest(data: Seq<u8>) -> Seq<u8>;

/// Calls `sha2::Sha256::digest`. Claimed: the result is the SHA-256 digest
/// of the bytes, a function of the bytes alone, 32 bytes long.
#[verifier::external_body]
fn sha256(data: &[u8]) -> (d: Vec<u8>)
    ensures
        d@ == sha256_digest(data@),
        d@.len() == 32,
{
    sha2::Sha256::digest(data).to_vec()
}

/// Calls `hex::encode`. Claimed: two lowercase hexadecimal digits per
/// byte, most significant digit first.
#[verifier::external_body]
fn hex_encode(data: &[u8]) -> (s: String)
    ensures
        s@ == hex_lower(data@),
{
    hex::encode(data)
}

/// Cache key of a photo's thumbnail: lowercase hexadecimal SHA-256 of the
/// path's UTF-8 bytes followed by the size as eight little-endian bytes.
pub open spec fn thumbnail_key(path: Seq<char>, size: u64) -> Seq<char> {
    hex_lower(sha256_digest(vstd::utf8::encode_utf8(path) + spec_u64_to_le_bytes(size)))
}

/// The cache key of the thumbnail of the photo at `path` of `size` bytes.
pub fn thumbnail_key_for(path: &str, size: u64) -> (k: String)
    ensures
        k@ == thumbnail_key(path@, size),
{
    let mut data = path.as_bytes_vec();
    let mut tail = u64_to_le_bytes(size);
    data.append(&mut tail);
    let d = sha256(data.as_slice());
    hex_encode(d.as_slice())
}

/// Where the thumbnail cached under `cache_key` is stored in the thumbnail
/// cache directory: `<cache_dir>/<cache_key>.webp`.
pub fn thumbnail_path(cache_dir: &str, cache_key: &str) -> (p: String)
    ensures
        p@ == crate::paths::path_join(cache_dir@, cache_key@ + ".webp"@),
{
    let mut file = String::from_str(cache_key);
    file.append(".webp");
    crate::paths::join_chars(cache_dir, file.as_str())
}

} // verus!
