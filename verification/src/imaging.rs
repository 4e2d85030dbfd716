//! What the library makes of a photo's decoded fingerprints and size: the
//! stored pixel size, the two 64-bit perceptual hashes, and the size of its
//! thumbnail. Decoding itself happens outside the library, because the
//! decoders can panic on malformed files; their outcome, a failure carrying
//! its error text, arrives here.

use vstd::prelude::*;
use crate::error::AppError;
use crate::hash::hash_word;
use crate::thumbnail::{thumb_size, thumbnail_size};

verus! {

/// `r` is an image error with text `m`.
pub open spec fn is_image_error(r: AppError, m: Seq<char>) -> bool {
    r matches AppError::Image(t) && t@ == m
}

/// Pixel size as stored with a file, from a header read: both dimensions,
/// or the failure as an image error.
pub fn dimensions_from(read: Result<(u32, u32), String>) -> (r: Result<(Option<u32>, Option<u32>), AppError>)
    ensures
        match read {
            Ok((w, h)) => r == Ok::<(Option<u32>, Option<u32>), AppError>((Some(w), Some(h))),
            Err(m) => r is Err && is_image_error(r->Err_0, m@),
        },
{
    match read {
        Ok((w, h)) => Ok((Some(w), Some(h))),
        Err(m) => Err(AppError::Image(m)),
    }
}

/// Perceptual hashes from the bytes of the gradient hash and of the
/// DCT-median hash: each folded into 64 bits (its first eight bytes read
/// little-endian), or the failure as an image error.
pub fn fold_hashes(read: Result<(Vec<u8>, Vec<u8>), String>) -> (r: Result<(u64, u64), AppError>)
    ensures
        match read {
            Ok((d, p)) => r == Ok::<(u64, u64), AppError>((hash_word(d@) as u64, hash_word(p@) as u64)),
            Err(m) => r is Err && is_image_error(r->Err_0, m@),
        },
{
    match read {
        Ok((d, p)) => {
            let dv = crate::hash::hash_to_u64(d.as_slice());
            let pv = crate::hash::hash_to_u64(p.as_slice());
            Ok((dv, pv))
        },
        Err(m) => Err(AppError::Image(m)),
    }
}

/// The size to scale a decoded image to for its thumbnail: its longer edge
/// becomes 256 pixels and the aspect ratio is kept; a failed decode is an
/// image error.
pub fn thumbnail_target(decoded: Result<(u32, u32), String>) -> (r: Result<(u32, u32), AppError>)
    ensures
        match decoded {
            Ok((w, h)) => r is Ok && (r->Ok_0.0 as nat, r->Ok_0.1 as nat) == thumb_size(w, h),
            Err(m) => r is Err && is_image_error(r->Err_0, m@),
        },
{
    match decoded {
        Ok((w, h)) => Ok(thumbnail_size(w, h)),
        Err(m) => Err(AppError::Image(m)),
    }
}

/// The encoded thumbnail, or the failure to scale or encode it as an
/// image error.
pub fn thumbnail_from(encoded: Result<Vec<u8>, String>) -> (r: Result<Vec<u8>, AppError>)
    ensures
        match encoded {
            Ok(b) => r is Ok && r->Ok_0@ == b@,
            Err(m) => r is Err && is_image_error(r->Err_0, m@),
        },
{
    match encoded {
        Ok(b) => Ok(b),
        Err(m) => Err(AppError::Image(m)),
    }
}

} // verus!
