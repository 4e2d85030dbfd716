//! Fingerprints of photos: content hashes, perceptual-hash arithmetic, and
//! which files count as images.

use vstd::prelude::*;
use crate::paths::{path_extension_lower, extension_lower};
use crate::text::str_eq;

verus! {

/// Number of one bits of a natural number.
pub open spec fn popcount(x: nat) -> nat
    decreases x,
{
    if x == 0 {
        0
    } else {
        x % 2 + popcount(x / 2)
    }
}

/// `2` to the power `k`.
pub open spec fn two_to(k: nat) -> nat
    decreases k,
{
    if k == 0 {
        1
    } else {
        2 * two_to((k - 1) as nat)
    }
}

/// Hamming distance of two 64-bit hashes: the number of differing bits.
pub open spec fn hamming(a: u64, b: u64) -> nat {
    popcount((a ^ b) as nat)
}

proof fn lemma_popcount_bound(x: nat, k: nat)
    requires
        x < two_to(k),
    ensures
        popcount(x) <= k,
    decreases k,
{
    if x != 0 {
        assert(k > 0);
        lemma_popcount_bound(x / 2, (k - 1) as nat);
    }
}

proof fn lemma_two_to_64()
    ensures
        two_to(64) == 0x1_0000_0000_0000_0000,
{
    reveal_with_fuel(two_to, 65);
}

/// Number of bits in which the two hashes differ.
pub fn hamming_distance(a: u64, b: u64) -> (d: u32)
    ensures
        d == hamming(a, b),
        d <= 64,
{
    let v: u64 = a ^ b;
    let mut x: u64 = v;
    let mut count: u32 = 0;
    proof {
        lemma_two_to_64();
        lemma_popcount_bound(v as nat, 64);
    }
    while x != 0
        invariant
            count + popcount(x as nat) == popcount(v as nat),
            popcount(v as nat) <= 64,
        decreases x,
    {
        count = count + (x % 2) as u32;
        x = x / 2;
    }
    count
}

/// Hamming distance is symmetric.
pub proof fn lemma_hamming_symmetric(a: u64, b: u64)
    ensures
        hamming(a, b) == hamming(b, a),
{
    assert(a ^ b == b ^ a) by (bit_vector);
}

/// A hash is at distance zero from itself.
pub proof fn lemma_hamming_self(a: u64)
    ensures
        hamming(a, a) == 0,
{
    assert(a ^ a == 0) by (bit_vector);
}

/// A number with no one bits is zero.
proof fn lemma_popcount_zero(x: nat)
    ensures
        popcount(x) == 0 <==> x == 0,
    decreases x,
{
    if x != 0 {
        lemma_popcount_zero(x / 2);
    }
}

/// The one bits of `x ^ y` are at most those of `x` and of `y` together.
proof fn lemma_popcount_xor(x: u64, y: u64)
    ensures
        popcount((x ^ y) as nat) <= popcount(x as nat) + popcount(y as nat),
    decreases x as nat + y as nat,
{
    if x != 0 || y != 0 {
        let z: u64 = x ^ y;
        assert((x ^ y) / 2 == (x / 2) ^ (y / 2)) by (bit_vector);
        assert((x ^ y) % 2 <= x % 2 + y % 2) by (bit_vector);
        lemma_popcount_xor(x / 2, y / 2);
        assert(popcount(z as nat) == z % 2 + popcount((z / 2) as nat));
        assert(popcount(x as nat) == x % 2 + popcount((x / 2) as nat));
        assert(popcount(y as nat) == y % 2 + popcount((y / 2) as nat));
    } else {
        assert(x ^ y == 0) by (bit_vector)
            requires
                x == 0 && y == 0,
        ;
    }
}

/// Two hashes are at distance zero exactly when they are equal.
pub proof fn lemma_hamming_zero_iff_equal(a: u64, b: u64)
    ensures
        hamming(a, b) == 0 <==> a == b,
{
    lemma_popcount_zero((a ^ b) as nat);
    assert((a ^ b) == 0 <==> a == b) by (bit_vector);
}

/// Hamming distance obeys the triangle inequality.
pub proof fn lemma_hamming_triangle(a: u64, b: u64, c: u64)
    ensures
        hamming(a, c) <= hamming(a, b) + hamming(b, c),
{
    assert(a ^ c == (a ^ b) ^ (b ^ c)) by (bit_vector);
    lemma_popcount_xor(a ^ b, b ^ c);
}

/// Little-endian value of a byte sequence.
pub open spec fn le_value(s: Seq<u8>) -> nat
    decreases s.len(),
{
    if s.len() == 0 {
        0
    } else {
        (s[0] as nat) + 256 * le_value(s.drop_first())
    }
}

/// `256` to the power `n`.
pub open spec fn byte_pow(n: nat) -> nat
    decreases n,
{
    if n == 0 {
        1
    } else {
        256 * byte_pow((n - 1) as nat)
    }
}

/// The 64-bit number whose little-endian bytes are the first eight bytes of
/// a hash (fewer when the hash is shorter).
pub open spec fn hash_word(bytes: Seq<u8>) -> nat {
    le_value(bytes.take(if bytes.len() < 8 { bytes.len() as int } else { 8 }))
}

/// Folds the first eight bytes of a hash, least significant first, into a
/// 64-bit number.
pub fn hash_to_u64(bytes: &[u8]) -> (v: u64)
    ensures
        v as nat == hash_word(bytes@),
{
    let k: usize = if bytes.len() < 8 { bytes.len() } else { 8 };
    let ghost s = bytes@.take(k as int);
    let mut acc: u64 = 0;
    let mut i: usize = k;
    proof {
        reveal_with_fuel(byte_pow, 9);
        assert(s.subrange(k as int, k as int) =~= Seq::<u8>::empty());
    }
    while i > 0
        invariant
            i <= k <= 8,
            k <= bytes@.len(),
            s == bytes@.take(k as int),
            acc as nat == le_value(s.subrange(i as int, k as int)),
            (acc as nat) < byte_pow((k - i) as nat),
            byte_pow(8) == 0x1_0000_0000_0000_0000,
            forall|m: nat| m <= 8 ==> #[trigger] byte_pow(m) <= byte_pow(8),
        decreases i,
    {
        let b = bytes[i - 1];
        proof {
            let t = s.subrange(i - 1, k as int);
            assert(t.drop_first() =~= s.subrange(i as int, k as int));
            assert(t[0] == b);
            assert(byte_pow((k - i + 1) as nat) == 256 * byte_pow((k - i) as nat));
            assert(byte_pow((k - i + 1) as nat) <= byte_pow(8));
        }
        acc = acc * 256 + b as u64;
        i = i - 1;
    }
    assert(s.subrange(0, k as int) =~= s);
    acc
}

/// Lowercase hexadecimal digit of a value below 16.
pub open spec fn hex_digit(n: nat) -> char {
    if n < 10 {
        ((('0' as u32) as nat) + n) as char
    } else {
        ((('a' as u32) as nat) + n - 10) as char
    }
}

/// Lowercase hexadecimal text of a byte sequence, two digits per byte.
pub open spec fn hex_lower(s: Seq<u8>) -> Seq<char>
    decreases s.len(),
{
    if s.len() == 0 {
        Seq::empty()
    } else {
        seq![hex_digit((s[0] / 16) as nat), hex_digit((s[0] % 16) as nat)] + hex_lower(s.drop_first())
    }
}

/// The BLAKE3 digest of a byte sequence.
pub uninterp spec fn blake3_digest(data: Seq<u8>) -> Seq<u8>;

/// Calls `blake3::hash` and `Hash::to_hex`. Claimed: the text is the
/// lowercase hexadecimal form of the BLAKE3 digest of `data`; the digest is
/// 32 bytes (`blake3::OUT_LEN`), so the text has 64 characters.
#[verifier::external_body]
fn blake3_hex(data: &[u8]) -> (h: String)
    ensures
        h@ == hex_lower(blake3_digest(data@)),
        h@.len() == 64,
{
    blake3::hash(data).to_hex().to_string()
}

/// Content hash of a file's bytes: the lowercase hexadecimal BLAKE3 digest.
pub fn content_hash(data: &[u8]) -> (h: String)
    ensures
        h@ == hex_lower(blake3_digest(data@)),
        h@.len() == 64,
{
    blake3_hex(data)
}

/// Extensions of the images a scan looks at.
pub open spec fn supported_exts() -> Seq<Seq<char>> {
    seq!["jpg"@, "jpeg"@, "png"@, "gif"@, "webp"@, "tiff"@, "tif"@, "heic"@, "heif"@]
}

/// A path is an image a scan looks at when its lowercased extension is one
/// of the supported ones.
pub open spec fn is_supported_image_path(p: Seq<char>) -> bool {
    match path_extension_lower(p) {
        Some(e) => supported_exts().contains(e),
        None => false,
    }
}

/// Whether `e` is one of the supported image extensions.
pub(crate) fn is_supported_ext(e: &str) -> (b: bool)
    ensures
        b == supported_exts().contains(e@),
{
    let exts: [&str; 9] = ["jpg", "jpeg", "png", "gif", "webp", "tiff", "tif", "heic", "heif"];
    let mut i: usize = 0;
    while i < 9
        invariant
            i <= 9,
            forall|k: int| 0 <= k < 9 ==> (#[trigger] exts@[k])@ == supported_exts()[k],
            forall|k: int| 0 <= k < i ==> supported_exts()[k] != e@,
        decreases 9 - i,
    {
        if str_eq(exts[i], e) {
            assert(supported_exts()[i as int] == e@);
            return true;
        }
        i = i + 1;
    }
    false
}

/// Whether a path names an image a scan looks at.
pub fn is_supported_image(path: &str) -> (b: bool)
    ensures
        b == is_supported_image_path(path@),
{
    match extension_lower(path) {
        Some(e) => is_supported_ext(e.as_str()),
        None => false,
    }
}

} // verus!
