//! Reading camera metadata fields: text fields, integer fields and capture
//! times, from the raw values stored in a photo's EXIF block.

use vstd::prelude::*;
use vstd::utf8::{decode_utf8, valid_utf8};
use exif::{In, Reader, Tag, Value};
use std::io::Cursor;
use crate::text::{chars_of, string_of};
use crate::types::ExifData;

verus! {

/// A raw EXIF field value, for the value types the metadata reader uses.
#[derive(Clone, Debug)]
pub enum ExifValue {
    /// Text values (bytes without their trailing NUL).
    Ascii(Vec<Vec<u8>>),
    Short(Vec<u16>),
    Long(Vec<u32>),
    /// Unsigned rationals, as numerator and denominator.
    Rational(Vec<(u32, u32)>),
    /// Any other value type.
    Other,
}

/// The raw values of the fields a photo's metadata is read from, each absent
/// when the photo's primary image has no such field.
#[derive(Clone, Debug)]
pub struct ExifFields {
    pub make: Option<ExifValue>,
    pub model: Option<ExifValue>,
    pub photographic_sensitivity: Option<ExifValue>,
    pub date_time_original: Option<ExifValue>,
    pub date_time: Option<ExifValue>,
    pub f_number: Option<ExifValue>,
    pub exposure_time: Option<ExifValue>,
    pub focal_length: Option<ExifValue>,
}

/// Characters with the Unicode `White_Space` property, which `str::trim`
/// removes.
pub open spec fn is_white_space(c: char) -> bool {
    ||| ('\u{9}' <= c && c <= '\u{d}')
    ||| c == ' '
    ||| c == '\u{85}'
    ||| c == '\u{a0}'
    ||| c == '\u{1680}'
    ||| ('\u{2000}' <= c && c <= '\u{200a}')
    ||| c == '\u{2028}'
    ||| c == '\u{2029}'
    ||| c == '\u{202f}'
    ||| c == '\u{205f}'
    ||| c == '\u{3000}'
}

/// The characters trimmed from metadata text: white space when `ws`, NUL
/// otherwise.
pub open spec fn trimmed(ws: bool, c: char) -> bool {
    if ws {
        is_white_space(c)
    } else {
        c == '\0'
    }
}

/// `s` without the leading trimmed characters.
pub open spec fn trim_start_by(s: Seq<char>, p: bool) -> Seq<char>
    decreases s.len(),
{
    if s.len() > 0 && trimmed(p, s[0]) {
        trim_start_by(s.drop_first(), p)
    } else {
        s
    }
}

/// `s` without the trailing trimmed characters.
pub open spec fn trim_end_by(s: Seq<char>, p: bool) -> Seq<char>
    decreases s.len(),
{
    if s.len() > 0 && trimmed(p, s.last()) {
        trim_end_by(s.drop_last(), p)
    } else {
        s
    }
}

/// `s` without leading and trailing trimmed characters.
pub open spec fn trim_by(s: Seq<char>, p: bool) -> Seq<char> {
    trim_end_by(trim_start_by(s, p), p)
}

/// Metadata text as it is kept: without surrounding NUL characters, then
/// without surrounding white space.
pub open spec fn clean_text(s: Seq<char>) -> Seq<char> {
    trim_by(trim_by(s, false), true)
}

/// Text of bytes decoded as UTF-8, each invalid sequence replaced by
/// U+FFFD.
pub uninterp spec fn utf8_lossy(bytes: Seq<u8>) -> Seq<char>;

/// Calls `String::from_utf8_lossy`. Claimed: the result is a function of
/// the bytes alone, and for valid UTF-8 it is the decoded text.
#[verifier::external_body]
fn decode_lossy(bytes: &[u8]) -> (s: String)
    ensures
        s@ == utf8_lossy(bytes@),
        valid_utf8(bytes@) ==> s@ == decode_utf8(bytes@),
{
    String::from_utf8_lossy(bytes).into_owned()
}

/// Bounds of `v[a..b]` after removing leading and trailing `p` characters.
fn trim_bounds_nul(v: &Vec<char>) -> (r: (usize, usize))
    ensures
        r.0 <= r.1 <= v@.len(),
        v@.subrange(r.0 as int, r.1 as int) == trim_by(v@, false),
{
        let mut a: usize = 0;
    assert(v@.subrange(0, v@.len() as int) =~= v@);
    while a < v.len() && v[a] == '\0'
        invariant
            a <= v@.len(),
            trim_start_by(v@, false) == trim_start_by(v@.subrange(a as int, v@.len() as int), false),
        decreases v@.len() - a,
    {
        assert(v@.subrange(a as int, v@.len() as int).drop_first() =~= v@.subrange(a + 1, v@.len() as int));
        assert(v@.subrange(a as int, v@.len() as int)[0] == v@[a as int]);
        assert(trimmed(false, v@[a as int]));
        a = a + 1;
    }
    let mut b: usize = v.len();
    assert(trim_start_by(v@, false) == v@.subrange(a as int, b as int));
    while b > a && v[b - 1] == '\0'
        invariant
            a <= b <= v@.len(),
            trim_by(v@, false) == trim_end_by(v@.subrange(a as int, b as int), false),
        decreases b,
    {
        assert(v@.subrange(a as int, b as int).drop_last() =~= v@.subrange(a as int, b - 1));
        assert(v@.subrange(a as int, b as int).last() == v@[b - 1]);
        assert(trimmed(false, v@[b - 1]));
        b = b - 1;
    }
    (a, b)
}

/// Whether `c` has the Unicode `White_Space` property.
fn white_space(c: char) -> (b: bool)
    ensures
        b == is_white_space(c),
{
    ('\u{9}' <= c && c <= '\u{d}') || c == ' ' || c == '\u{85}' || c == '\u{a0}' || c == '\u{1680}'
        || ('\u{2000}' <= c && c <= '\u{200a}') || c == '\u{2028}' || c == '\u{2029}' || c == '\u{202f}'
        || c == '\u{205f}' || c == '\u{3000}'
}

/// Bounds of `v` after removing leading and trailing white space.
fn trim_bounds_ws(v: &Vec<char>) -> (r: (usize, usize))
    ensures
        r.0 <= r.1 <= v@.len(),
        v@.subrange(r.0 as int, r.1 as int) == trim_by(v@, true),
{
        let mut a: usize = 0;
    assert(v@.subrange(0, v@.len() as int) =~= v@);
    while a < v.len() && white_space(v[a])
        invariant
            a <= v@.len(),
            trim_start_by(v@, true) == trim_start_by(v@.subrange(a as int, v@.len() as int), true),
        decreases v@.len() - a,
    {
        assert(v@.subrange(a as int, v@.len() as int).drop_first() =~= v@.subrange(a + 1, v@.len() as int));
        assert(v@.subrange(a as int, v@.len() as int)[0] == v@[a as int]);
        assert(trimmed(true, v@[a as int]));
        a = a + 1;
    }
    let mut b: usize = v.len();
    assert(trim_start_by(v@, true) == v@.subrange(a as int, b as int));
    while b > a && white_space(v[b - 1])
        invariant
            a <= b <= v@.len(),
            trim_by(v@, true) == trim_end_by(v@.subrange(a as int, b as int), true),
        decreases b,
    {
        assert(v@.subrange(a as int, b as int).drop_last() =~= v@.subrange(a as int, b - 1));
        assert(v@.subrange(a as int, b as int).last() == v@[b - 1]);
        assert(trimmed(true, v@[b - 1]));
        b = b - 1;
    }
    (a, b)
}

/// The characters `v[a..b]`.
fn slice_chars(v: &Vec<char>, a: usize, b: usize) -> (r: Vec<char>)
    requires
        a <= b <= v@.len(),
    ensures
        r@ == v@.subrange(a as int, b as int),
{
    let mut r: Vec<char> = Vec::new();
    let mut k = a;
    while k < b
        invariant
            a <= k <= b <= v@.len(),
            r@ == v@.subrange(a as int, k as int),
        decreases b - k,
    {
        r.push(v[k]);
        assert(r@ =~= v@.subrange(a as int, k + 1));
        k = k + 1;
    }
    r
}

/// The text of a metadata field: its first text value, decoded, without
/// surrounding NULs and white space.
pub open spec fn field_text(f: Option<ExifValue>) -> Option<Seq<char>> {
    match f {
        Some(ExifValue::Ascii(vs)) => if vs.len() > 0 {
            Some(clean_text(utf8_lossy(vs[0]@)))
        } else {
            None
        },
        _ => None,
    }
}

/// The text of a metadata field.
pub fn get_string(field: &Option<ExifValue>) -> (r: Option<String>)
    ensures
        match r {
            Some(s) => field_text(*field) == Some(s@),
            None => field_text(*field) is None,
        },
{
    match field {
        Some(ExifValue::Ascii(vs)) => {
            if vs.len() == 0 {
                return None;
            }
            let raw = decode_lossy(vs[0].as_slice());
            let v = chars_of(raw.as_str());
            let (a, b) = trim_bounds_nul(&v);
            let inner = slice_chars(&v, a, b);
            let (c, d) = trim_bounds_ws(&inner);
            let out = slice_chars(&inner, c, d);
            Some(string_of(&out))
        },
        _ => None,
    }
}

/// The integer of a metadata field: its first 16- or 32-bit value.
pub open spec fn field_u32(f: Option<ExifValue>) -> Option<u32> {
    match f {
        Some(ExifValue::Short(v)) => if v.len() > 0 {
            Some(v[0] as u32)
        } else {
            None
        },
        Some(ExifValue::Long(v)) => if v.len() > 0 {
            Some(v[0])
        } else {
            None
        },
        _ => None,
    }
}

/// The integer of a metadata field.
pub fn get_u32(field: &Option<ExifValue>) -> (r: Option<u32>)
    ensures
        r == field_u32(*field),
{
    match field {
        Some(ExifValue::Short(v)) => if v.len() > 0 {
            Some(v[0] as u32)
        } else {
            None
        },
        Some(ExifValue::Long(v)) => if v.len() > 0 {
            Some(v[0])
        } else {
            None
        },
        _ => None,
    }
}

/// The instant of a date-time text read with a chrono format string, taken
/// as UTC: seconds since the Unix epoch and nanoseconds into the second (a
/// leap second, `:60`, gives `1_000_000_000` or more); absent when the text
/// does not parse.
pub uninterp spec fn exif_timestamp(text: Seq<char>, format: Seq<char>) -> Option<(i64, u32)>;

/// Calls `chrono::NaiveDateTime::parse_from_str` with the given format,
/// then `and_utc()` with `timestamp` and `timestamp_subsec_nanos`. Claimed:
/// the result is a function of the text and the format alone.
#[verifier::external_body]
fn parse_exif_timestamp(text: &str, format: &str) -> (r: Option<(i64, u32)>)
    ensures
        r == exif_timestamp(text@, format@),
{
    let dt = chrono::NaiveDateTime::parse_from_str(text, format).ok()?.and_utc();
    Some((dt.timestamp(), dt.timestamp_subsec_nanos()))
}

/// The layout of EXIF date-time text: `YYYY:MM:DD HH:MM:SS`.
pub open spec fn exif_date_format() -> Seq<char> {
    "%Y:%m:%d %H:%M:%S"@
}

/// The capture time of a date-time field.
pub open spec fn field_timestamp(f: Option<ExifValue>) -> Option<(i64, u32)> {
    match field_text(f) {
        Some(t) => exif_timestamp(t, exif_date_format()),
        None => None,
    }
}

/// The capture time of a date-time field, as seconds since the Unix epoch
/// and nanoseconds into the second.
pub fn get_datetime(field: &Option<ExifValue>) -> (r: Option<(i64, u32)>)
    ensures
        r == field_timestamp(*field),
{
    match get_string(field) {
        Some(raw) => parse_exif_timestamp(raw.as_str(), "%Y:%m:%d %H:%M:%S"),
        None => None,
    }
}

/// Text of an optional string.
pub open spec fn opt_text(s: Option<String>) -> Option<Seq<char>> {
    match s {
        Some(t) => Some(t@),
        None => None,
    }
}

/// Metadata of a photo from its fields; the exposure values, which are
/// rendered from real numbers, are given already formatted.
pub open spec fn exif_from(
    f: ExifFields,
    aperture: Option<String>,
    shutter_speed: Option<String>,
    focal_length: Option<String>,
    d: ExifData,
) -> bool {
    &&& opt_text(d.camera_make) == field_text(f.make)
    &&& opt_text(d.camera_model) == field_text(f.model)
    &&& d.iso == field_u32(f.photographic_sensitivity)
    &&& d.aperture == aperture
    &&& d.shutter_speed == shutter_speed
    &&& d.focal_length == focal_length
    &&& d.date_taken == (match field_timestamp(f.date_time_original) {
        Some(t) => Some(t),
        None => field_timestamp(f.date_time),
    })
}

/// Assembles a photo's metadata: make and model text, ISO, the formatted
/// exposure values, and the capture time (`DateTimeOriginal`) or, failing that, the
/// modification time.
pub fn exif_data_from_fields(
    fields: &ExifFields,
    aperture: Option<String>,
    shutter_speed: Option<String>,
    focal_length: Option<String>,
) -> (d: ExifData)
    ensures
        exif_from(*fields, aperture, shutter_speed, focal_length, d),
{
    let camera_make = get_string(&fields.make);
    let camera_model = get_string(&fields.model);
    let iso = get_u32(&fields.photographic_sensitivity);
    let date_taken = match get_datetime(&fields.date_time_original) {
        Some(t) => Some(t),
        None => get_datetime(&fields.date_time),
    };
    ExifData { camera_make, camera_model, iso, aperture, shutter_speed, focal_length, date_taken }
}

/// The first rational of a metadata field, as numerator and denominator.
pub open spec fn field_rational(f: Option<ExifValue>) -> Option<(u32, u32)> {
    match f {
        Some(ExifValue::Rational(v)) => if v.len() > 0 {
            Some(v[0])
        } else {
            None
        },
        _ => None,
    }
}

/// The first rational of a metadata field.
pub fn get_rational(field: &Option<ExifValue>) -> (r: Option<(u32, u32)>)
    ensures
        r == field_rational(*field),
{
    match field {
        Some(ExifValue::Rational(v)) => if v.len() > 0 {
            Some(v[0])
        } else {
            None
        },
        _ => None,
    }
}

/// The values, in the primary image of a photo's EXIF block read from the
/// photo's bytes, of the tags the metadata uses, in this order: make, model,
/// ISO, original date-time, date-time, f-number, exposure time, focal
/// length; absent when the bytes hold no readable block.
pub uninterp spec fn exif_values_of(data: Seq<u8>) -> Option<Seq<Option<ExifValue>>>;

/// Calls `exif::Reader::read_from_container` on the bytes and
/// `Exif::get_field` in the primary image for Make, Model,
/// PhotographicSensitivity, DateTimeOriginal, DateTime, FNumber,
/// ExposureTime and FocalLength, in that order, converting each value type
/// one for one (rationals to numerator and denominator, value types not
/// used to `Other`). Claimed: the result is a function of the bytes alone,
/// with one entry per tag.
#[verifier::external_body]
fn read_exif_values(data: &[u8]) -> (r: Option<Vec<Option<ExifValue>>>)
    ensures
        match r {
            Some(v) => exif_values_of(data@) == Some(v@) && v@.len() == 8,
            None => exif_values_of(data@) is None,
        },
{
    let exif = Reader::new().read_from_container(&mut Cursor::new(data)).ok()?;
    let tags = [Tag::Make, Tag::Model, Tag::PhotographicSensitivity, Tag::DateTimeOriginal,
        Tag::DateTime, Tag::FNumber, Tag::ExposureTime, Tag::FocalLength];
    Some(tags.map(|t| exif.get_field(t, In::PRIMARY).map(|f| match &f.value {
        Value::Ascii(v) => ExifValue::Ascii(v.clone()),
        Value::Short(v) => ExifValue::Short(v.clone()),
        Value::Long(v) => ExifValue::Long(v.clone()),
        Value::Rational(v) => ExifValue::Rational(v.iter().map(|r| (r.num, r.denom)).collect()),
        _ => ExifValue::Other,
    })).to_vec())
}

/// The fields named by the values of the eight metadata tags, in tag order.
pub open spec fn fields_of_values(s: Seq<Option<ExifValue>>) -> ExifFields {
    ExifFields {
        make: s[0],
        model: s[1],
        photographic_sensitivity: s[2],
        date_time_original: s[3],
        date_time: s[4],
        f_number: s[5],
        exposure_time: s[6],
        focal_length: s[7],
    }
}

/// The metadata fields of a photo's EXIF block, read from its bytes.
pub open spec fn exif_fields_of(data: Seq<u8>) -> Option<ExifFields> {
    match exif_values_of(data) {
        Some(s) => Some(fields_of_values(s)),
        None => None,
    }
}

/// Names the values of the eight metadata tags, given in tag order.
fn fields_from_values(v: Vec<Option<ExifValue>>) -> (f: ExifFields)
    requires
        v@.len() == 8,
    ensures
        f == fields_of_values(v@),
{
    let ghost s = v@;
    let mut v = v;
    let focal_length = v.pop().unwrap();
    let exposure_time = v.pop().unwrap();
    let f_number = v.pop().unwrap();
    let date_time = v.pop().unwrap();
    let date_time_original = v.pop().unwrap();
    let photographic_sensitivity = v.pop().unwrap();
    let model = v.pop().unwrap();
    let make = v.pop().unwrap();
    ExifFields {
        make,
        model,
        photographic_sensitivity,
        date_time_original,
        date_time,
        f_number,
        exposure_time,
        focal_length,
    }
}

/// A photo's metadata fields with the exposure values they hold: f-number,
/// exposure time and focal length, each as numerator and denominator.
pub struct ExifReading {
    pub fields: ExifFields,
    pub f_number: Option<(u32, u32)>,
    pub exposure_time: Option<(u32, u32)>,
    pub focal_length: Option<(u32, u32)>,
}

/// `r` holds the fields `f` and their exposure values.
pub open spec fn reading_of(f: ExifFields, r: ExifReading) -> bool {
    &&& r.fields == f
    &&& r.f_number == field_rational(f.f_number)
    &&& r.exposure_time == field_rational(f.exposure_time)
    &&& r.focal_length == field_rational(f.focal_length)
}

/// Takes the exposure values out of a photo's metadata fields.
pub fn exif_reading(fields: ExifFields) -> (r: ExifReading)
    ensures
        reading_of(fields, r),
{
    let f_number = get_rational(&fields.f_number);
    let exposure_time = get_rational(&fields.exposure_time);
    let focal_length = get_rational(&fields.focal_length);
    ExifReading { fields, f_number, exposure_time, focal_length }
}

/// Reads the metadata fields and exposure values of a photo from its bytes.
pub fn read_exif(data: &[u8]) -> (r: Option<ExifReading>)
    ensures
        match exif_fields_of(data@) {
            Some(f) => r is Some && reading_of(f, r->0),
            None => r is None,
        },
{
    match read_exif_values(data) {
        Some(v) => Some(exif_reading(fields_from_values(v))),
        None => None,
    }
}

} // verus!
