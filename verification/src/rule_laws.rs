//! What the library's fixed tables and rules say, stated over every input
//! and written out in full: which files count as images, which extensions
//! are camera RAW, which files may be visual duplicates, which capture time
//! a photo gets, and what each scan preset enables.

use vstd::prelude::*;
use crate::cluster::{size_compatible, FileRecord};
use crate::config::{preset_config, session_config, ScanConfig, ScanPreset};
use crate::exif::{exif_from, field_text, field_timestamp, opt_text, ExifFields, ExifValue};
use crate::hash::{is_supported_image_path, supported_exts};
use crate::paths::path_extension_lower;
use crate::raw::{is_standalone_raw, lemma_lower_idempotent, raw_exts};
use crate::text::lower_seq;
use crate::schema::{migration_for, SchemaMigration};
use crate::thumbnail::thumb_size;
use crate::types::ExifData;

verus! {

/// A lowercase extension is a supported image extension exactly when it is
/// one of jpg, jpeg, png, gif, webp, tiff, tif, heic and heif.
pub proof fn lemma_supported_extensions(e: Seq<char>)
    ensures
        supported_exts().contains(e) <==> 
            (e == "jpg"@
                || e == "jpeg"@
                || e == "png"@
                || e == "gif"@
                || e == "webp"@
                || e == "tiff"@
                || e == "tif"@
                || e == "heic"@
                || e == "heif"@),
{
    if supported_exts().contains(e) {
        let k = choose|k: int| 0 <= k < supported_exts().len() && supported_exts()[k] == e;
        assert(0 <= k < 9);
    } else {
        if e == "jpg"@ {
            assert(supported_exts()[0] == e);
        } else if e == "jpeg"@ {
            assert(supported_exts()[1] == e);
        } else if e == "png"@ {
            assert(supported_exts()[2] == e);
        } else if e == "gif"@ {
            assert(supported_exts()[3] == e);
        } else if e == "webp"@ {
            assert(supported_exts()[4] == e);
        } else if e == "tiff"@ {
            assert(supported_exts()[5] == e);
        } else if e == "tif"@ {
            assert(supported_exts()[6] == e);
        } else if e == "heic"@ {
            assert(supported_exts()[7] == e);
        } else if e == "heif"@ {
            assert(supported_exts()[8] == e);
        }
    }
}

/// A path is a supported image exactly when its lowercased extension is one
/// of jpg, jpeg, png, gif, webp, tiff, tif, heic and heif.
pub proof fn lemma_supported_images(p: Seq<char>)
    ensures
        is_supported_image_path(p) <==> path_extension_lower(p) is Some && {
            let e = path_extension_lower(p)->0;
            (e == "jpg"@
                || e == "jpeg"@
                || e == "png"@
                || e == "gif"@
                || e == "webp"@
                || e == "tiff"@
                || e == "tif"@
                || e == "heic"@
                || e == "heif"@)
        },
{
    if let Some(e) = path_extension_lower(p) {
        lemma_supported_extensions(e);
    }
}

/// A lowercase extension is a camera RAW extension exactly when it is one
/// of 3fr, ari, arw, bay, braw, crw, cr2, cr3, cap, data, dcs, dcr, dng,
/// drf, eip, erf, fff, gpr, iiq, k25, kdc, mdc, mef, mos, mrw, nef, nrw,
/// obm, orf, pef, ptx, pxn, r3d, raf, raw, rwl, rw2, rwz, sr2, srf, srw,
/// tif and x3f.
pub proof fn lemma_raw_extensions(e: Seq<char>)
    ensures
        raw_exts().len() == 43,
        raw_exts().contains(e) <==> 
            (e == "3fr"@
                || e == "ari"@
                || e == "arw"@
                || e == "bay"@
                || e == "braw"@
                || e == "crw"@
                || e == "cr2"@
                || e == "cr3"@
                || e == "cap"@
                || e == "data"@
                || e == "dcs"@
                || e == "dcr"@
                || e == "dng"@
                || e == "drf"@
                || e == "eip"@
                || e == "erf"@
                || e == "fff"@
                || e == "gpr"@
                || e == "iiq"@
                || e == "k25"@
                || e == "kdc"@
                || e == "mdc"@
                || e == "mef"@
                || e == "mos"@
                || e == "mrw"@
                || e == "nef"@
                || e == "nrw"@
                || e == "obm"@
                || e == "orf"@
                || e == "pef"@
                || e == "ptx"@
                || e == "pxn"@
                || e == "r3d"@
                || e == "raf"@
                || e == "raw"@
                || e == "rwl"@
                || e == "rw2"@
                || e == "rwz"@
                || e == "sr2"@
                || e == "srf"@
                || e == "srw"@
                || e == "tif"@
                || e == "x3f"@),
{
    if raw_exts().contains(e) {
        let k = choose|k: int| 0 <= k < raw_exts().len() && raw_exts()[k] == e;
        assert(0 <= k < 43);
    } else {
        if e == "3fr"@ {
            assert(raw_exts()[0] == e);
        } else if e == "ari"@ {
            assert(raw_exts()[1] == e);
        } else if e == "arw"@ {
            assert(raw_exts()[2] == e);
        } else if e == "bay"@ {
            assert(raw_exts()[3] == e);
        } else if e == "braw"@ {
            assert(raw_exts()[4] == e);
        } else if e == "crw"@ {
            assert(raw_exts()[5] == e);
        } else if e == "cr2"@ {
            assert(raw_exts()[6] == e);
        } else if e == "cr3"@ {
            assert(raw_exts()[7] == e);
        } else if e == "cap"@ {
            assert(raw_exts()[8] == e);
        } else if e == "data"@ {
            assert(raw_exts()[9] == e);
        } else if e == "dcs"@ {
            assert(raw_exts()[10] == e);
        } else if e == "dcr"@ {
            assert(raw_exts()[11] == e);
        } else if e == "dng"@ {
            assert(raw_exts()[12] == e);
        } else if e == "drf"@ {
            assert(raw_exts()[13] == e);
        } else if e == "eip"@ {
            assert(raw_exts()[14] == e);
        } else if e == "erf"@ {
            assert(raw_exts()[15] == e);
        } else if e == "fff"@ {
            assert(raw_exts()[16] == e);
        } else if e == "gpr"@ {
            assert(raw_exts()[17] == e);
        } else if e == "iiq"@ {
            assert(raw_exts()[18] == e);
        } else if e == "k25"@ {
            assert(raw_exts()[19] == e);
        } else if e == "kdc"@ {
            assert(raw_exts()[20] == e);
        } else if e == "mdc"@ {
            assert(raw_exts()[21] == e);
        } else if e == "mef"@ {
            assert(raw_exts()[22] == e);
        } else if e == "mos"@ {
            assert(raw_exts()[23] == e);
        } else if e == "mrw"@ {
            assert(raw_exts()[24] == e);
        } else if e == "nef"@ {
            assert(raw_exts()[25] == e);
        } else if e == "nrw"@ {
            assert(raw_exts()[26] == e);
        } else if e == "obm"@ {
            assert(raw_exts()[27] == e);
        } else if e == "orf"@ {
            assert(raw_exts()[28] == e);
        } else if e == "pef"@ {
            assert(raw_exts()[29] == e);
        } else if e == "ptx"@ {
            assert(raw_exts()[30] == e);
        } else if e == "pxn"@ {
            assert(raw_exts()[31] == e);
        } else if e == "r3d"@ {
            assert(raw_exts()[32] == e);
        } else if e == "raf"@ {
            assert(raw_exts()[33] == e);
        } else if e == "raw"@ {
            assert(raw_exts()[34] == e);
        } else if e == "rwl"@ {
            assert(raw_exts()[35] == e);
        } else if e == "rw2"@ {
            assert(raw_exts()[36] == e);
        } else if e == "rwz"@ {
            assert(raw_exts()[37] == e);
        } else if e == "sr2"@ {
            assert(raw_exts()[38] == e);
        } else if e == "srf"@ {
            assert(raw_exts()[39] == e);
        } else if e == "srw"@ {
            assert(raw_exts()[40] == e);
        } else if e == "tif"@ {
            assert(raw_exts()[41] == e);
        } else if e == "x3f"@ {
            assert(raw_exts()[42] == e);
        }
    }
}

/// Two files of different sizes are compatible only when both have a known
/// width and height and the widths are equal and the heights are equal;
/// files of equal size always are.
pub proof fn lemma_size_compatibility(a: FileRecord, b: FileRecord)
    ensures
        a.size == b.size ==> size_compatible(a, b),
        a.size != b.size ==> (size_compatible(a, b) <==> (a.width is Some && b.width is Some && a.height is Some
            && b.height is Some && a.width->0 == b.width->0 && a.height->0 == b.height->0)),
        a.size != b.size && a.height != b.height ==> !size_compatible(a, b),
        a.size != b.size && a.width != b.width ==> !size_compatible(a, b),
{
}

/// A photo's capture time is the instant of its original date-time field
/// when that field parses; only when it is absent or does not parse is the
/// date-time field used.
pub proof fn lemma_capture_time_prefers_original(
    f: ExifFields,
    aperture: Option<String>,
    shutter_speed: Option<String>,
    focal_length: Option<String>,
    d: ExifData,
)
    requires
        exif_from(f, aperture, shutter_speed, focal_length, d),
    ensures
        field_timestamp(f.date_time_original) is Some ==> d.date_taken == field_timestamp(f.date_time_original),
        field_timestamp(f.date_time_original) is None ==> d.date_taken == field_timestamp(f.date_time),
        field_timestamp(f.date_time_original) is None && field_timestamp(f.date_time) is None ==> d.date_taken is None,
{
}

/// What each preset enables: exact grouping always; visual, burst
/// detection and filename ranking in every preset but ExactOnly; the
/// default threshold 6 and no RAW pairing in all; a three-second burst
/// window for BurstTimeWindow and two seconds otherwise.
pub proof fn lemma_presets(p: ScanPreset)
    ensures
        preset_config(p).exact_hash,
        preset_config(p).visual_similar == (p != ScanPreset::ExactOnly),
        preset_config(p).burst_detection == (p != ScanPreset::ExactOnly),
        preset_config(p).filename_ranking == (p != ScanPreset::ExactOnly),
        preset_config(p).phash_threshold == 6,
        preset_config(p).burst_window_secs == (if p == ScanPreset::BurstTimeWindow { 3u32 } else { 2u32 }),
        !preset_config(p).include_raw,
{
}

/// Each metadata value comes from its own field: make from Make, model from
/// Model, ISO from the first 16- or 32-bit value of PhotographicSensitivity,
/// and the exposure values as given.
pub proof fn lemma_metadata_sources(
    f: ExifFields,
    aperture: Option<String>,
    shutter_speed: Option<String>,
    focal_length: Option<String>,
    d: ExifData,
)
    requires
        exif_from(f, aperture, shutter_speed, focal_length, d),
    ensures
        opt_text(d.camera_make) == field_text(f.make),
        opt_text(d.camera_model) == field_text(f.model),
        d.iso == (match f.photographic_sensitivity {
            Some(ExifValue::Short(v)) => if v.len() > 0 { Some(v[0] as u32) } else { None },
            Some(ExifValue::Long(v)) => if v.len() > 0 { Some(v[0]) } else { None },
            _ => None,
        }),
        d.aperture == aperture,
        d.shutter_speed == shutter_speed,
        d.focal_length == focal_length,
{
}

/// A path is a standalone RAW file, never scanned on its own, exactly when
/// its lowercased extension is a RAW extension other than `tif`.
pub proof fn lemma_standalone_raw(p: Seq<char>)
    ensures
        is_standalone_raw(p) <==> path_extension_lower(p) is Some && {
            let e = path_extension_lower(p)->0;
            raw_exts().contains(e) && e != "tif"@
        },
{
    if let Some(e) = path_extension_lower(p) {
        let orig = crate::paths::path_extension(p)->0;
        assert(e == lower_seq(orig));
        lemma_lower_idempotent(orig);
        lemma_raw_extensions(e);
        if e == "tiff"@ {
            reveal_strlit("tiff");
            reveal_strlit("3fr");
            reveal_strlit("ari");
            reveal_strlit("arw");
            reveal_strlit("bay");
            reveal_strlit("braw");
            reveal_strlit("crw");
            reveal_strlit("cr2");
            reveal_strlit("cr3");
            reveal_strlit("cap");
            reveal_strlit("data");
            reveal_strlit("dcs");
            reveal_strlit("dcr");
            reveal_strlit("dng");
            reveal_strlit("drf");
            reveal_strlit("eip");
            reveal_strlit("erf");
            reveal_strlit("fff");
            reveal_strlit("gpr");
            reveal_strlit("iiq");
            reveal_strlit("k25");
            reveal_strlit("kdc");
            reveal_strlit("mdc");
            reveal_strlit("mef");
            reveal_strlit("mos");
            reveal_strlit("mrw");
            reveal_strlit("nef");
            reveal_strlit("nrw");
            reveal_strlit("obm");
            reveal_strlit("orf");
            reveal_strlit("pef");
            reveal_strlit("ptx");
            reveal_strlit("pxn");
            reveal_strlit("r3d");
            reveal_strlit("raf");
            reveal_strlit("raw");
            reveal_strlit("rwl");
            reveal_strlit("rw2");
            reveal_strlit("rwz");
            reveal_strlit("sr2");
            reveal_strlit("srf");
            reveal_strlit("srw");
            reveal_strlit("tif");
            reveal_strlit("x3f");
            assert(e.len() == 4);
            assert(e[0] != "braw"@[0]);
            assert(e[0] != "data"@[0]);
            assert(!raw_exts().contains(e));
        }
    }
}

/// A new session's configuration: the preset's, unless a custom
/// configuration is given; with the Custom preset it is taken whole, with
/// any other preset only its RAW pairing choice is taken.
pub proof fn lemma_session_configuration(p: ScanPreset, custom: Option<ScanConfig>)
    ensures
        custom is None ==> session_config(p, custom) == preset_config(p),
        custom is Some && p == ScanPreset::Custom ==> session_config(p, custom) == custom->0,
        custom is Some ==> session_config(p, custom).include_raw == custom->0.include_raw,
        custom is Some && p != ScanPreset::Custom ==> {
            let c = session_config(p, custom);
            let q = preset_config(p);
            &&& c.exact_hash == q.exact_hash
            &&& c.visual_similar == q.visual_similar
            &&& c.burst_detection == q.burst_detection
            &&& c.filename_ranking == q.filename_ranking
            &&& c.phash_threshold == q.phash_threshold
            &&& c.burst_window_secs == q.burst_window_secs
        },
{
}

/// A thumbnail's longer edge is 256 pixels, and its shorter edge is the
/// image's aspect ratio scaled to 256 and rounded to the nearest pixel (at
/// least one): twice the shorter-over-longer ratio times 256 is within one
/// pixel-width of twice the edge, the edge being raised to one pixel when
/// it would round to none.
pub proof fn lemma_thumbnail_shape(w: u32, h: u32)
    requires
        w > 0,
        h > 0,
    ensures
        w >= h ==> thumb_size(w, h).0 == 256 && 1 <= thumb_size(w, h).1 <= 256
            && 512 * h - w < 2 * w * thumb_size(w, h).1
            && (thumb_size(w, h).1 == 1 || 2 * w * thumb_size(w, h).1 <= 512 * h + w),
        w < h ==> thumb_size(w, h).1 == 256 && 1 <= thumb_size(w, h).0 <= 256
            && 512 * w - h < 2 * h * thumb_size(w, h).0
            && (thumb_size(w, h).0 == 1 || 2 * h * thumb_size(w, h).0 <= 512 * w + h),
{
    if w >= h {
        let n = ((512 * h + w) / (2 * w)) as int;
        assert(2 * w * n <= 512 * h + w < 2 * w * n + 2 * w) by (nonlinear_arith)
            requires
                w > 0,
                n == (512 * h + w) / (2 * w),
        ;
        assert(n <= 256) by (nonlinear_arith)
            requires
                w > 0,
                h <= w,
                n == (512 * h + w) / (2 * w),
        ;
        let t = thumb_size(w, h).1 as int;
        assert(crate::thumbnail::scaled_edge(h as nat, w as nat) == n);
        if n >= 1 {
            assert(t == n);
            assert(2 * w * t == 2 * w * n);
        } else {
            assert(n == 0);
            assert(t == 1);
            assert(2 * w * n == 0) by (nonlinear_arith) requires n == 0;
            assert(2 * w * t == 2 * w);
        }
    } else {
        let n = ((512 * w + h) / (2 * h)) as int;
        assert(2 * h * n <= 512 * w + h < 2 * h * n + 2 * h) by (nonlinear_arith)
            requires
                h > 0,
                n == (512 * w + h) / (2 * h),
        ;
        assert(n <= 256) by (nonlinear_arith)
            requires
                h > 0,
                w < h,
                n == (512 * w + h) / (2 * h),
        ;
        let t = thumb_size(w, h).0 as int;
        assert(crate::thumbnail::scaled_edge(w as nat, h as nat) == n);
        if n >= 1 {
            assert(t == n);
            assert(2 * h * t == 2 * h * n);
        } else {
            assert(n == 0);
            assert(t == 1);
            assert(2 * h * n == 0) by (nonlinear_arith) requires n == 0;
            assert(2 * h * t == 2 * h);
        }
    }
}

/// Opening an index: with no version recorded, or version 0, the current
/// version is recorded; an older version, 1 or a negative one, gets the
/// RAW companion columns; version 2 or later is left as it is.
pub proof fn lemma_schema_migrations(found: Option<i32>)
    ensures
        (found is None || found == Some(0i32)) ==> migration_for(found) == SchemaMigration::RecordVersion,
        (found matches Some(v) && v != 0 && v < 2) ==> migration_for(found) == SchemaMigration::AddCompanionRawColumns,
        (found matches Some(v) && v >= 2) ==> migration_for(found) == SchemaMigration::UpToDate,
{
}

} // verus!
