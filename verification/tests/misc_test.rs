use scan_engine::config::{resolve_session_config, ScanConfig, ScanPreset};
use scan_engine::error::AppError;
use scan_engine::exif::{exif_data_from_fields, get_datetime, get_string, get_u32, ExifFields, ExifValue};
use scan_engine::hash::{content_hash, hash_to_u64};
use scan_engine::paths::{app_data_dir, database_path, thumbnail_cache_dir};
use scan_engine::review::{companion_raw_bytes, nonneg, trash_targets, ReviewMember};
use scan_engine::scan::{is_unchanged, processed_snapshot, ScanCursor};
use scan_engine::session::{new_session_id, prepare_session};
use scan_engine::text::i64_text;
use scan_engine::thumbnail::{thumbnail_key_for, thumbnail_size};
use scan_engine::types::{
    kind_to_str, phase_to_str, review_status_to_str, status_to_str, str_to_kind, str_to_phase,
    str_to_review_status, str_to_status, DuplicateKind, ReviewStatus, ScanPhase, SessionStatus,
    TrashResult,
};

#[test]
fn presets_give_their_configurations() {
    let d = ScanConfig::default();
    assert_eq!(d.phash_threshold, 6);
    assert_eq!(d.burst_window_secs, 2);
    assert!(!d.include_raw);
    let e = ScanPreset::ExactOnly.to_config();
    assert!(e.exact_hash && !e.visual_similar && !e.burst_detection && !e.filename_ranking);
    assert_eq!(e.phash_threshold, 6);
    assert_eq!(ScanPreset::BurstTimeWindow.to_config().burst_window_secs, 3);
    assert_eq!(ScanPreset::VisualSimilar.to_config(), d);
    assert_eq!(ScanPreset::Custom.to_config(), d);
    assert_eq!(ScanPreset::default(), ScanPreset::VisualSimilar);
}

#[test]
fn session_config_takes_custom_or_only_raw_flag() {
    let custom = ScanConfig { phash_threshold: 9, include_raw: true, ..ScanConfig::default() };
    let c = resolve_session_config(ScanPreset::Custom, Some(custom.clone()));
    assert_eq!(c, custom);
    let e = resolve_session_config(ScanPreset::ExactOnly, Some(custom));
    assert!(e.include_raw);
    assert_eq!(e.phash_threshold, 6);
    assert!(!e.visual_similar);
    assert_eq!(resolve_session_config(ScanPreset::ExactOnly, None), ScanPreset::ExactOnly.to_config());
}

#[test]
fn states_round_trip_through_text() {
    for s in [SessionStatus::Scanning, SessionStatus::Reviewing, SessionStatus::Paused, SessionStatus::Completed] {
        assert_eq!(str_to_status(status_to_str(s)), s);
    }
    for p in [ScanPhase::Walking, ScanPhase::Hashing, ScanPhase::Clustering, ScanPhase::Complete] {
        assert_eq!(str_to_phase(phase_to_str(p)), p);
    }
    for k in [DuplicateKind::Exact, DuplicateKind::Visual, DuplicateKind::Burst, DuplicateKind::Metadata] {
        assert_eq!(str_to_kind(kind_to_str(k)), k);
    }
    for r in [ReviewStatus::Pending, ReviewStatus::Resolved] {
        assert_eq!(str_to_review_status(review_status_to_str(r)), r);
    }
    assert_eq!(status_to_str(SessionStatus::Paused), "paused");
    assert_eq!(str_to_status("bogus"), SessionStatus::Scanning);
    assert_eq!(str_to_phase("bogus"), ScanPhase::Walking);
    assert_eq!(str_to_kind("bogus"), DuplicateKind::Exact);
    assert_eq!(str_to_review_status("Resolved"), ReviewStatus::Pending);
}

#[test]
fn error_messages() {
    assert_eq!(AppError::Database("x".into()).message(), "database error: x");
    assert_eq!(AppError::Io("disk".into()).message(), "io error: disk");
    assert_eq!(AppError::SessionNotFound("s1".into()).message(), "session not found: s1");
    assert_eq!(AppError::GroupNotFound(-42).message(), "group not found: -42");
    assert_eq!(AppError::GroupNotFound(i64::MIN).message(), format!("group not found: {}", i64::MIN));
    assert_eq!(AppError::Scan("s".into()).message(), "scan error: s");
    assert_eq!(AppError::Image("i".into()).message(), "image error: i");
    assert_eq!(AppError::Config("c".into()).message(), "invalid configuration: c");
    assert_eq!(AppError::Other("o".into()).message(), "o");
    assert_eq!(i64_text(1234567890), "1234567890");
    assert_eq!(i64_text(0), "0");
}

#[test]
fn content_hash_is_blake3_hex() {
    assert_eq!(
        content_hash(b""),
        "af1349b9f5f9a1a6a0404dea36dcc9499bcb25c9adc112b7cc9a93cae41f3262"
    );
    assert_ne!(content_hash(b"a"), content_hash(b""));
}

#[test]
fn hash_bytes_fold_little_endian() {
    assert_eq!(hash_to_u64(&[1, 2]), 0x0201);
    assert_eq!(hash_to_u64(&[1, 2, 3, 4, 5, 6, 7, 8, 9]), 0x0807060504030201);
    assert_eq!(hash_to_u64(&[]), 0);
    assert_eq!(hash_to_u64(&[255; 8]), u64::MAX);
}

#[test]
fn thumbnail_key_is_sha256_of_path_and_size() {
    let k = thumbnail_key_for("/tmp/a.jpg", 100);
    assert_eq!(k.len(), 64);
    assert!(k.chars().all(|c| c.is_ascii_hexdigit() && !c.is_ascii_uppercase()));
    assert_ne!(k, thumbnail_key_for("/tmp/a.jpg", 101));
    assert_eq!(k, thumbnail_key_for("/tmp/a.jpg", 100));
}

#[test]
fn thumbnail_sizes_keep_aspect() {
    assert_eq!(thumbnail_size(1000, 500), (256, 128));
    assert_eq!(thumbnail_size(500, 1000), (128, 256));
    assert_eq!(thumbnail_size(512, 1), (256, 1));
    assert_eq!(thumbnail_size(1, 512), (1, 256));
    assert_eq!(thumbnail_size(0, 0), (256, 1));
    assert_eq!(thumbnail_size(3, 2), (256, 171));
    assert_eq!(thumbnail_size(1024, 2), (256, 1));
}

#[test]
fn data_paths() {
    assert_eq!(app_data_dir(Some("/home/u/.local/share")), "/home/u/.local/share/photo-duplicate-finder");
    assert_eq!(app_data_dir(Some("/data/")), "/data/photo-duplicate-finder");
    assert_eq!(app_data_dir(None), "./photo-duplicate-finder");
    assert_eq!(database_path("/x"), "/x/index.db");
    assert_eq!(thumbnail_cache_dir("/x"), "/x/thumbs");
}

#[test]
fn session_ids_are_uuid_v4() {
    let id = new_session_id();
    assert_eq!(id.len(), 36);
    assert_eq!(&id[14..15], "4");
    assert_ne!(id, new_session_id());
}

#[test]
fn session_names_default_to_folder_or_scan() {
    let s = prepare_session("/photos/Trip", None, ScanPreset::VisualSimilar, None);
    assert_eq!(s.name, "Trip");
    assert_eq!(s.id.len(), 36);
    assert_eq!(prepare_session("/", None, ScanPreset::ExactOnly, None).name, "Scan");
    let n = prepare_session("/photos/Trip", Some("Mine"), ScanPreset::ExactOnly, None);
    assert_eq!(n.name, "Mine");
    assert_eq!(n.config, ScanPreset::ExactOnly.to_config());
}

fn member(id: i64, keep: Option<bool>, size: u64) -> ReviewMember {
    ReviewMember {
        file_id: id,
        path: format!("/p/{id}.jpg"),
        size,
        is_keeper: keep,
        companion_raw_path: None,
        companion_raw_size: None,
    }
}

#[test]
fn trash_needs_a_keeper() {
    let ms = vec![member(1, None, 1), member(2, Some(false), 2)];
    match trash_targets(&ms) {
        Err(AppError::Other(m)) => {
            assert_eq!(m, "Select at least one photo to keep before moving duplicates to Trash")
        },
        _ => panic!("expected refusal"),
    }
    let ms = vec![member(1, None, 1), member(2, Some(true), 2), member(3, Some(false), 3)];
    assert_eq!(trash_targets(&ms).unwrap(), vec![0, 2]);
}

#[test]
fn trash_tally_counts_and_reports() {
    let mut r = TrashResult::empty();
    assert!(!r.resolves_group());
    r.record_trashed(10);
    r.record_trashed(5);
    r.record_error("/p/x.jpg", "denied");
    assert_eq!(r.trashed_count, 2);
    assert_eq!(r.bytes_freed, 15);
    assert_eq!(r.errors, vec!["/p/x.jpg: denied".to_string()]);
    assert!(r.resolves_group());
    let mut m = member(1, None, 1);
    assert_eq!(companion_raw_bytes(&m, Some(7)), 7);
    assert_eq!(companion_raw_bytes(&m, None), 0);
    m.companion_raw_size = Some(3);
    assert_eq!(companion_raw_bytes(&m, Some(7)), 3);
    assert_eq!(nonneg(-5), 0);
    assert_eq!(nonneg(5), 5);
}

#[test]
fn scan_cursor_batches_and_checkpoints() {
    let mut c = ScanCursor::new();
    for i in 0..499 {
        assert!(!c.enqueue(format!("/p/{i}.jpg")));
    }
    assert!(c.enqueue("/p/last.jpg".to_string()));
    let b = c.take_batch();
    assert_eq!(b.len(), 500);
    assert!(c.batch.is_empty());
    assert!(!c.batch_stored(500));
    c.skip_unchanged("/p/u.jpg".to_string());
    assert_eq!(c.files_processed, 501);
    assert_eq!(c.last_path, Some("/p/u.jpg".to_string()));
    assert!(!c.batch_stored(498));
    assert!(c.batch_stored(1));
    c.last_batch_stored(2);
    assert_eq!(c.files_processed, 1002);
    assert_eq!(processed_snapshot(3, 4), 7);
    assert!(is_unchanged(Some((1, 10, 5)), 10, 5));
    assert!(!is_unchanged(Some((1, 10, 5)), 10, 6));
    assert!(!is_unchanged(None, 10, 5));
}

#[test]
fn exif_fields_are_cleaned_and_read() {
    let text = |s: &[u8]| Some(ExifValue::Ascii(vec![s.to_vec()]));
    assert_eq!(get_string(&text(b"  Canon \0\0")), Some("Canon".to_string()));
    assert_eq!(get_string(&text(b"\0 Nikon\t")), Some("Nikon".to_string()));
    assert_eq!(get_string(&Some(ExifValue::Ascii(vec![]))), None);
    assert_eq!(get_string(&Some(ExifValue::Short(vec![1]))), None);
    assert_eq!(get_string(&text(&[0x41, 0xff])), Some("A\u{fffd}".to_string()));
    assert_eq!(get_u32(&Some(ExifValue::Short(vec![200, 3]))), Some(200));
    assert_eq!(get_u32(&Some(ExifValue::Long(vec![70000]))), Some(70000));
    assert_eq!(get_u32(&Some(ExifValue::Long(vec![]))), None);
    assert_eq!(get_u32(&None), None);
    assert_eq!(get_datetime(&text(b"2024:01:02 03:04:05")), Some((1704164645, 0)));
    assert_eq!(get_datetime(&text(b"2016:12:31 23:59:60")), Some((1483228799, 1_000_000_000)));
    assert_eq!(get_datetime(&text(b"not a date")), None);
    let fields = ExifFields {
        make: text(b"Sony"),
        model: text(b"A7"),
        photographic_sensitivity: Some(ExifValue::Short(vec![100])),
        date_time_original: None,
        date_time: text(b"1970:01:01 00:01:00"),
        f_number: Some(ExifValue::Rational(vec![(28, 10)])),
        exposure_time: Some(ExifValue::Short(vec![1])),
        focal_length: None,
    };
    let d = exif_data_from_fields(&fields, Some("f/2.8".into()), None, Some("35mm".into()));
    assert_eq!(d.camera_make, Some("Sony".to_string()));
    assert_eq!(d.camera_model, Some("A7".to_string()));
    assert_eq!(d.iso, Some(100));
    assert_eq!(d.date_taken, Some((60, 0)));
    assert_eq!(d.aperture, Some("f/2.8".to_string()));
}
