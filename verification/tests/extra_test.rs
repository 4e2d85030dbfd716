use scan_engine::cluster::{cluster_duplicates, FileRecord};
use scan_engine::config::{ScanConfig, ScanPreset};
use scan_engine::paths::norm_text;
use scan_engine::raw::plan_scan_entries;
use scan_engine::hash::hamming_distance;
use scan_engine::review::{after_companion_trash, after_photo_trash, trash_targets, PhotoTrashed, ReviewMember};
use scan_engine::types::TrashResult;
use scan_engine::unionfind::UnionFind;
use scan_engine::scan::{is_active_session, scan_end, LoopEnd};
use scan_engine::schema::{schema_migration, SchemaMigration, SCHEMA_VERSION};
use scan_engine::session::CreateSessionRequest;
use scan_engine::thumbnail::thumbnail_path;
use scan_engine::timestamps::{instant_or, stored_instant, stored_time_text};
use scan_engine::types::{DuplicateKind, ExifData, ScanPhase, SessionStatus};

fn file(id: i64, size: u64, blake3: Option<&str>, phash: Option<u64>, exif: Option<ExifData>) -> FileRecord {
    FileRecord {
        id,
        path: format!("/p/{id}.jpg"),
        size,
        width: Some(10),
        height: Some(10),
        blake3: blake3.map(|s| s.to_string()),
        dhash: None,
        phash,
        exif,
    }
}

fn shot(t: i64, model: &str) -> Option<ExifData> {
    Some(ExifData {
        camera_make: Some("Sony".to_string()),
        camera_model: Some(model.to_string()),
        iso: None,
        aperture: None,
        shutter_speed: None,
        focal_length: None,
        date_taken: Some((t, 0)),
    })
}

#[test]
fn schema_migration_by_recorded_version() {
    assert_eq!(SCHEMA_VERSION, 2);
    assert_eq!(schema_migration(None), SchemaMigration::RecordVersion);
    assert_eq!(schema_migration(Some(0)), SchemaMigration::RecordVersion);
    assert_eq!(schema_migration(Some(1)), SchemaMigration::AddCompanionRawColumns);
    assert_eq!(schema_migration(Some(-3)), SchemaMigration::AddCompanionRawColumns);
    assert_eq!(schema_migration(Some(2)), SchemaMigration::UpToDate);
    assert_eq!(schema_migration(Some(7)), SchemaMigration::UpToDate);
}

#[test]
fn requests_reach_only_the_running_session() {
    assert!(is_active_session(&Some("s1".to_string()), "s1"));
    assert!(!is_active_session(&Some("s1".to_string()), "s2"));
    assert!(!is_active_session(&None, "s1"));
}

#[test]
fn thumbnails_are_cached_as_webp_by_key() {
    assert_eq!(thumbnail_path("/data/thumbs", "abc"), "/data/thumbs/abc.webp");
    assert_eq!(thumbnail_path("/data/thumbs/", "abc"), "/data/thumbs/abc.webp");
}

#[test]
fn create_request_defaults_to_visual_preset_and_folder_name() {
    let custom = ScanConfig { include_raw: true, phash_threshold: 10, ..ScanConfig::default() };
    let s = CreateSessionRequest {
        root_path: "/photos/Trip".to_string(),
        name: None,
        preset: None,
        config: Some(custom.clone()),
    }
    .prepare();
    assert_eq!(s.name, "Trip");
    assert_eq!(s.id.len(), 36);
    assert!(s.config.include_raw);
    assert_eq!(s.config.phash_threshold, 6);

    let s = CreateSessionRequest {
        root_path: "/photos/Trip".to_string(),
        name: Some("Mine".to_string()),
        preset: Some(ScanPreset::Custom),
        config: Some(custom.clone()),
    }
    .prepare();
    assert_eq!(s.name, "Mine");
    assert_eq!(s.config, custom);
}

#[test]
fn kept_members_are_never_trash_targets() {
    let m = |id: i64, keep: Option<bool>| ReviewMember {
        file_id: id,
        path: format!("/p/{id}.jpg"),
        size: 1,
        is_keeper: keep,
        companion_raw_path: None,
        companion_raw_size: None,
    };
    let members = vec![m(1, Some(false)), m(2, Some(true)), m(3, None), m(4, Some(true))];
    let targets = trash_targets(&members).unwrap();
    assert_eq!(targets, vec![0, 2]);
    for (i, member) in members.iter().enumerate() {
        assert_eq!(targets.contains(&i), member.is_keeper != Some(true));
    }
}

#[test]
fn planned_companions_are_never_hashed_and_share_directory() {
    let all: Vec<String> = vec![
        "/a/IMG_1.jpg".to_string(),
        "/a/img_1.CR2".to_string(),
        "/b/IMG_1.nef".to_string(),
        "/a/notes.txt".to_string(),
        "/a/IMG_2.png".to_string(),
    ];
    let config = ScanConfig { include_raw: true, ..ScanConfig::default() };
    let plan = plan_scan_entries(&all, &config);
    assert_eq!(plan.entries, vec!["/a/IMG_1.jpg".to_string(), "/a/IMG_2.png".to_string()]);
    assert_eq!(plan.companion_raw_by_image.get("/a/IMG_1.jpg"), Some(&"/a/img_1.CR2".to_string()));
    assert_eq!(plan.companion_raw_by_image.get("/a/IMG_2.png"), None);
    assert_eq!(plan.companion_raw_by_image.len(), 1);

    let plan = plan_scan_entries(&all, &ScanConfig::default());
    assert_eq!(plan.entries, vec!["/a/IMG_1.jpg".to_string(), "/a/IMG_2.png".to_string()]);
    assert!(plan.companion_raw_by_image.is_empty());
}

#[test]
fn every_cluster_has_two_files_and_bounded_confidence() {
    let files = vec![
        file(1, 5, Some("h"), Some(0b1), None),
        file(2, 5, Some("h"), Some(0b11), None),
        file(3, 7, None, Some(0b111), None),
        file(4, 7, None, Some(0b1111), None),
        file(5, 9, None, None, shot(100, "A7")),
        file(6, 9, None, None, shot(101, "A7")),
        file(7, 9, None, None, shot(101, "A9")),
    ];
    let config = ScanConfig { phash_threshold: 0, ..ScanConfig::default() };
    let cs = cluster_duplicates(files.clone(), &config);
    assert_eq!(cs.len(), 2);
    assert_eq!(cs[0].kind, DuplicateKind::Exact);
    assert_eq!(cs[1].kind, DuplicateKind::Burst);
    let config = ScanConfig { phash_threshold: 1, ..ScanConfig::default() };
    let cs = cluster_duplicates(files, &config);
    assert_eq!(cs.len(), 3);
    assert_eq!(cs[1].kind, DuplicateKind::Visual);
    assert_eq!(cs[1].file_ids, vec![3, 4]);
    assert_eq!((cs[1].min_distance, cs[1].distance_scale), (1, 1));
    assert_eq!(cs[2].file_ids, vec![5, 6]);
    for c in &cs {
        assert!(c.file_ids.len() >= 2);
        assert!(c.distance_scale >= 1 && c.min_distance <= c.distance_scale);
    }
}

#[test]
fn burst_members_share_camera_and_window() {
    let files = vec![
        file(1, 1, None, None, shot(10, "A7")),
        file(2, 1, None, None, shot(11, "A9")),
        file(3, 1, None, None, shot(12, "A7")),
        file(4, 1, None, None, shot(13, "A7")),
    ];
    let config = ScanConfig {
        exact_hash: false,
        visual_similar: false,
        burst_detection: true,
        burst_window_secs: 2,
        ..ScanConfig::default()
    };
    let cs = cluster_duplicates(files, &config);
    assert_eq!(cs.len(), 1);
    assert_eq!(cs[0].file_ids, vec![1, 3]);
    assert_eq!((cs[0].min_distance, cs[0].distance_scale), (1, 4));
}

#[test]
fn stored_times_read_back_or_fall_back() {
    assert_eq!(instant_or(Some((5, 6)), (1, 2)), (5, 6));
    assert_eq!(instant_or(None, (1, 2)), (1, 2));
    assert_eq!(stored_instant("2024-01-02T03:04:05Z", (0, 0)), (1704164645, 0));
    assert_eq!(stored_instant("2024-01-02T03:04:05.5+01:00", (0, 0)), (1704161045, 500_000_000));
    assert_eq!(stored_instant("not a time", (7, 8)), (7, 8));
}

#[test]
fn no_file_lands_in_two_clusters() {
    let files = vec![
        file(1, 5, Some("h"), Some(0b1), shot(100, "A7")),
        file(2, 5, Some("h"), Some(0b11), shot(100, "A7")),
        file(3, 5, None, Some(0b111), shot(101, "A7")),
        file(4, 5, None, Some(0b1111), shot(101, "A7")),
        file(5, 5, None, Some(0b11111), shot(102, "A7")),
        file(6, 5, None, None, shot(102, "A7")),
    ];
    let config = ScanConfig { phash_threshold: 1, ..ScanConfig::default() };
    let cs = cluster_duplicates(files, &config);
    let mut seen: Vec<i64> = Vec::new();
    for c in &cs {
        for id in &c.file_ids {
            assert!(!seen.contains(id));
            seen.push(*id);
        }
    }
    assert_eq!(cs.len(), 2);
    assert_eq!(cs[0].file_ids, vec![1, 2]);
    assert_eq!(cs[1].file_ids, vec![3, 4, 5]);
}

#[test]
fn hamming_distance_is_a_metric_on_examples() {
    assert_eq!(hamming_distance(0b1111, 0b1110), 1);
    assert_eq!(hamming_distance(7, 7), 0);
    assert!(hamming_distance(7, 8) > 0);
    let (a, b, c) = (0xF0F0u64, 0x0FF0u64, 0xFFFFu64);
    assert!(hamming_distance(a, c) <= hamming_distance(a, b) + hamming_distance(b, c));
    assert_eq!(hamming_distance(0, u64::MAX), 64);
}

#[test]
fn unions_group_the_connected_elements() {
    let mut uf = UnionFind::new(7);
    for (a, b) in [(0, 3), (5, 6), (3, 1), (6, 5)] {
        uf.union(a, b);
    }
    let groups = uf.groups();
    assert_eq!(groups, vec![vec![0, 1, 3], vec![2], vec![4], vec![5, 6]]);
}

#[test]
fn trash_steps_tally_photos_and_companions() {
    let member = ReviewMember {
        file_id: 1,
        path: "/p/a.jpg".to_string(),
        size: 10,
        is_keeper: Some(false),
        companion_raw_path: Some("/p/a.arw".to_string()),
        companion_raw_size: None,
    };
    let mut tally = TrashResult::empty();
    match after_photo_trash(&mut tally, &member, Ok(())) {
        PhotoTrashed::Trashed(c) => assert_eq!(c, Some("/p/a.arw".to_string())),
        PhotoTrashed::Failed => panic!("photo was trashed"),
    }
    after_companion_trash(&mut tally, &member, "/p/a.arw", Ok(()), Some(25));
    assert_eq!((tally.trashed_count, tally.bytes_freed), (2, 35));
    after_companion_trash(&mut tally, &member, "/p/a.arw", Err("busy".to_string()), None);
    assert!(matches!(after_photo_trash(&mut tally, &member, Err("gone".to_string())), PhotoTrashed::Failed));
    assert_eq!((tally.trashed_count, tally.bytes_freed), (2, 35));
    assert_eq!(tally.errors, vec!["/p/a.arw: busy".to_string(), "/p/a.jpg: gone".to_string()]);
}

#[test]
fn directories_compare_by_components() {
    assert_eq!(norm_text("/a/./b//c/"), "/a/b/c");
    assert_eq!(norm_text("./a/."), "./a");
    assert_eq!(norm_text("a/../b"), "a/../b");
    assert_eq!(norm_text("/"), "/");
    assert_eq!(norm_text(""), "");
    let all: Vec<String> = vec!["a/./x.jpg".to_string(), "a/x.ARW".to_string(), "a//y.jpg".to_string()];
    let config = ScanConfig { include_raw: true, ..ScanConfig::default() };
    let plan = plan_scan_entries(&all, &config);
    assert_eq!(plan.entries, vec!["a/./x.jpg".to_string(), "a//y.jpg".to_string()]);
    assert_eq!(plan.companion_raw_by_image.get("a/./x.jpg"), Some(&"a/x.ARW".to_string()));
    let same: Vec<String> = vec!["/p/x.tif".to_string(), "/p/./x.tif".to_string()];
    let plan = plan_scan_entries(&same, &config);
    assert!(plan.companion_raw_by_image.is_empty());
    assert_eq!(plan.entries, same);
}

#[test]
fn scan_ends_pause_or_complete() {
    let e = scan_end(LoopEnd::Cancelled);
    assert_eq!((e.status, e.checkpoint), (SessionStatus::Paused, Some(ScanPhase::Hashing)));
    let e = scan_end(LoopEnd::CancelledWhilePaused);
    assert_eq!((e.status, e.checkpoint), (SessionStatus::Paused, None));
    let e = scan_end(LoopEnd::Finished);
    assert_eq!((e.status, e.checkpoint), (SessionStatus::Reviewing, Some(ScanPhase::Complete)));
}

#[test]
fn stored_times_are_rfc3339_utc() {
    assert_eq!(stored_time_text(1704164645, 0).unwrap(), "2024-01-02T03:04:05+00:00");
    assert_eq!(stored_time_text(0, 500_000_000).unwrap(), "1970-01-01T00:00:00.500+00:00");
    assert!(stored_time_text(i64::MAX, 0).is_none());
}

fn shot_at(t: (i64, u32), model: &str) -> Option<ExifData> {
    Some(ExifData {
        camera_make: Some("Sony".to_string()),
        camera_model: Some(model.to_string()),
        iso: None,
        aperture: None,
        shutter_speed: None,
        focal_length: None,
        date_taken: Some(t),
    })
}

#[test]
fn a_leap_second_counts_as_one_second() {
    let files = vec![
        file(1, 1, None, None, shot_at((1483228799, 0), "A7")),
        file(2, 1, None, None, shot_at((1483228799, 1_000_000_000), "A7")),
    ];
    let burst = |w: u32| ScanConfig {
        exact_hash: false,
        visual_similar: false,
        burst_detection: true,
        burst_window_secs: w,
        ..ScanConfig::default()
    };
    assert_eq!(cluster_duplicates(files.clone(), &burst(1)).len(), 1);
    assert!(cluster_duplicates(files.clone(), &burst(0)).is_empty());
    let reversed = vec![files[1].clone(), files[0].clone()];
    assert_eq!(cluster_duplicates(reversed, &burst(1))[0].file_ids, vec![1, 2]);
}

#[test]
fn other_cameras_inside_a_window_are_skipped() {
    let files = vec![
        file(1, 1, None, None, shot(10, "A7")),
        file(2, 1, None, None, shot(11, "A9")),
        file(3, 1, None, None, shot(12, "A9")),
    ];
    let config = ScanConfig {
        exact_hash: false,
        visual_similar: false,
        burst_detection: true,
        burst_window_secs: 2,
        ..ScanConfig::default()
    };
    assert!(cluster_duplicates(files, &config).is_empty());
}
