use scan_engine::cluster::{cluster_duplicates, FileRecord};
use scan_engine::config::ScanConfig;
use scan_engine::hash::hamming_distance;
use scan_engine::types::{DuplicateKind, ExifData};
use scan_engine::unionfind::UnionFind;

fn record(id: i64, size: u64, blake3: Option<&str>, phash: Option<u64>) -> FileRecord {
    FileRecord {
        id,
        path: format!("/p/{id}.jpg"),
        size,
        width: Some(100),
        height: Some(100),
        blake3: blake3.map(|s| s.to_string()),
        dhash: Some(0),
        phash,
        exif: None,
    }
}

fn dated(id: i64, t: i64, make: &str) -> FileRecord {
    let mut r = record(id, 10 + id as u64, None, None);
    r.exif = Some(ExifData {
        camera_make: Some(make.to_string()),
        camera_model: Some("M".to_string()),
        iso: None,
        aperture: None,
        shutter_speed: None,
        focal_length: None,
        date_taken: Some((t, 0)),
    });
    r
}

fn only(exact: bool, visual: bool, burst: bool, threshold: u8, window: u32) -> ScanConfig {
    ScanConfig {
        exact_hash: exact,
        visual_similar: visual,
        burst_detection: burst,
        filename_ranking: false,
        phash_threshold: threshold,
        burst_window_secs: window,
        include_raw: false,
    }
}

#[test]
fn union_find_merges_transitive_groups() {
    let mut uf = UnionFind::new(4);
    uf.union(0, 1);
    uf.union(1, 2);
    let groups = uf.groups();
    let large = groups.iter().find(|g| g.len() == 3).expect("group of 3");
    assert!(large.contains(&0));
    assert!(large.contains(&2));
}

#[test]
fn hamming_clustering_respects_threshold() {
    let files = vec![
        FileRecord {
            id: 1,
            path: "a.jpg".into(),
            size: 100,
            width: Some(100),
            height: Some(100),
            blake3: None,
            dhash: Some(0),
            phash: Some(0b1111),
            exif: None,
        },
        FileRecord {
            id: 2,
            path: "b.jpg".into(),
            size: 100,
            width: Some(100),
            height: Some(100),
            blake3: None,
            dhash: Some(0),
            phash: Some(0b1110),
            exif: None,
        },
    ];

    let config = ScanConfig {
        exact_hash: false,
        visual_similar: true,
        burst_detection: false,
        filename_ranking: false,
        phash_threshold: 2,
        burst_window_secs: 2,
        include_raw: false,
    };

    let clusters = cluster_duplicates(files, &config);
    assert_eq!(clusters.len(), 1);
    assert_eq!(clusters[0].kind, DuplicateKind::Visual);
}

#[test]
fn union_find_groups_are_ordered_partition() {
    let mut uf = UnionFind::new(6);
    uf.union(4, 1);
    uf.union(5, 3);
    uf.union(3, 1);
    let groups = uf.groups();
    assert_eq!(groups, vec![vec![0], vec![1, 3, 4, 5], vec![2]]);
    assert_eq!(uf.find(5), uf.find(1));
    assert_ne!(uf.find(0), uf.find(2));
}

#[test]
fn union_find_find_is_stable_and_union_idempotent() {
    let mut uf = UnionFind::new(3);
    uf.union(0, 2);
    let r = uf.find(2);
    uf.union(2, 0);
    assert_eq!(uf.find(0), r);
    assert_eq!(uf.find(2), r);
    assert_eq!(uf.groups(), vec![vec![0, 2], vec![1]]);
}

#[test]
fn hamming_distance_counts_differing_bits() {
    assert_eq!(hamming_distance(0, 0), 0);
    assert_eq!(hamming_distance(0b1111, 0b1110), 1);
    assert_eq!(hamming_distance(u64::MAX, 0), 64);
    assert_eq!(hamming_distance(0xF0, 0x0F), 8);
    assert_eq!(hamming_distance(0x1234, 0xABCD), hamming_distance(0xABCD, 0x1234));
}

#[test]
fn visual_threshold_excludes_distant_hashes() {
    let files = vec![record(1, 100, None, Some(0b1111)), record(2, 100, None, Some(0b0000))];
    let clusters = cluster_duplicates(files, &only(false, true, false, 2, 2));
    assert!(clusters.is_empty());
}

#[test]
fn visual_confidence_uses_smallest_distance() {
    let files = vec![
        record(1, 100, None, Some(0b0000)),
        record(2, 100, None, Some(0b0011)),
        record(3, 100, None, Some(0b0111)),
    ];
    let clusters = cluster_duplicates(files, &only(false, true, false, 4, 2));
    assert_eq!(clusters.len(), 1);
    assert_eq!(clusters[0].file_ids, vec![1, 2, 3]);
    assert_eq!(clusters[0].min_distance, 1);
    assert_eq!(clusters[0].distance_scale, 4);
}

#[test]
fn visual_merges_transitively_and_needs_shared_prefix() {
    let far = 1u64 << 60;
    let files = vec![
        record(1, 100, None, Some(0b0000)),
        record(2, 100, None, Some(0b0011)),
        record(3, 100, None, Some(0b1111)),
        record(4, 100, None, Some(far)),
    ];
    let clusters = cluster_duplicates(files, &only(false, true, false, 2, 2));
    assert_eq!(clusters.len(), 1);
    assert_eq!(clusters[0].file_ids, vec![1, 2, 3]);
}

#[test]
fn visual_requires_compatible_size_or_dimensions() {
    let mut a = record(1, 100, None, Some(1));
    let mut b = record(2, 200, None, Some(1));
    a.width = Some(10);
    b.width = Some(20);
    let clusters = cluster_duplicates(vec![a, b], &only(false, true, false, 6, 2));
    assert!(clusters.is_empty());
}

#[test]
fn exact_groups_by_hash_in_first_occurrence_order() {
    let files = vec![
        record(1, 1, Some("bb"), None),
        record(2, 1, Some("aa"), None),
        record(3, 1, Some("bb"), None),
        record(4, 1, Some("cc"), None),
        record(5, 1, Some("aa"), None),
        record(6, 1, None, None),
    ];
    let clusters = cluster_duplicates(files, &only(true, false, false, 6, 2));
    assert_eq!(clusters.len(), 2);
    assert_eq!(clusters[0].kind, DuplicateKind::Exact);
    assert_eq!(clusters[0].file_ids, vec![1, 3]);
    assert_eq!(clusters[1].file_ids, vec![2, 5]);
    assert_eq!(clusters[0].min_distance, 0);
    assert_eq!(clusters[0].distance_scale, 1);
}

#[test]
fn exact_members_are_not_reused_by_visual() {
    let files = vec![
        record(1, 100, Some("h"), Some(0)),
        record(2, 100, Some("h"), Some(0)),
        record(3, 100, Some("x"), Some(1)),
    ];
    let clusters = cluster_duplicates(files, &only(true, true, false, 6, 2));
    assert_eq!(clusters.len(), 1);
    assert_eq!(clusters[0].kind, DuplicateKind::Exact);
}

#[test]
fn burst_groups_same_camera_within_window() {
    let files = vec![
        dated(1, 1000, "A"),
        dated(2, 1002, "A"),
        dated(3, 1001, "B"),
        dated(4, 1003, "A"),
        dated(5, 1010, "A"),
        dated(6, 1011, "A"),
    ];
    let clusters = cluster_duplicates(files, &only(false, false, true, 6, 2));
    assert_eq!(clusters.len(), 2);
    assert_eq!(clusters[0].kind, DuplicateKind::Burst);
    assert_eq!(clusters[0].file_ids, vec![1, 2]);
    assert_eq!(clusters[1].file_ids, vec![5, 6]);
    assert_eq!(clusters[0].min_distance, 1);
    assert_eq!(clusters[0].distance_scale, 4);
}

#[test]
fn burst_keeps_input_order_for_equal_times() {
    let files = vec![dated(7, 5, "A"), dated(3, 5, "A"), dated(9, 4, "A")];
    let clusters = cluster_duplicates(files, &only(false, false, true, 6, 0));
    assert_eq!(clusters.len(), 1);
    assert_eq!(clusters[0].file_ids, vec![7, 3]);
}

#[test]
fn disabled_detectors_find_nothing() {
    let files = vec![record(1, 1, Some("h"), Some(0)), record(2, 1, Some("h"), Some(0))];
    let clusters = cluster_duplicates(files, &only(false, false, false, 6, 2));
    assert!(clusters.is_empty());
}
