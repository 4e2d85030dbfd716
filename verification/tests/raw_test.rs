use scan_engine::config::ScanConfig;
use scan_engine::raw::{
    file_key, find_companion_raw, index_directory_files, is_raw_extension, is_standalone_raw_path,
    is_tiff_family, plan_scan_entries,
};
use scan_engine::paths::{extension_lower, file_name, display_file_name};
use scan_engine::hash::is_supported_image;
use scan_engine::scan::walk_accepts;

#[test]
fn standalone_raw_excludes_arw_but_not_tif() {
    assert!(is_standalone_raw_path("/p/DSC06404.ARW"));
    assert!(is_standalone_raw_path("/p/DSC06404.arw"));
    assert!(!is_standalone_raw_path("/p/scan.tif"));
    assert!(!is_standalone_raw_path("/p/scan.tiff"));
    assert!(!is_standalone_raw_path("/p/photo.jpg"));
}

#[test]
fn pairs_jpg_with_arw_and_hides_raw_from_entries() {
    let jpg = String::from("/photos/DSC06404.JPG");
    let arw = String::from("/photos/DSC06404.ARW");
    let other = String::from("/photos/DSC06405.JPG");
    let all = vec![jpg.clone(), arw.clone(), other.clone()];

    let config = ScanConfig {
        include_raw: true,
        ..ScanConfig::default()
    };
    let plan = plan_scan_entries(&all, &config);

    assert_eq!(plan.entries.len(), 2);
    assert!(plan.entries.contains(&jpg));
    assert!(plan.entries.contains(&other));
    assert!(!plan.entries.contains(&arw));
    assert_eq!(plan.companion_raw_by_image.get(&jpg), Some(&arw));
}

#[test]
fn tif_is_companion_when_jpg_exists() {
    let jpg = String::from("/photos/DSC06404.jpg");
    let tif = String::from("/photos/DSC06404.tif");
    let config = ScanConfig {
        include_raw: true,
        ..ScanConfig::default()
    };
    let plan = plan_scan_entries(&[jpg.clone(), tif.clone()], &config);

    assert_eq!(plan.entries, vec![jpg.clone()]);
    assert_eq!(plan.companion_raw_by_image.get(&jpg), Some(&tif));
}

#[test]
fn standalone_tif_is_scanned_without_jpg() {
    let tif = String::from("/photos/DSC06404.tif");
    let config = ScanConfig {
        include_raw: true,
        ..ScanConfig::default()
    };
    let plan = plan_scan_entries(&[tif.clone()], &config);

    assert_eq!(plan.entries, vec![tif]);
    assert!(plan.companion_raw_by_image.is_empty());
}

#[test]
fn include_raw_false_ignores_arw_entirely() {
    let jpg = String::from("/photos/DSC06404.JPG");
    let arw = String::from("/photos/DSC06404.ARW");
    let config = ScanConfig::default();
    let plan = plan_scan_entries(&[jpg.clone(), arw], &config);

    assert_eq!(plan.entries, vec![jpg]);
    assert!(plan.companion_raw_by_image.is_empty());
}

#[test]
fn extensions_and_names_follow_path_rules() {
    assert_eq!(extension_lower("/a/b/Photo.JPG"), Some("jpg".to_string()));
    assert_eq!(extension_lower("/a/b/.hidden"), None);
    assert_eq!(extension_lower("/a/b/noext"), None);
    assert_eq!(extension_lower("/a/b/archive.tar.GZ"), Some("gz".to_string()));
    assert_eq!(extension_lower("/a/b/photo.jpg/"), Some("jpg".to_string()));
    assert_eq!(extension_lower("/a/b/photo.jpg/."), Some("jpg".to_string()));
    assert_eq!(extension_lower("/a/.."), None);
    assert_eq!(extension_lower("file."), Some(String::new()));
    assert_eq!(file_name("/"), None);
    assert_eq!(file_name("/photos/x.png"), Some("x.png".to_string()));
    assert_eq!(display_file_name("/"), "/".to_string());
    assert_eq!(display_file_name("/photos/x.png"), "x.png".to_string());
}

#[test]
fn supported_images_by_extension() {
    assert!(is_supported_image("/x/a.JPEG"));
    assert!(is_supported_image("/x/a.heif"));
    assert!(is_supported_image("/x/a.tif"));
    assert!(!is_supported_image("/x/a.arw"));
    assert!(!is_supported_image("/x/a"));
    assert!(!is_supported_image("/x/.png"));
}

#[test]
fn raw_and_tiff_extensions() {
    assert!(is_raw_extension("NEF"));
    assert!(is_raw_extension("cr3"));
    assert!(is_raw_extension("tif"));
    assert!(!is_raw_extension("tiff"));
    assert!(!is_raw_extension("jpg"));
    assert!(is_tiff_family("TIFF"));
    assert!(is_tiff_family("tif"));
    assert!(!is_tiff_family("arw"));
}

#[test]
fn file_keys_are_lowercase_stem_and_extension() {
    assert_eq!(file_key("/p/DSC01.ARW"), Some("dsc01.arw".to_string()));
    assert_eq!(file_key("/p/noext"), None);
    assert_eq!(file_key("/p/a.b.JPG"), Some("a.b.jpg".to_string()));
}

#[test]
fn companion_prefers_earlier_raw_extension_and_skips_self() {
    let files = vec![
        "/d/IMG.NEF".to_string(),
        "/d/IMG.arw".to_string(),
        "/d/IMG.jpg".to_string(),
        "/e/IMG.dng".to_string(),
    ];
    let idx = index_directory_files(&files);
    let d = idx.get("/d").expect("dir d");
    assert_eq!(find_companion_raw("/d/IMG.jpg", d), Some("/d/IMG.arw".to_string()));
    assert_eq!(find_companion_raw("/d/IMG.arw", d), Some("/d/IMG.NEF".to_string()));
    assert!(idx.get("/f").is_none());
    let e = idx.get("/e").expect("dir e");
    assert_eq!(find_companion_raw("/e/IMG.dng", e), None);
}

#[test]
fn later_file_with_same_key_replaces_earlier() {
    let files = vec!["/d/a.ARW".to_string(), "/d/A.arw".to_string()];
    let idx = index_directory_files(&files);
    let d = idx.get("/d").expect("dir");
    assert_eq!(d.len(), 1);
    assert_eq!(d.get("a.arw"), Some(&"/d/A.arw".to_string()));
}

#[test]
fn walk_keeps_raw_only_with_pairing() {
    assert!(walk_accepts("/p/a.jpg", false));
    assert!(!walk_accepts("/p/a.arw", false));
    assert!(walk_accepts("/p/a.ARW", true));
    assert!(!walk_accepts("/p/a.txt", true));
}
