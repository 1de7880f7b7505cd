use terra::media::{is_media_file, is_video, probe_dimensions, process_image, select_media_files, MediaFile};

const PNG_1X1: [u8; 70] = [
    137, 80, 78, 71, 13, 10, 26, 10, 0, 0, 0, 13, 73, 72, 68, 82, 0, 0, 0, 1, 0, 0, 0, 1, 8, 6, 0, 0, 0, 31, 21,
    196, 137, 0, 0, 0, 13, 73, 68, 65, 84, 120, 218, 99, 100, 96, 248, 95, 15, 0, 2, 135, 1, 128, 235, 71, 186,
    146, 0, 0, 0, 0, 73, 69, 78, 68, 174, 66, 96, 130,
];

#[test]
fn every_supported_extension_in_any_case_is_media() {
    for ext in ["jpg", "jpeg", "png", "heic", "webp", "gif", "bmp", "mp4", "mov", "avi", "webm", "mkv"] {
        assert!(is_media_file(&format!("/pics/a.{}", ext)), "{}", ext);
        assert!(is_media_file(&format!("/pics/a.{}", ext.to_uppercase())), "{}", ext);
    }
}

#[test]
fn unsupported_names_are_not_media() {
    assert!(!is_media_file("/pics/notes.txt"));
    assert!(!is_media_file("/pics/archive.jpg.gz"));
    assert!(!is_media_file("/pics/.jpg"));
    assert!(!is_media_file("/pics/jpg"));
    assert!(!is_media_file("/pics/a.jpg/.."));
}

#[test]
fn scan_selection_keeps_one_entry_per_media_file() {
    let paths: Vec<String> = vec![
        "/r/a.JPG", "/r/b.txt", "/r/c.jpeg", "/r/d.Png", "/r/e.heic", "/r/f.webp", "/r/g.gif", "/r/h.bmp",
        "/r/i.mp4", "/r/j.MOV", "/r/k.avi", "/r/l.webm", "/r/m.mkv", "/r/n.doc",
    ]
    .into_iter()
    .map(String::from)
    .collect();
    let kept = select_media_files(&paths);
    assert_eq!(kept.len(), 12);
    assert!(!kept.contains(&"/r/b.txt".to_string()));
    assert!(!kept.contains(&"/r/n.doc".to_string()));
    assert_eq!(kept[0], "/r/a.JPG");
    assert_eq!(kept[11], "/r/m.mkv");
}

#[test]
fn videos_recognised_by_extension() {
    assert!(is_video("/v/clip.MOV"));
    assert!(is_video("clip.mkv"));
    assert!(!is_video("photo.jpg"));
    assert!(!is_video("mp4"));
}

#[test]
fn image_dimensions_are_probed() {
    assert_eq!(probe_dimensions("/p/dot.png", &PNG_1X1), (1, 1));
}

#[test]
fn videos_and_undecodable_files_get_unknown_dimensions() {
    assert_eq!(probe_dimensions("/p/dot.mp4", &PNG_1X1), (0, 0));
    assert_eq!(probe_dimensions("/p/broken.png", &[1, 2, 3, 4]), (0, 0));
}

#[test]
fn record_built_from_file_facts() {
    let file = MediaFile {
        path: "/tmp/photos/2017-11-26_030858.jpeg".to_string(),
        canonical_path: None,
        bytes: Vec::new(),
        modified: Some(5),
    };
    let rec = process_image(&file, 9).unwrap();
    assert_eq!(rec.path, "/tmp/photos/2017-11-26_030858.jpeg");
    assert_eq!(rec.name, "2017-11-26_030858.jpeg");
    assert_eq!(rec.date_taken, 1511665738);
    assert_eq!((rec.width, rec.height), (0, 0));
    assert!(!rec.is_favorite);
}

#[test]
fn record_uses_canonical_path_and_probes() {
    let file = MediaFile {
        path: "./dot.png".to_string(),
        canonical_path: Some("/home/u/dot.png".to_string()),
        bytes: PNG_1X1.to_vec(),
        modified: Some(77),
    };
    let rec = process_image(&file, 9).unwrap();
    assert_eq!(rec.path, "/home/u/dot.png");
    assert_eq!(rec.name, "dot.png");
    assert_eq!(rec.date_taken, 77);
    assert_eq!((rec.width, rec.height), (1, 1));
}

#[test]
fn paths_without_file_name_are_skipped() {
    for p in ["/", "", "photos/..", "."] {
        let file = MediaFile { path: p.to_string(), canonical_path: None, bytes: Vec::new(), modified: None };
        assert!(process_image(&file, 1).is_none(), "{}", p);
    }
    let file = MediaFile { path: "a/b/./".to_string(), canonical_path: None, bytes: Vec::new(), modified: None };
    assert_eq!(process_image(&file, 1).unwrap().name, "b");
}
