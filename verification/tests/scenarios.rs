use librevideodit::camera::CameraProfile;
use librevideodit::dedup::{unique_path_candidate, unique_path_step, UniquePathStep};
use librevideodit::importer::scan_roots;
use librevideodit::media::{is_media_file, is_photo_ext, is_video_ext};
use librevideodit::metadata::read_xmp_model;
use librevideodit::paths::{path_join, path_parent, xmp_sidecar_path};

#[test]
fn unique_path_adds_suffix_when_exists() {
    // `clip.mp4` exists; its first numbered alternative is free.
    let path = path_join("/tmp/work", "clip.mp4");
    let unique = match unique_path_step(&path, 1, false) {
        UniquePathStep::Use(p) => p,
        UniquePathStep::Probe(_) => panic!("the first alternative is free"),
    };
    assert_eq!(unique, "/tmp/work/clip_1.mp4");
    assert!(unique.ends_with("clip_1.mp4"));
}

#[test]
fn list_media_files_scans_roots() {
    let dir = "/tmp/card";
    let profile = CameraProfile {
        name: "TestCam".to_string(),
        signature_paths: vec![],
        media_roots: vec!["DCIM".to_string(), "PRIVATE/M4ROOT".to_string()],
    };
    let exts = vec!["jpg".to_string(), "mp4".to_string()];
    let roots = scan_roots(dir, &Some(profile));
    assert_eq!(roots, vec!["/tmp/card/DCIM".to_string(), "/tmp/card/PRIVATE/M4ROOT".to_string()]);
    // What a walk of the two roots and of the card finds.
    let found = vec![
        path_join(&roots[0], "photo.JPG"),
        path_join(&roots[1], "video.MP4"),
        path_join(dir, "ignore.txt"),
    ];
    let files: Vec<&String> = found.iter().filter(|p| is_media_file(p, &exts)).collect();
    assert_eq!(files.len(), 2);
}

#[test]
fn read_xmp_model_from_sidecar() {
    let video = path_join("/tmp/card", "clip.mp4");
    assert_eq!(xmp_sidecar_path(&video), "/tmp/card/clip.xmp");
    let xmp_content = r#"<rdf:Description tiff:Make="Canon" tiff:Model="R5"></rdf:Description>"#;
    let model = read_xmp_model(xmp_content).expect("model");
    assert_eq!(model, "Canon R5");
}

#[test]
fn numbered_alternatives_are_distinct_and_beside() {
    let taken = "/dest/Cam/DCIM/clip.mp4";
    let mut seen: Vec<String> = Vec::new();
    for n in 1..=120u32 {
        let c = unique_path_candidate(taken, n);
        assert!(!seen.contains(&c));
        assert_eq!(path_parent(&c), path_parent(taken));
        seen.push(c);
    }
    assert_eq!(path_parent(&unique_path_candidate("clip", 7)), Some("".to_string()));
    assert_eq!(path_parent(&unique_path_candidate("/clip.x", 7)), Some("/".to_string()));
}

#[test]
fn photo_and_video_extensions_do_not_overlap() {
    let all = [
        "jpg", "jpeg", "tif", "tiff", "dng", "heic", "png", "mp4", "mov", "mxf", "avi", "mkv",
        "mts", "m2ts",
    ];
    for e in all {
        assert!(is_photo_ext(e) != is_video_ext(e));
    }
}
