use librevideodit::camera::CameraProfile;
use librevideodit::config::{Config, SdCardMapping};
use librevideodit::dedup::{
    dedup_action, unique_path_candidate, unique_path_step, verify_copy, DedupAction,
    UniquePathStep, UNIQUE_PATH_LIMIT,
};
use librevideodit::importer::{
    build_report, destination_for, detect_camera, find_card_mapping, import_sd_card,
    resolve_camera_name, scan_roots, CardSurvey, CopyOutcome, FileResult, ImportError,
    ImportReport,
};
use librevideodit::media::{is_media_file, is_photo_ext, is_video_ext, model_source, normalized_exts, ModelSource};

fn sony() -> CameraProfile {
    CameraProfile {
        name: "Sony A7SIII".to_string(),
        signature_paths: vec!["DCIM".to_string(), "PRIVATE/M4ROOT".to_string()],
        media_roots: vec!["DCIM".to_string(), "PRIVATE/M4ROOT".to_string()],
    }
}

fn config() -> Config {
    let mut c = Config::new();
    c.destination_root = "/home/user/MediaImports".to_string();
    c.video_exts = vec!["mp4".to_string(), " .MOV".to_string()];
    c.photo_exts = vec!["jpg".to_string(), "MP4".to_string()];
    c.cameras = vec![
        CameraProfile { name: "Empty".to_string(), signature_paths: vec![], media_roots: vec![] },
        sony(),
    ];
    c.sd_cards = vec![SdCardMapping {
        root: "/media/user/SDCARD_A".to_string(),
        target_subdir: "Project_A".to_string(),
        camera_override: None,
    }];
    c
}

fn survey(root: &str, present: &[&str]) -> CardSurvey {
    CardSurvey {
        sd_root: root.to_string(),
        root_exists: true,
        canonical_root: Some(root.to_string()),
        canonical_mapping_roots: vec![Some("/media/user/SDCARD_A".to_string())],
        present_signature_paths: present.iter().map(|s| s.to_string()).collect(),
    }
}

#[test]
fn new_values_are_empty() {
    let p = CameraProfile::new();
    assert!(p.name.is_empty() && p.signature_paths.is_empty() && p.media_roots.is_empty());
    let c = Config::new();
    assert!(c.destination_root.is_empty() && c.cameras.is_empty() && c.sd_cards.is_empty());
}

#[test]
fn extensions_are_normalized_once() {
    let mut exts = normalized_exts(&config());
    exts.sort();
    assert_eq!(exts, vec!["jpg".to_string(), "mov".to_string(), "mp4".to_string()]);
}

#[test]
fn media_files_are_filtered_by_extension() {
    let exts = vec!["jpg".to_string(), "mp4".to_string()];
    assert!(is_media_file("/card/DCIM/photo.JPG", &exts));
    assert!(is_media_file("/card/PRIVATE/M4ROOT/video.MP4", &exts));
    assert!(!is_media_file("/card/ignore.txt", &exts));
    assert!(!is_media_file("/card/noext", &exts));
    assert!(is_media_file("/card/noext", &vec!["".to_string()]));
}

#[test]
fn photo_and_video_extensions() {
    assert!(is_photo_ext("heic") && is_photo_ext("png") && !is_photo_ext("JPG"));
    assert!(is_video_ext("m2ts") && is_video_ext("mkv") && !is_video_ext("jpg"));
    assert!(model_source("/c/a.JPG") == ModelSource::Exif);
    assert!(model_source("/c/a.MOV") == ModelSource::XmpSidecar);
    assert!(model_source("/c/a.txt") == ModelSource::Neither);
}

#[test]
fn camera_detection_needs_all_signature_paths() {
    let c = config();
    let found = detect_camera(&c, &vec!["DCIM".to_string(), "PRIVATE/M4ROOT".to_string()]);
    assert_eq!(found.map(|p| p.name), Some("Sony A7SIII".to_string()));
    assert!(detect_camera(&c, &vec!["DCIM".to_string()]).is_none());
    assert!(detect_camera(&c, &vec![]).is_none());
}

#[test]
fn card_mapping_by_canonical_path_or_path_equality() {
    let c = config();
    let root = "/media/user/SDCARD_A";
    let canon = vec![Some(root.to_string())];
    let m = find_card_mapping(root, &c, &Some(root.to_string()), &canon);
    assert_eq!(m.map(|m| m.target_subdir), Some("Project_A".to_string()));
    assert!(find_card_mapping(root, &c, &Some("/elsewhere".to_string()), &canon).is_none());
    let m = find_card_mapping("/media/user/SDCARD_A/", &c, &None, &vec![]);
    assert_eq!(m.map(|m| m.target_subdir), Some("Project_A".to_string()));
    assert!(find_card_mapping("/media/user/OTHER", &c, &None, &vec![]).is_none());
}

#[test]
fn import_errors() {
    let c = config();
    let mut s = survey("/media/user/SDCARD_A", &["DCIM", "PRIVATE/M4ROOT"]);
    s.root_exists = false;
    assert!(matches!(import_sd_card(&s, &c), Err(ImportError::SdCardNotFound)));
    let mut blank = config();
    blank.destination_root = "   ".to_string();
    let s = survey("/media/user/SDCARD_A", &["DCIM", "PRIVATE/M4ROOT"]);
    assert!(matches!(import_sd_card(&s, &blank), Err(ImportError::EmptyDestinationRoot)));
    let s = survey("/media/user/SDCARD_A", &["DCIM"]);
    assert!(matches!(import_sd_card(&s, &c), Err(ImportError::UnknownCard)));
    assert_eq!(ImportError::SdCardNotFound.message(), "SD card path not found");
    assert_eq!(
        ImportError::EmptyDestinationRoot.message(),
        "destination_root is empty in config.json"
    );
    assert_eq!(
        ImportError::UnknownCard.message(),
        "SD card structure did not match any configured camera"
    );
}

#[test]
fn import_plan_for_mapped_card() {
    let c = config();
    let s = survey("/media/user/SDCARD_A", &["DCIM", "PRIVATE/M4ROOT"]);
    let plan = import_sd_card(&s, &c).ok().unwrap();
    assert_eq!(plan.target_base, "/home/user/MediaImports/Project_A");
    assert_eq!(plan.camera_fallback, "Sony A7SIII");
    assert_eq!(
        plan.scan_roots,
        vec![
            "/media/user/SDCARD_A/DCIM".to_string(),
            "/media/user/SDCARD_A/PRIVATE/M4ROOT".to_string()
        ]
    );
    let dest = destination_for(&plan, "/media/user/SDCARD_A/DCIM/100MSDCF/a.JPG", None);
    assert_eq!(dest, "/home/user/MediaImports/Project_A/Sony_A7SIII/DCIM/100MSDCF/a.JPG");
    let dest = destination_for(&plan, "/media/user/SDCARD_A/DCIM/b.jpg", Some("Canon R5".to_string()));
    assert_eq!(dest, "/home/user/MediaImports/Project_A/Canon_R5/DCIM/b.jpg");
}

#[test]
fn import_plan_with_override_and_no_camera() {
    let mut c = config();
    c.sd_cards[0].camera_override = Some("GoPro".to_string());
    c.sd_cards[0].target_subdir = "  ".to_string();
    let s = survey("/media/user/SDCARD_A", &[]);
    let plan = import_sd_card(&s, &c).ok().unwrap();
    assert_eq!(plan.target_base, "/home/user/MediaImports");
    assert_eq!(plan.camera_fallback, "GoPro");
    assert_eq!(plan.scan_roots, vec!["/media/user/SDCARD_A".to_string()]);
}

#[test]
fn camera_name_resolution() {
    assert_eq!(resolve_camera_name(Some("R5".to_string()), "Sony"), "R5");
    assert_eq!(resolve_camera_name(None, "Sony"), "Sony");
}

#[test]
fn unique_path_candidates() {
    assert_eq!(unique_path_candidate("/d/clip.mp4", 1), "/d/clip_1.mp4");
    assert_eq!(unique_path_candidate("/d/clip", 12), "/d/clip_12");
    assert_eq!(unique_path_candidate("clip.mp4", 9999), "clip_9999.mp4");
    assert_eq!(unique_path_candidate("/d/.bashrc", 3), "/d/.bashrc_3");
    assert_eq!(unique_path_candidate("/", 1), "file_1");
    match unique_path_step("/d/clip.mp4", 1, false) {
        UniquePathStep::Use(p) => assert_eq!(p, "/d/clip_1.mp4"),
        UniquePathStep::Probe(_) => panic!("expected a path"),
    }
    assert!(matches!(unique_path_step("/d/clip.mp4", 1, true), UniquePathStep::Probe(2)));
    match unique_path_step("/d/clip.mp4", UNIQUE_PATH_LIMIT, true) {
        UniquePathStep::Use(p) => assert_eq!(p, "/d/clip.mp4"),
        UniquePathStep::Probe(_) => panic!("expected a path"),
    }
}

#[test]
fn dedup_decisions() {
    assert!(dedup_action(false, false) == DedupAction::CopyToDestination);
    assert!(dedup_action(true, true) == DedupAction::KeepExisting);
    assert!(dedup_action(true, false) == DedupAction::CopyToUniquePath);
}

#[test]
fn report_counts_outcomes() {
    let c = config();
    let s = survey("/media/user/SDCARD_A", &["DCIM", "PRIVATE/M4ROOT"]);
    let plan = import_sd_card(&s, &c).ok().unwrap();
    let mut report = ImportReport::new(&plan);
    report.record_outcome(CopyOutcome::Copied);
    report.record_outcome(CopyOutcome::Copied);
    report.record_outcome(CopyOutcome::Skipped);
    report.record_failure("/card/a.jpg", "Hash Error:Mismatch hash code");
    assert_eq!((report.copied, report.skipped, report.failed), (2, 1, 1));
    assert_eq!(report.errors, vec!["/card/a.jpg: Hash Error:Mismatch hash code".to_string()]);
    assert_eq!(report.target_base, "/home/user/MediaImports/Project_A");
    assert_eq!(report.camera_fallback, "Sony A7SIII");
}

#[test]
fn scan_roots_default_to_card_root() {
    assert_eq!(scan_roots("/card", &None), vec!["/card".to_string()]);
    assert_eq!(scan_roots("/card", &Some(CameraProfile::new())), vec!["/card".to_string()]);
    assert_eq!(scan_roots("/card", &Some(sony())), vec!["/card/DCIM".to_string(), "/card/PRIVATE/M4ROOT".to_string()]);
}

#[test]
fn whole_report_counts_every_file_once() {
    let c = config();
    let s = survey("/media/user/SDCARD_A", &["DCIM", "PRIVATE/M4ROOT"]);
    let plan = import_sd_card(&s, &c).ok().unwrap();
    let results = vec![
        FileResult { path: "/c/a.jpg".to_string(), outcome: Ok(CopyOutcome::Copied) },
        FileResult {
            path: "/c/b.jpg".to_string(),
            outcome: Err("Hash Error:Mismatch hash code".to_string()),
        },
        FileResult { path: "/c/c.mp4".to_string(), outcome: Ok(CopyOutcome::Skipped) },
        FileResult { path: "/c/d.mp4".to_string(), outcome: Err("denied".to_string()) },
        FileResult { path: "/c/e.mp4".to_string(), outcome: Ok(CopyOutcome::Copied) },
    ];
    let report = build_report(&plan, &results);
    assert_eq!((report.copied, report.skipped, report.failed), (2, 1, 2));
    assert_eq!(
        report.errors,
        vec!["/c/b.jpg: Hash Error:Mismatch hash code".to_string(), "/c/d.mp4: denied".to_string()]
    );
    assert_eq!(report.target_base, "/home/user/MediaImports/Project_A");
    let empty = build_report(&plan, &vec![]);
    assert_eq!((empty.copied, empty.skipped, empty.failed, empty.errors.len()), (0, 0, 0, 0));
}

#[test]
fn copy_is_verified_by_digest() {
    assert!(verify_copy(b"frame", b"frame").ok() == Some(CopyOutcome::Copied));
    let err = verify_copy(b"frame", b"fram").unwrap_err();
    assert_eq!(err.reason, "Mismatch hash code");
}
