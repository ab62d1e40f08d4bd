use librevideodit::hash::{check_file, compare_sums, sha256sum, HashError};
use librevideodit::paths::{
    path_eq, path_extension, path_file_stem, path_join, path_parent, path_relative_to,
    xmp_sidecar_path,
};
use librevideodit::greet;

#[test]
fn join_follows_path_rules() {
    assert_eq!(path_join("/dest", "Cam"), "/dest/Cam");
    assert_eq!(path_join("/dest/", "Cam"), "/dest/Cam");
    assert_eq!(path_join("", "Cam"), "Cam");
    assert_eq!(path_join("/dest", "/abs/x"), "/abs/x");
    assert_eq!(path_join("/dest", ""), "/dest/");
}

#[test]
fn extension_stem_and_parent() {
    assert_eq!(path_extension("/a/clip.MP4"), Some("MP4".to_string()));
    assert_eq!(path_extension("/a/archive.tar.gz"), Some("gz".to_string()));
    assert_eq!(path_extension("/a/.bashrc"), None);
    assert_eq!(path_extension("/a/noext"), None);
    assert_eq!(path_extension("/a/dot."), Some("".to_string()));
    assert_eq!(path_extension("/a/clip.mp4/"), Some("mp4".to_string()));
    assert_eq!(path_extension("/a/.."), None);
    assert_eq!(path_file_stem("/a/clip.mp4"), Some("clip".to_string()));
    assert_eq!(path_file_stem("/a/.bashrc"), Some(".bashrc".to_string()));
    assert_eq!(path_file_stem("/"), None);
    assert_eq!(path_parent("/a/b/clip.mp4"), Some("/a/b".to_string()));
    assert_eq!(path_parent("/clip.mp4"), Some("/".to_string()));
    assert_eq!(path_parent("clip.mp4"), Some("".to_string()));
    assert_eq!(path_parent("a/./b"), Some("a".to_string()));
    assert_eq!(path_parent("/"), None);
    assert_eq!(path_parent(""), None);
}

#[test]
fn sidecar_path_replaces_extension() {
    assert_eq!(xmp_sidecar_path("/card/clip.mp4"), "/card/clip.xmp");
    assert_eq!(xmp_sidecar_path("/card/clip"), "/card/clip.xmp");
    assert_eq!(xmp_sidecar_path("/card/.hidden"), "/card/.hidden.xmp");
    assert_eq!(xmp_sidecar_path("/"), "/");
}

#[test]
fn relative_paths_and_equality() {
    assert_eq!(path_relative_to("/media/SD/DCIM/a.jpg", "/media/SD"), "DCIM/a.jpg");
    assert_eq!(path_relative_to("/media/SD/DCIM/a.jpg", "/media/SD/"), "DCIM/a.jpg");
    assert_eq!(path_relative_to("/media/SDX/a.jpg", "/media/SD"), "/media/SDX/a.jpg");
    assert_eq!(path_relative_to("/other/a.jpg", "/media/SD"), "/other/a.jpg");
    assert_eq!(path_relative_to("/media/SD/./DCIM/a.jpg", "/media/SD"), "DCIM/a.jpg");
    assert_eq!(path_relative_to("/media//SD/x/", "/media/SD/."), "x");
    assert_eq!(path_relative_to("/media/SD", "/media/SD"), "");
    assert_eq!(path_relative_to("/x/y", ""), "/x/y");
    assert!(path_eq("/media/SD/", "/media/SD"));
    assert!(path_eq("/media//SD/./", "/media/SD"));
    assert!(!path_eq("media/SD", "/media/SD"));
    assert!(!path_eq("./a", "a"));
}

#[test]
fn sha256_sum_of_known_input() {
    assert_eq!(
        sha256sum(b"abc"),
        "ba7816bf8f01cfea414140de5dae2223b00361a396177a9cb410ff61f20015ad"
    );
    assert_eq!(
        sha256sum(b""),
        "e3b0c44298fc1c149afbf4c8996fb92427ae41e4649b934ca495991b7852b855"
    );
    let sum = sha256sum(b"any contents at all");
    assert_eq!(sum.len(), 64);
    assert!(sum.chars().all(|c| matches!(c, '0'..='9' | 'a'..='f')));
}

#[test]
fn check_file_compares_contents() {
    assert!(check_file(b"data", b"data").is_ok());
    let err = check_file(b"data", b"other").unwrap_err();
    assert_eq!(err.reason, "Mismatch hash code");
    assert_eq!(err.message(), "Hash Error:Mismatch hash code");
    assert!(compare_sums("ab", "ab").is_ok());
    assert!(compare_sums("ab", "ac").is_err());
    assert_eq!(HashError::new("x".to_string()).message(), "Hash Error:x");
}

#[test]
fn greet_greets() {
    assert_eq!(greet("Ada"), "Hello, Ada! You've been greeted from Rust!");
}
