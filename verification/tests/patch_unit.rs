use std::path::PathBuf;

use forkme::patch::{
    apply_patch, binary_path_for_file, deleted_path_for_file, file_path_from_binary,
    file_path_from_deleted, file_path_from_patch, generate_patch, patch_path_for_file, PatchEntry,
};

#[test]
fn test_generate_patch_addition() {
    let patch = generate_patch(None, Some("hello\nworld\n"));
    assert!(patch.contains("@@ -0,0 +1,2 @@"));
    assert!(patch.contains("+hello"));
    assert!(patch.contains("+world"));
}

#[test]
fn test_generate_patch_modification() {
    let patch = generate_patch(Some("hello\n"), Some("hello\nworld\n"));
    assert!(patch.contains("+world"));
}

#[test]
fn test_generate_patch_deletion() {
    let patch = generate_patch(Some("hello\nworld\n"), None);
    assert!(patch.contains("-hello"));
    assert!(patch.contains("-world"));
}

#[test]
fn test_apply_patch_new_file() {
    let patch = generate_patch(None, Some("hello\nworld\n"));
    let result = apply_patch("", &patch).unwrap();
    assert_eq!(result, "hello\nworld\n");
}

#[test]
fn test_apply_patch_modification() {
    let original = "line1\nline2\nline3\n";
    let modified = "line1\nmodified\nline3\n";
    let patch = generate_patch(Some(original), Some(modified));
    let result = apply_patch(original, &patch).unwrap();
    assert_eq!(result, modified);
}

#[test]
fn test_patch_path_for_file() {
    let path = patch_path_for_file("src/main.rs");
    assert_eq!(PathBuf::from(path), PathBuf::from("patches/src/main.rs.patch"));
}

#[test]
fn test_binary_path_for_file() {
    let path = binary_path_for_file("assets/logo.png");
    assert_eq!(PathBuf::from(path), PathBuf::from("patches/assets/logo.png"));
}

#[test]
fn test_deleted_path_for_file() {
    let path = deleted_path_for_file("old/file.rs");
    assert_eq!(PathBuf::from(path), PathBuf::from("patches/old/file.rs.deleted"));
}

#[test]
fn test_file_path_from_patch() {
    let patch_path = "patches/src/lib.rs.patch";
    let file_path = file_path_from_patch(patch_path);
    assert_eq!(file_path, Some("src/lib.rs".to_string()));
}

#[test]
fn test_file_path_from_binary() {
    let binary_path = "patches/assets/image.png";
    let file_path = file_path_from_binary(binary_path);
    assert_eq!(file_path, Some("assets/image.png".to_string()));
}

#[test]
fn test_file_path_from_deleted() {
    let deleted_path = "patches/old/removed.rs.deleted";
    let file_path = file_path_from_deleted(deleted_path);
    assert_eq!(file_path, Some("old/removed.rs".to_string()));
}

#[test]
fn test_patch_entry_file_path() {
    let text = PatchEntry::TextPatch("src/main.rs".to_string());
    let binary = PatchEntry::Binary("logo.png".to_string());
    let deleted = PatchEntry::Deleted("old.rs".to_string());

    assert_eq!(text.file_path(), "src/main.rs");
    assert_eq!(binary.file_path(), "logo.png");
    assert_eq!(deleted.file_path(), "old.rs");
}
