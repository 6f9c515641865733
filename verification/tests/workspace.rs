use tangram::workspace::{folder_path, FolderError, WorkspaceRoots};

#[test]
fn workspace_folders_must_be_file_uris() {
    assert_eq!(folder_path("file", "/home/me/pkg").unwrap(), "/home/me/pkg");
    assert!(matches!(folder_path("https", "/pkg"), Err(FolderError::InvalidUri)));
}

#[test]
fn workspace_roots_are_held_once() {
    let mut roots = WorkspaceRoots::new();
    roots.insert("/a");
    roots.insert("/b");
    roots.insert("/a");
    assert!(roots.contains("/a") && roots.contains("/b"));
    roots.remove("/a");
    assert!(!roots.contains("/a"));
    assert!(roots.contains("/b"));
    roots.remove("/c");
    assert!(roots.contains("/b"));
}
