use fe_edit::paths::{filter_frontend_files, is_within_root, normalize_path, resolve_within_root};

#[test]
fn test_resolve_normal_path() {
    let result = resolve_within_root("/project", "src/Component.tsx").unwrap();
    assert_eq!(result, "/project/src/Component.tsx");
}

#[test]
fn test_resolve_rejects_traversal() {
    let result = resolve_within_root("/project", "../../../etc/passwd");
    assert!(result.is_err());
}

#[test]
fn test_resolve_allows_internal_dotdot() {
    let result = resolve_within_root("/project", "src/../lib/util.ts").unwrap();
    assert_eq!(result, "/project/lib/util.ts");
}

#[test]
fn test_is_within_root() {
    assert!(is_within_root("/project", "/project/src/file.ts"));
    assert!(!is_within_root("/project", "/other/file.ts"));
}

#[test]
fn test_normalize_path() {
    assert_eq!(normalize_path("/a/b/../c/./d"), "/a/c/d");
}

#[test]
fn test_filter_frontend_files() {
    let files: Vec<String> = vec![
        "src/App.tsx".to_string(),
        "src/utils.ts".to_string(),
        "README.md".to_string(),
        "Cargo.toml".to_string(),
        "src/styles.css".to_string(),
        "package.json".to_string(),
    ];
    let filtered = filter_frontend_files(&files);
    assert_eq!(filtered.len(), 3);
    assert!(filtered.contains(&"src/App.tsx".to_string()));
    assert!(filtered.contains(&"src/utils.ts".to_string()));
    assert!(filtered.contains(&"src/styles.css".to_string()));
}

#[test]
fn absolute_relative_path_outside_root_rejected() {
    let err = resolve_within_root("/project", "/etc/passwd").unwrap_err();
    assert_eq!(err, "Path '/etc/passwd' escapes project root '/project'");
}

#[test]
fn sibling_with_common_prefix_is_outside() {
    assert!(!is_within_root("/project", "/projectx/a.ts"));
    assert!(resolve_within_root("/project", "../projectx/a.ts").is_err());
}

#[test]
fn normalize_relative_and_repeated_slashes() {
    assert_eq!(normalize_path("a//b/./c/"), "a/b/c");
    assert_eq!(normalize_path("./x/../y"), "y");
}

#[test]
fn ancestors_nearest_first() {
    assert_eq!(
        fe_edit::paths::ancestor_dirs("/a/b/./c"),
        vec!["/a/b/c".to_string(), "/a/b".to_string(), "/a".to_string(), "/".to_string()]
    );
    assert_eq!(fe_edit::paths::project_markers()[0], "package.json");
}
