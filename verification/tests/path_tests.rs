use rsenv::errors::TreeError;
use rsenv::util::path::{get_relative_path, normalize_path_separator, relativize_path, relativize_paths, relativize_tree_str};

#[test]
fn test_relativize_path_with_matching_path() {
    let result = relativize_path("/some/dir/tests/foo/bar", "tests/");
    assert_eq!(result, "tests/foo/bar");
}

#[test]
fn test_relativize_path_with_no_matching_start() {
    let result = relativize_path("/some/dir/foo/bar", "tests/");
    assert_eq!(result, "/some/dir/foo/bar");
}

#[test]
fn test_relativize_path_start_at_beginning() {
    let result = relativize_path("tests/foo/bar", "tests/");
    assert_eq!(result, "tests/foo/bar");
}

#[test]
fn test_relativize_paths_with_mixed_cases() {
    let paths = vec![
        "/some/dir/tests/foo/bar".to_string(),
        "/other/tests/baz".to_string(),
        "/not/matching/path".to_string(),
    ];
    let result = relativize_paths(paths, "tests/");
    assert_eq!(
        result,
        vec!["tests/foo/bar".to_string(), "tests/baz".to_string(), "/not/matching/path".to_string()]
    );
}

#[test]
fn test_relativize_paths_all_matching() {
    let paths = vec!["tests/foo/bar".to_string(), "tests/baz".to_string(), "tests/another/file".to_string()];
    let result = relativize_paths(paths, "tests/");
    assert_eq!(
        result,
        vec!["tests/foo/bar".to_string(), "tests/baz".to_string(), "tests/another/file".to_string()]
    );
}

#[test]
fn relativize_tree_keeps_tree_characters() {
    let tree = "/x/tests/a.env\n└── /x/tests/b.env\nplain\n";
    assert_eq!(relativize_tree_str(tree, "tests/"), "tests/a.env\n└── tests/b.env\nplain\n");
}

#[test]
fn backslashes_become_slashes() {
    assert_eq!(normalize_path_separator("a\\b\\c"), "a/b/c");
}

#[test]
fn relative_paths_between_files() {
    assert_eq!(get_relative_path("/a/b", "/a/b/c/d.env").unwrap(), "c/d.env");
    assert_eq!(get_relative_path("/a/b/c", "/a/x.env").unwrap(), "../../x.env");
    assert!(matches!(get_relative_path("/a", "rel/x.env"), Err(TreeError::PathResolution { path, .. }) if path == "rel/x.env"));
}
