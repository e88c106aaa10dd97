use media_file_manager::path::{extract_path_components, path_extension, split_path};

#[test]
fn extract_two_levels() {
    let (dirs, name) = extract_path_components("/a/b/c/file.jpg", true, 2);
    assert_eq!(dirs, vec!["b", "c"]);
    assert_eq!(name, "file.jpg");
}

#[test]
fn extract_more_levels_than_available() {
    let (dirs, name) = extract_path_components("/a/b/c/file.jpg", true, 5);
    assert_eq!(dirs, vec!["a", "b", "c"]);
    assert_eq!(name, "file.jpg");
}

#[test]
fn extract_from_directory_path() {
    let (dirs, name) = extract_path_components("/a/b/c", false, 2);
    assert_eq!(dirs, vec!["b", "c"]);
    assert_eq!(name, "c");
}

#[test]
fn extract_zero_levels_and_root() {
    let (dirs, name) = extract_path_components("/a/b/file.jpg", true, 0);
    assert!(dirs.is_empty());
    assert_eq!(name, "file.jpg");
    let (dirs, name) = extract_path_components("/", false, 3);
    assert!(dirs.is_empty());
    assert_eq!(name, "");
}

#[test]
fn extract_relative_path_with_dots() {
    let (dirs, name) = extract_path_components("./x/../y//z/pic.png", true, 3);
    assert_eq!(dirs, vec!["x", "y", "z"]);
    assert_eq!(name, "pic.png");
}

#[test]
fn split_skips_root_current_and_parent() {
    let (comps, name) = split_path("a//b/./c/../d");
    assert_eq!(comps, vec!["a", "b", "c", "d"]);
    assert_eq!(name, Some("d".to_string()));
    let (comps, name) = split_path("/a/..");
    assert_eq!(comps, vec!["a"]);
    assert_eq!(name, None);
    let (comps, name) = split_path("a/b/.");
    assert_eq!(comps, vec!["a", "b"]);
    assert_eq!(name, Some("b".to_string()));
    let (comps, name) = split_path("");
    assert!(comps.is_empty());
    assert_eq!(name, None);
}

#[test]
fn extensions() {
    assert_eq!(path_extension("x/file.JPG"), Some("JPG".to_string()));
    assert_eq!(path_extension("/a/b.tar.gz"), Some("gz".to_string()));
    assert_eq!(path_extension("/a/.bashrc"), None);
    assert_eq!(path_extension("/a/file"), None);
    assert_eq!(path_extension("/a/file."), Some("".to_string()));
    assert_eq!(path_extension("a.b/c"), None);
    assert_eq!(path_extension("/a/.."), None);
    assert_eq!(path_extension("/a/..b"), Some("b".to_string()));
}
