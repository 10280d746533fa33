//! Tests for document path recognition.

use yaml_lint_core::is_yaml_file;

#[test]
fn test_is_yaml_file() {
    assert!(is_yaml_file("test.yaml"));
    assert!(is_yaml_file("test.yml"));
    assert!(is_yaml_file(".yamllint"));
    assert!(!is_yaml_file("test.txt"));
    assert!(!is_yaml_file("test"));
}

#[test]
fn test_is_yaml_file_with_directories() {
    assert!(is_yaml_file("some/dir/config.yaml"));
    assert!(is_yaml_file("a/.yamllint.yml"));
    assert!(!is_yaml_file("some/dir/readme.md"));
    assert!(!is_yaml_file("some/dir.yaml/readme"));
}
