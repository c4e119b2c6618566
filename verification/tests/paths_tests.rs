use nu_plugin_unzip::paths::sanitize;

fn comps(parts: &[&str]) -> Vec<String> {
    parts.iter().map(|p| p.to_string()).collect()
}

#[test]
fn plain_file_name_is_kept() {
    assert_eq!(sanitize("file1.txt"), Some(comps(&["file1.txt"])));
}

#[test]
fn nested_name_splits_into_components() {
    assert_eq!(sanitize("a_dir/file2.txt"), Some(comps(&["a_dir", "file2.txt"])));
}

#[test]
fn backslash_separates_too() {
    assert_eq!(sanitize("a\\b"), Some(comps(&["a", "b"])));
}

#[test]
fn parent_traversal_out_of_root_is_rejected() {
    assert_eq!(sanitize("../evil.txt"), None);
    assert_eq!(sanitize("a/../../evil.txt"), None);
    assert_eq!(sanitize(".."), None);
}

#[test]
fn inner_parent_traversal_is_resolved() {
    assert_eq!(sanitize("a/../b"), Some(comps(&["b"])));
    assert_eq!(sanitize("a/b/../c"), Some(comps(&["a", "c"])));
}

#[test]
fn absolute_name_is_made_relative() {
    assert_eq!(sanitize("/abs/path"), Some(comps(&["abs", "path"])));
}

#[test]
fn dot_and_empty_components_vanish() {
    assert_eq!(sanitize("a/./b//c"), Some(comps(&["a", "b", "c"])));
}

#[test]
fn drive_colon_is_rejected() {
    assert_eq!(sanitize("C:/evil.txt"), None);
    assert_eq!(sanitize("a/C:b"), None);
}

#[test]
fn nul_byte_is_rejected() {
    assert_eq!(sanitize("nul\0name"), None);
}

#[test]
fn empty_resolved_path_is_rejected() {
    assert_eq!(sanitize(""), None);
    assert_eq!(sanitize("/"), None);
    assert_eq!(sanitize("a/.."), None);
}

#[test]
fn trailing_separator_of_directory_names_is_dropped() {
    assert_eq!(sanitize("a_dir/"), Some(comps(&["a_dir"])));
}
