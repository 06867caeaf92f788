use tellme::completion::file_matches;

#[test]
fn bare_basename_matches_nested_path() {
    assert!(file_matches("backend/dls/errors.py", "errors.py"));
    assert!(file_matches("backend/dls/errors.py", "err"));
}

#[test]
fn basename_match_is_anchored_not_substring() {
    assert!(!file_matches("backend/dls/errors.py", "rors"));
    assert!(!file_matches("backend/dls/errors.py", "dls"));
}

#[test]
fn slash_switches_to_path_prefix() {
    assert!(file_matches("backend/dls/errors.py", "backend/dls"));
    assert!(!file_matches("backend/dls/errors.py", "dls/errors.py"));
}

#[test]
fn empty_input_matches_everything() {
    assert!(file_matches("anything/at/all.py", ""));
}

#[test]
fn top_level_file_still_matches_by_name() {
    assert!(file_matches("README.md", "README"));
    assert!(file_matches("README.md", "README.md"));
}
