use tellme::text::{split_lines, trimmed};

#[test]
fn lines_split_like_str_lines() {
    assert_eq!(split_lines("a\nb\r\n\nc"), vec!["a", "b", "", "c"]);
    assert_eq!(split_lines("a\n"), vec!["a"]);
    assert!(split_lines("").is_empty());
    assert_eq!(trimmed("  x y \n"), "x y");
}
