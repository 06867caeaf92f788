use tellme::capture::ranges::{line_count, span_of, whole_file};
use tellme::capture::{edit_ranges, LineRange, ToolInput};

const FILE: &str = "line1\nline2\nTARGET\nline4\n";

fn input(new_string: Option<&str>) -> ToolInput {
    ToolInput { file_path: None, new_string: new_string.map(String::from), edits: None }
}

#[test]
fn write_is_whole_file() {
    let r = edit_ranges("Write", &input(None), FILE);
    assert_eq!(r, vec![LineRange::new(1, 4)]);
}

#[test]
fn edit_locates_new_string_span() {
    let r = edit_ranges("Edit", &input(Some("TARGET")), FILE);
    assert_eq!(r, vec![LineRange::new(3, 3)]);
}

#[test]
fn edit_multiline_new_string_spans_multiple_lines() {
    let content = "a\nNEW1\nNEW2\nb\n";
    let r = edit_ranges("Edit", &input(Some("NEW1\nNEW2")), content);
    assert_eq!(r, vec![LineRange::new(2, 3)]);
}

#[test]
fn edit_falls_back_to_whole_file_when_not_found() {
    let r = edit_ranges("Edit", &input(Some("NOT PRESENT")), FILE);
    assert_eq!(r, vec![LineRange::new(1, 4)]);
}

#[test]
fn multiedit_collects_distinct_spans() {
    let content = "AAA\nb\nCCC\n";
    let edits = ToolInput {
        file_path: None,
        new_string: None,
        edits: Some(vec![Some("AAA".to_string()), Some("CCC".to_string())]),
    };
    let r = edit_ranges("MultiEdit", &edits, content);
    assert_eq!(r, vec![LineRange::new(1, 1), LineRange::new(3, 3)]);
}

#[test]
fn unknown_tool_yields_nothing() {
    assert!(edit_ranges("Bash", &input(None), FILE).is_empty());
}

#[test]
fn multiedit_drops_repeats_and_falls_back() {
    let content = "AAA\nb\nAAA\n";
    let edits = ToolInput {
        file_path: None,
        new_string: None,
        edits: Some(vec![Some("AAA".to_string()), Some("AAA".to_string()), None]),
    };
    assert_eq!(edit_ranges("MultiEdit", &edits, content), vec![LineRange::new(1, 1)]);
    let none = ToolInput { file_path: None, new_string: None, edits: Some(vec![Some("zzz".into())]) };
    assert_eq!(edit_ranges("MultiEdit", &none, content), vec![LineRange::new(1, 3)]);
}

#[test]
fn line_counting_and_spans() {
    assert_eq!(line_count(""), 0);
    assert_eq!(line_count("a"), 1);
    assert_eq!(line_count("a\nb\n"), 2);
    assert_eq!(whole_file(""), None);
    assert_eq!(whole_file("x\ny"), Some(LineRange::new(1, 2)));
    assert_eq!(span_of("a\nb\nc", "b\nc"), Some(LineRange::new(2, 3)));
    assert_eq!(span_of("abc", ""), None);
    assert_eq!(edit_ranges("Write", &input(None), ""), vec![]);
}

#[test]
fn empty_content_reports_nothing_for_any_tool() {
    assert!(edit_ranges("Edit", &input(Some("x")), "").is_empty());
    assert!(edit_ranges("MultiEdit", &input(None), "").is_empty());
}
