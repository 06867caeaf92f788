use tellme::commands::prompt::snippet;

#[test]
fn snippet_truncates_long_first_line() {
    let s = snippet(&"x".repeat(200));
    assert!(s.chars().count() <= 78);
    assert!(s.ends_with('…'));
}

#[test]
fn snippet_takes_trimmed_first_line() {
    assert_eq!(snippet("  add free shipping  \nsecond line"), "add free shipping");
    assert_eq!(snippet(""), "");
    let long = "y".repeat(81);
    assert_eq!(snippet(&long).chars().count(), 78);
    let exact = "z".repeat(80);
    assert_eq!(snippet(&exact), exact);
}
