use tellme::lineref::parse_selector;

#[test]
fn parses_all_supported_forms() {
    assert_eq!(parse_selector("#line4").unwrap(), (4, 4));
    assert_eq!(parse_selector("#4").unwrap(), (4, 4));
    assert_eq!(parse_selector("line4").unwrap(), (4, 4));
    assert_eq!(parse_selector("4").unwrap(), (4, 4));
    assert_eq!(parse_selector("#line4-7").unwrap(), (4, 7));
    assert_eq!(parse_selector("4-7").unwrap(), (4, 7));
}

#[test]
fn rejects_garbage_and_bad_ranges() {
    assert!(parse_selector("0").is_err());
    assert!(parse_selector("7-4").is_err());
    assert!(parse_selector("abc").is_err());
    assert!(parse_selector("").is_err());
}
