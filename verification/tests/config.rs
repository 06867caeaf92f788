use tellme::config::{default_language, Config, OutputFormat};

#[test]
fn defaults_are_python_text() {
    let c = Config::default();
    assert_eq!(c.format, OutputFormat::Text);
    assert_eq!(c.language, "python");
    assert!(c.editor.is_none());
}

#[test]
fn default_language_is_python() {
    assert_eq!(default_language(), "python");
    assert_eq!(OutputFormat::default(), OutputFormat::Text);
}
