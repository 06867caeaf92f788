//! Configuration stored at `.tellme/config.json`.

use vstd::prelude::*;

use crate::text::owned;

verus! {

/// How command output is rendered.
#[derive(Debug, Clone, Copy, PartialEq, Eq, Structural)]
pub enum OutputFormat {
    /// Human-readable text (the default).
    Text,
    /// Machine-readable JSON.
    Json,
    /// Graphviz DOT (only meaningful for `flow --graph`).
    Dot,
}

impl Default for OutputFormat {
    fn default() -> (r: Self)
        ensures
            r == OutputFormat::Text,
    {
        OutputFormat::Text
    }
}

/// On-disk configuration.
#[derive(Debug, Clone, PartialEq, Eq)]
pub struct Config {
    /// Editor to launch for the decision editor; falls back to `$EDITOR` when `None`.
    pub editor: Option<String>,
    /// Default output format.
    pub format: OutputFormat,
    /// Source language for analysis (v1 is Python-only).
    pub language: String,
}

/// The analysis language when the config names none.
pub fn default_language() -> (r: String)
    ensures
        r@ == "python"@,
{
    owned("python")
}

impl Default for Config {
    fn default() -> (r: Self)
        ensures
            r.editor is None,
            r.format == OutputFormat::Text,
            r.language@ == "python"@,
    {
        Config { editor: None, format: OutputFormat::Text, language: default_language() }
    }
}

} // verus!
