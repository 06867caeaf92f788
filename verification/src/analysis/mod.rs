//! Source analysis behind a language-agnostic trait.
//!
//! v1 ships a Python implementation; other languages slot in by adding an
//! [`Analyzer`] and wiring [`for_path`]. The flow types are language-neutral.

pub mod python;
pub mod syntax;

use vstd::prelude::*;

use crate::error::{Error, Result};
use crate::journey::last_dot;
use crate::text::{owned, push_str};

pub use python::Python;

verus! {

/// What happened to a variable at a point in its lifecycle.
#[derive(Debug, Clone, Copy, PartialEq, Eq, Structural)]
pub enum VarEventKind {
    /// First assignment.
    Initialized,
    /// A later (re)assignment.
    Modified,
    /// A read.
    Used,
    /// The last point the variable is referenced.
    LifecycleEnd,
}

/// The display label of an event kind.
pub open spec fn spec_label(k: VarEventKind) -> Seq<char> {
    match k {
        VarEventKind::Initialized => "INITIALIZED"@,
        VarEventKind::Modified => "MODIFIED"@,
        VarEventKind::Used => "USED"@,
        VarEventKind::LifecycleEnd => "LIFECYCLE END"@,
    }
}

impl VarEventKind {
    /// A short uppercase label for display.
    pub fn label(self) -> (r: &'static str)
        ensures
            r@ == spec_label(self),
    {
        match self {
            VarEventKind::Initialized => "INITIALIZED",
            VarEventKind::Modified => "MODIFIED",
            VarEventKind::Used => "USED",
            VarEventKind::LifecycleEnd => "LIFECYCLE END",
        }
    }
}

/// One event in a variable's life.
#[derive(Debug, Clone, PartialEq, Eq)]
pub struct VarEvent {
    /// What happened.
    pub kind: VarEventKind,
    /// One-based line.
    pub line: usize,
    /// The source line, trimmed.
    pub text: String,
}

/// A variable's lifecycle within its function.
#[derive(Debug, Clone, PartialEq, Eq)]
pub struct VarFlow {
    /// Variable name.
    pub name: String,
    /// Enclosing function, if any.
    pub function: Option<String>,
    /// Events, ordered by line.
    pub events: Vec<VarEvent>,
}

/// A function call site.
#[derive(Debug, Clone, PartialEq, Eq)]
pub struct Call {
    /// Callee name (may be dotted, e.g. `cart.items`).
    pub name: String,
    /// One-based line.
    pub line: usize,
}

/// A function's connections and signature.
#[derive(Debug, Clone, PartialEq, Eq)]
pub struct FunctionFlow {
    /// Function name.
    pub name: String,
    /// One-based line of the definition.
    pub line: usize,
    /// Parameter declarations (text as written).
    pub params: Vec<String>,
    /// Return annotation, if present.
    pub returns: Option<String>,
    /// Call sites of this function within the file.
    pub callers: Vec<Call>,
    /// Calls made within this function's body.
    pub callees: Vec<Call>,
}

/// A function definition as the journey index sees it: its name, the
/// expressions it returns, and the calls in its body.
#[derive(Debug, Clone, PartialEq, Eq)]
pub struct FunctionDef {
    /// Function name.
    pub name: String,
    /// The text of each `return` expression, in source order.
    pub returns: Vec<String>,
    /// Calls made within the body.
    pub callees: Vec<Call>,
}

/// A language-specific source analyzer.
pub trait Analyzer {
    /// Trace a variable's lifecycle.
    fn var_flow(&self, src: &str, var: &str) -> Result<VarFlow>;

    /// Trace a function's callers, callees, and signature.
    fn function_flow(&self, src: &str, func: &str) -> Result<FunctionFlow>;

    /// Every function defined in the source.
    fn functions(&self, src: &str) -> Result<Vec<FunctionDef>>;
}

/// The extension of a path as `Path::extension` gives it (the part of the
/// file name after its last `.`, for names that do not start with that `.`).
pub uninterp spec fn path_extension(path: Seq<char>) -> Option<Seq<char>>;

/// A bare file name: not empty, not `.` or `..`, and free of separators and
/// drive marks, so that the whole text is the path's file name.
pub open spec fn simple_file_name(s: Seq<char>) -> bool {
    s.len() > 0 && s != "."@ && s != ".."@ && forall|j: int|
        0 <= j < s.len() ==> #[trigger] s[j] != '/' && s[j] != '\\' && s[j] != ':'
}

/// `Path::extension` on a UTF-8 path; the result is a function of the path
/// text alone. For a bare file name it is the part after the last `.`, none
/// when the name has no `.` but a leading one.
#[verifier::external_body]
fn extension_of(path: &str) -> (r: Option<String>)
    ensures
        match r {
            Some(e) => path_extension(path@) == Some(e@),
            None => path_extension(path@) is None,
        },
        simple_file_name(path@) ==> match r {
            Some(e) => last_dot(path@) > 0 && e@ == path@.subrange(last_dot(path@) + 1, path@.len() as int),
            None => last_dot(path@) <= 0,
        },
{
    std::path::Path::new(path).extension().map(|e| e.to_string_lossy().into_owned())
}

/// The message for a file with no analyzer.
pub open spec fn no_analyzer_message(ext: Option<Seq<char>>) -> Seq<char> {
    "no analyzer for "@ + match ext {
        Some(e) => e,
        None => "(unknown)"@,
    } + " files yet (v1 supports Python)"@
}

/// Pick an analyzer for a file by extension. v1 supports Python (`.py`);
/// any other extension is `Error::Other` naming it.
pub fn for_path(path: &str) -> (r: Result<Python>)
    ensures
        path_extension(path@) == Some("py"@) <==> r is Ok,
        r matches Err(Error::Other(m)) ==> m@ == no_analyzer_message(path_extension(path@)),
        r is Err ==> r matches Err(Error::Other(_)),
{
    let ext = extension_of(path);
    match ext {
        Some(e) => {
            if crate::text::str_eq(e.as_str(), "py") {
                return Python::new();
            }
            let mut m = owned("no analyzer for ");
            push_str(&mut m, e.as_str());
            push_str(&mut m, " files yet (v1 supports Python)");
            Err(Error::Other(m))
        },
        None => {
            let mut m = owned("no analyzer for ");
            push_str(&mut m, "(unknown)");
            push_str(&mut m, " files yet (v1 supports Python)");
            Err(Error::Other(m))
        },
    }
}

} // verus!
