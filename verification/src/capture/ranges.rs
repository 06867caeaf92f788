//! Extract the line range(s) a tool event touched.
//!
//! Given a tool name, the fields of its `tool_input` that matter, and the file
//! content *after* the edit, return the one-based inclusive line spans that
//! changed. When an exact span can't be determined we fall back to a
//! file-level range, so capture never silently drops an edit.

use vstd::prelude::*;

use crate::text::{
    chars_of, contains, count_char, count_char_prefix, count_lines, find, first_occurrence,
    lines, str_eq,
};

verus! {

/// A one-based inclusive line span.
#[derive(Debug, Clone, Copy, PartialEq, Eq, Structural)]
pub struct LineRange {
    /// First line (inclusive).
    pub start: usize,
    /// Last line (inclusive).
    pub end: usize,
}

impl LineRange {
    /// A span from `start` to `end`.
    pub fn new(start: usize, end: usize) -> (r: Self)
        ensures
            r == (LineRange { start, end }),
    {
        LineRange { start, end }
    }
}

/// The parts of a tool's `tool_input` payload that capture reads.
#[derive(Debug, Clone, PartialEq, Eq)]
pub struct ToolInput {
    /// `file_path`, the edited file.
    pub file_path: Option<String>,
    /// `new_string`, the replacement text of an `Edit`.
    pub new_string: Option<String>,
    /// `edits`, a `MultiEdit`'s edits, each by its `new_string` (if it is a string).
    pub edits: Option<Vec<Option<String>>>,
}

/// Number of lines in a text (what `str::lines` counts).
pub open spec fn spec_line_count(s: Seq<char>) -> nat {
    lines(s).len()
}

/// The whole-file range `1..=lines`, none for empty content.
pub open spec fn spec_whole_file(s: Seq<char>) -> Option<LineRange> {
    if spec_line_count(s) == 0 {
        None
    } else {
        Some(LineRange { start: 1, end: spec_line_count(s) as usize })
    }
}

/// The span that the first occurrence of a non-empty `needle` occupies in
/// `content`: its starting line, plus one line per newline inside it.
pub open spec fn spec_span_of(content: Seq<char>, needle: Seq<char>) -> Option<LineRange> {
    if needle.len() == 0 || !contains(content, needle) {
        None
    } else {
        let k = choose|k: int| first_occurrence(content, needle, k);
        let start = count_char(content.subrange(0, k), '\n') + 1;
        Some(LineRange { start: start as usize, end: (start + count_char(needle, '\n')) as usize })
    }
}

/// An optional list as a sequence of at most one element.
pub open spec fn opt_seq(r: Option<LineRange>) -> Seq<LineRange> {
    match r {
        Some(x) => seq![x],
        None => seq![],
    }
}

/// The distinct spans of a `MultiEdit`'s edits, in order of first appearance.
pub open spec fn multi_spans(edits: Seq<Option<Seq<char>>>, content: Seq<char>) -> Seq<LineRange>
    decreases edits.len(),
{
    if edits.len() == 0 {
        seq![]
    } else {
        let prev = multi_spans(edits.drop_last(), content);
        match edits.last() {
            Some(n) => match spec_span_of(content, n) {
                Some(r) => if prev.contains(r) {
                    prev
                } else {
                    prev.push(r)
                },
                None => prev,
            },
            None => prev,
        }
    }
}

/// The edits of a `MultiEdit` payload as plain sequences.
pub open spec fn edits_view(edits: Seq<Option<String>>) -> Seq<Option<Seq<char>>> {
    edits.map_values(|e: Option<String>| match e {
        Some(s) => Some(s@),
        None => None,
    })
}

/// The spans a tool event touched, by tool:
/// `Write` covers the whole file; `Edit` the span of its `new_string`, else
/// the whole file; `MultiEdit` the distinct spans of its edits' `new_string`s,
/// else the whole file; any other tool nothing.
pub open spec fn spec_edit_ranges(tool: Seq<char>, input: ToolInput, content: Seq<char>) -> Seq<LineRange> {
    if tool == "Write"@ {
        opt_seq(spec_whole_file(content))
    } else if tool == "Edit"@ {
        let span = match input.new_string {
            Some(n) => spec_span_of(content, n@),
            None => None,
        };
        match span {
            Some(r) => seq![r],
            None => opt_seq(spec_whole_file(content)),
        }
    } else if tool == "MultiEdit"@ {
        let out = match input.edits {
            Some(es) => multi_spans(edits_view(es@), content),
            None => seq![],
        };
        if out.len() == 0 {
            opt_seq(spec_whole_file(content))
        } else {
            out
        }
    } else {
        seq![]
    }
}

/// Number of lines in `s` (zero for empty content, else at least one).
pub fn line_count(s: &str) -> (n: usize)
    ensures
        n == spec_line_count(s@),
{
    let v = chars_of(s);
    count_lines(&v)
}

/// The whole-file range for `content` (1..=lines), or `None` if empty.
pub fn whole_file(content: &str) -> (r: Option<LineRange>)
    ensures
        r == spec_whole_file(content@),
{
    let n = line_count(content);
    if n == 0 {
        None
    } else {
        Some(LineRange::new(1, n))
    }
}

proof fn lemma_first_occurrence_unique(s: Seq<char>, p: Seq<char>, a: int, b: int)
    requires
        first_occurrence(s, p, a),
        first_occurrence(s, p, b),
    ensures
        a == b,
{
    if a < b {
        assert(!first_occurrence(s, p, b));
    } else if b < a {
        assert(!first_occurrence(s, p, a));
    }
}

/// Locate `needle` in `content` and return the line span it occupies.
pub fn span_of(content: &str, needle: &str) -> (r: Option<LineRange>)
    requires
        content@.len() < usize::MAX,
    ensures
        r == spec_span_of(content@, needle@),
{
    let v = chars_of(content);
    let p = chars_of(needle);
    if p.len() == 0 {
        return None;
    }
    match find(&v, &p) {
        None => None,
        Some(idx) => {
            let before = count_char_prefix(&v, idx, '\n');
            let extra = count_char_prefix(&p, p.len(), '\n');
            proof {
                assert(p@.subrange(0, p@.len() as int) =~= p@);
                let k = choose|k: int| first_occurrence(v@, p@, k);
                lemma_first_occurrence_unique(v@, p@, k, idx as int);
            }
            let start = before + 1;
            Some(LineRange::new(start, start + extra))
        },
    }
}

/// Whether `out` already holds `r`.
fn holds(out: &Vec<LineRange>, r: LineRange) -> (b: bool)
    ensures
        b == out@.contains(r),
{
    let mut i: usize = 0;
    while i < out.len()
        invariant
            i <= out@.len(),
            forall|j: int| 0 <= j < i ==> out@[j] != r,
        decreases out@.len() - i,
    {
        let o = out[i];
        if o.start == r.start && o.end == r.end {
            assert(out@[i as int] == r);
            return true;
        }
        i += 1;
    }
    false
}

/// Extract line ranges for a `PostToolUse` event.
///
/// `content` is the file's content after the edit (read from disk by the
/// caller). Returns an empty vec for tools that don't touch a file.
pub fn edit_ranges(tool_name: &str, tool_input: &ToolInput, content: &str) -> (r: Vec<LineRange>)
    requires
        content@.len() < usize::MAX,
    ensures
        r@ == spec_edit_ranges(tool_name@, *tool_input, content@),
{
    if str_eq(tool_name, "Write") {
        match whole_file(content) {
            Some(w) => vec![w],
            None => Vec::new(),
        }
    } else if str_eq(tool_name, "Edit") {
        let span = match &tool_input.new_string {
            Some(n) => span_of(content, n.as_str()),
            None => None,
        };
        match span {
            Some(r) => vec![r],
            None => match whole_file(content) {
                Some(w) => vec![w],
                None => Vec::new(),
            },
        }
    } else if str_eq(tool_name, "MultiEdit") {
        let mut out: Vec<LineRange> = Vec::new();
        match &tool_input.edits {
            Some(edits) => {
                let ghost ev = edits_view(edits@);
                let mut i: usize = 0;
                while i < edits.len()
                    invariant
                        i <= edits@.len(),
                        content@.len() < usize::MAX,
                        ev == edits_view(edits@),
                        out@ == multi_spans(ev.subrange(0, i as int), content@),
                    decreases edits@.len() - i,
                {
                    assert(ev.subrange(0, i + 1).drop_last() =~= ev.subrange(0, i as int));
                    let span = match &edits[i] {
                        Some(n) => span_of(content, n.as_str()),
                        None => None,
                    };
                    match span {
                        Some(r) => {
                            if !holds(&out, r) {
                                out.push(r);
                            }
                        },
                        None => {},
                    }
                    i += 1;
                }
                assert(ev.subrange(0, edits@.len() as int) =~= ev);
            },
            None => {},
        }
        if out.len() == 0 {
            match whole_file(content) {
                Some(w) => vec![w],
                None => Vec::new(),
            }
        } else {
            out
        }
    } else {
        Vec::new()
    }
}

/// Capture never silently drops an edit: for every edit tool and any
/// non-empty file, some span is reported (the whole file at worst).
pub proof fn law_edit_never_dropped(tool: Seq<char>, input: ToolInput, content: Seq<char>)
    requires
        content.len() > 0,
        tool == "Write"@ || tool == "Edit"@ || tool == "MultiEdit"@,
    ensures
        spec_edit_ranges(tool, input, content).len() > 0,
{
    assert(lines(content).len() > 0);
}

/// Nothing is found in empty content.
proof fn lemma_multi_spans_empty(edits: Seq<Option<Seq<char>>>)
    ensures
        multi_spans(edits, seq![]) == Seq::<LineRange>::empty(),
    decreases edits.len(),
{
    if edits.len() > 0 {
        lemma_multi_spans_empty(edits.drop_last());
        match edits.last() {
            Some(n) => {
                assert(!contains(seq![], n) || n.len() == 0);
            },
            None => {},
        }
    }
}

/// A `MultiEdit`'s spans are listed once each.
proof fn lemma_multi_spans_distinct(edits: Seq<Option<Seq<char>>>, content: Seq<char>)
    ensures
        multi_spans(edits, content).no_duplicates(),
    decreases edits.len(),
{
    if edits.len() > 0 {
        lemma_multi_spans_distinct(edits.drop_last(), content);
        let a = multi_spans(edits.drop_last(), content);
        match edits.last() {
            Some(n) => match spec_span_of(content, n) {
                Some(r) => if !a.contains(r) {
                    let b = a.push(r);
                    assert forall|i: int, j: int| 0 <= i < b.len() && 0 <= j < b.len() && i != j implies b[i]
                        != b[j] by {
                        if i < a.len() && j < a.len() {
                            assert(b[i] == a[i] && b[j] == a[j]);
                        } else if i < a.len() {
                            assert(b[i] == a[i]);
                        } else {
                            assert(b[j] == a[j]);
                        }
                    }
                },
                None => {},
            },
            None => {},
        }
    }
}

/// What an edit reports, for every tool and content: nothing exactly when
/// the tool does not edit or the content is empty; a `Write` of non-empty
/// content the whole file, `1..=lines`; and never the same span twice.
pub proof fn law_edit_ranges_shape(tool: Seq<char>, input: ToolInput, content: Seq<char>)
    ensures
        (spec_edit_ranges(tool, input, content).len() == 0) == (!(tool == "Write"@ || tool == "Edit"@
            || tool == "MultiEdit"@) || content.len() == 0),
        tool == "Write"@ && content.len() > 0 ==> spec_edit_ranges(tool, input, content) == seq![
            LineRange { start: 1, end: spec_line_count(content) as usize },
        ],
        spec_edit_ranges(tool, input, content).no_duplicates(),
{
    if content.len() > 0 {
        assert(lines(content).len() > 0);
    } else {
        assert(lines(content).len() == 0);
        assert(content =~= Seq::<char>::empty());
        match input.new_string {
            Some(n) => {
                assert(!contains(content, n@) || n@.len() == 0);
            },
            None => {},
        }
        match input.edits {
            Some(es) => lemma_multi_spans_empty(edits_view(es@)),
            None => {},
        }
    }
    match input.edits {
        Some(es) => lemma_multi_spans_distinct(edits_view(es@), content),
        None => {},
    }
}

/// A `MultiEdit` reports exactly the spans of its edits: every edit whose
/// `new_string` is found contributes its span (the one an `Edit` with that
/// `new_string` reports), and every reported span is the span of one of its
/// edits.
pub proof fn law_multiedit_reports_each_edit_span(edits: Seq<Option<Seq<char>>>, content: Seq<char>)
    ensures
        forall|i: int|
            0 <= i < edits.len() && (#[trigger] edits[i]) is Some && spec_span_of(content, edits[i]->Some_0)
                is Some ==> multi_spans(edits, content).contains(spec_span_of(content, edits[i]->Some_0)->Some_0),
        forall|k: int|
            0 <= k < multi_spans(edits, content).len() ==> exists|i: int|
                0 <= i < edits.len() && #[trigger] edits[i] is Some && spec_span_of(content, edits[i]->Some_0)
                    == Some(#[trigger] multi_spans(edits, content)[k]),
    decreases edits.len(),
{
    if edits.len() > 0 {
        let p = edits.drop_last();
        law_multiedit_reports_each_edit_span(p, content);
        let a = multi_spans(p, content);
        let m = multi_spans(edits, content);
        assert forall|i: int|
            0 <= i < edits.len() && (#[trigger] edits[i]) is Some && spec_span_of(content, edits[i]->Some_0)
                is Some implies m.contains(spec_span_of(content, edits[i]->Some_0)->Some_0) by {
            let r = spec_span_of(content, edits[i]->Some_0)->Some_0;
            if i < edits.len() - 1 {
                assert(p[i] == edits[i]);
                assert(a.contains(r));
                let k = choose|k: int| 0 <= k < a.len() && a[k] == r;
                if m != a {
                    assert(m[k] == a[k]);
                }
            } else {
                if !a.contains(r) {
                    assert(m[a.len() as int] == r);
                }
            }
        }
        assert forall|k: int| 0 <= k < m.len() implies exists|i: int|
            0 <= i < edits.len() && #[trigger] edits[i] is Some && spec_span_of(content, edits[i]->Some_0)
                == Some(#[trigger] m[k]) by {
            if k < a.len() {
                assert(m[k] == a[k]);
                let i = choose|i: int|
                    0 <= i < p.len() && #[trigger] p[i] is Some && spec_span_of(content, p[i]->Some_0)
                        == Some(a[k]);
                assert(edits[i] == p[i]);
            } else {
                assert(edits[edits.len() - 1] == edits.last());
            }
        }
    }
}

/// A `MultiEdit` of one edit reports what an `Edit` with the same
/// `new_string` reports, for any content.
pub proof fn law_single_multiedit_is_an_edit(multi: ToolInput, edit: ToolInput, n: Seq<char>, content: Seq<char>)
    requires
        multi.edits matches Some(es) && edits_view(es@) == seq![Some(n)],
        edit.new_string matches Some(s) && s@ == n,
    ensures
        spec_edit_ranges("MultiEdit"@, multi, content) == spec_edit_ranges("Edit"@, edit, content),
{
    reveal_strlit("MultiEdit");
    reveal_strlit("Edit");
    reveal_strlit("Write");
    assert("MultiEdit"@.len() != "Write"@.len() && "MultiEdit"@.len() != "Edit"@.len());
    assert("Edit"@.len() != "Write"@.len());
    let ev = seq![Some(n)];
    assert(ev.drop_last() =~= Seq::<Option<Seq<char>>>::empty());
    assert(ev.last() == Some(n));
    assert(multi_spans(Seq::<Option<Seq<char>>>::empty(), content) == Seq::<LineRange>::empty());
}

/// Whether edit `i` of a `MultiEdit` is found and spans `r`.
pub open spec fn edit_spans(edits: Seq<Option<Seq<char>>>, content: Seq<char>, i: int, r: LineRange) -> bool {
    0 <= i < edits.len() && edits[i] is Some && spec_span_of(content, edits[i]->Some_0) == Some(r)
}

/// Span `x` belongs to an edit that comes before every edit of span `y`.
pub open spec fn span_before(edits: Seq<Option<Seq<char>>>, content: Seq<char>, x: LineRange, y: LineRange) -> bool {
    exists|i: int|
        #[trigger] edit_spans(edits, content, i, x) && forall|i2: int|
            0 <= i2 <= i ==> !#[trigger] edit_spans(edits, content, i2, y)
}

/// A `MultiEdit`'s spans come in the order of the edits: of two reported
/// spans, the earlier one belongs to an edit before every edit of the later.
pub proof fn law_multiedit_spans_in_edit_order(edits: Seq<Option<Seq<char>>>, content: Seq<char>)
    ensures
        forall|a: int, b: int|
            0 <= a < b < multi_spans(edits, content).len() ==> span_before(
                edits,
                content,
                #[trigger] multi_spans(edits, content)[a],
                #[trigger] multi_spans(edits, content)[b],
            ),
    decreases edits.len(),
{
    if edits.len() > 0 {
        let p = edits.drop_last();
        law_multiedit_spans_in_edit_order(p, content);
        law_multiedit_reports_each_edit_span(p, content);
        let d = multi_spans(p, content);
        let m = multi_spans(edits, content);
        assert forall|a: int, b: int| 0 <= a < b < m.len() implies span_before(edits, content, #[trigger] m[a], #[trigger] m[b]) by {
            assert(m[a] == d[a]);
            if b < d.len() {
                assert(m[b] == d[b]);
                assert(span_before(p, content, d[a], d[b]));
                let i = choose|i: int|
                    #[trigger] edit_spans(p, content, i, d[a]) && forall|i2: int| 0 <= i2 <= i ==> !#[trigger] edit_spans(p, content, i2, d[b]);
                assert forall|i2: int| 0 <= i2 <= i implies !#[trigger] edit_spans(edits, content, i2, m[b]) by {
                    if i2 < p.len() {
                        assert(edits[i2] == p[i2]);
                        assert(!edit_spans(p, content, i2, d[b]));
                    }
                }
                assert(edits[i] == p[i]);
                assert(edit_spans(edits, content, i, m[a]));
            } else {
                let r = m[b];
                assert(!d.contains(r));
                let i = choose|i: int| 0 <= i < p.len() && #[trigger] p[i] is Some && spec_span_of(content, p[i]->Some_0) == Some(d[a]);
                assert forall|i2: int| 0 <= i2 <= i implies !#[trigger] edit_spans(edits, content, i2, m[b]) by {
                    if edit_spans(edits, content, i2, m[b]) {
                        assert(edits[i2] == p[i2]);
                        assert(p[i2] is Some && spec_span_of(content, p[i2]->Some_0) is Some);
                        assert(d.contains(spec_span_of(content, p[i2]->Some_0)->Some_0));
                    }
                }
                assert(edits[i] == p[i]);
                assert(edit_spans(edits, content, i, m[a]));
            }
        }
    }
}

} // verus!
