//! `tellme flow`: which symbol is asked about, the line span its history
//! covers, and the text listings of a variable's lifecycle, a function's
//! connections and a symbol's history.

use vstd::prelude::*;

use crate::analysis::{spec_label, Call, FunctionFlow, VarFlow};
use crate::blame::{Entry, WhyResult};
use crate::error::Error;
use crate::text::{
    dec, join, owned, push_dec, push_repeat, push_str, repeat_char, strings_view,
};

verus! {

/// The symbol a `flow` command is about.
#[derive(Debug, PartialEq, Eq)]
pub enum Subject {
    /// `--var <name>`.
    Var(String),
    /// `--function <name>`.
    Function(String),
}

/// Exactly one of `--var` and `--function` names the subject.
pub fn subject(var: Option<&str>, function: Option<&str>) -> (r: Result<Subject, Error>)
    ensures
        match (var, function) {
            (Some(v), None) => r matches Ok(Subject::Var(s)) && s@ == v@,
            (None, Some(f)) => r matches Ok(Subject::Function(s)) && s@ == f@,
            (Some(_), Some(_)) => r matches Err(Error::Other(m)) && m@
                == "pass only one of --var or --function"@,
            (None, None) => r matches Err(Error::Other(m)) && m@
                == "pass --var <name> or --function <name>"@,
        },
{
    match (var, function) {
        (Some(v), None) => Ok(Subject::Var(owned(v))),
        (None, Some(f)) => Ok(Subject::Function(owned(f))),
        (Some(_), Some(_)) => Err(Error::Other(owned("pass only one of --var or --function"))),
        (None, None) => Err(Error::Other(owned("pass --var <name> or --function <name>"))),
    }
}

/// The smallest of some line numbers.
pub open spec fn min_line(s: Seq<usize>) -> usize
    decreases s.len(),
{
    if s.len() <= 1 {
        if s.len() == 1 { s[0] } else { 0 }
    } else if s.last() < min_line(s.drop_last()) {
        s.last()
    } else {
        min_line(s.drop_last())
    }
}

/// The largest of some line numbers.
pub open spec fn max_line(s: Seq<usize>) -> usize
    decreases s.len(),
{
    if s.len() <= 1 {
        if s.len() == 1 { s[0] } else { 0 }
    } else if s.last() > max_line(s.drop_last()) {
        s.last()
    } else {
        max_line(s.drop_last())
    }
}

/// The lines a variable's history covers: from its first to its last
/// event line; line 1 when it has none.
pub fn history_span(lines: &Vec<usize>) -> (r: (usize, usize))
    ensures
        lines@.len() == 0 ==> r == (1usize, 1usize),
        lines@.len() > 0 ==> r == (min_line(lines@), max_line(lines@)),
{
    if lines.len() == 0 {
        return (1, 1);
    }
    let mut lo = lines[0];
    let mut hi = lines[0];
    let mut i: usize = 1;
    assert(lines@.subrange(0, 1) =~= seq![lines@[0]]);
    while i < lines.len()
        invariant
            1 <= i <= lines@.len(),
            lo == min_line(lines@.subrange(0, i as int)),
            hi == max_line(lines@.subrange(0, i as int)),
        decreases lines@.len() - i,
    {
        assert(lines@.subrange(0, i + 1).drop_last() =~= lines@.subrange(0, i as int));
        if lines[i] < lo {
            lo = lines[i];
        }
        if lines[i] > hi {
            hi = lines[i];
        }
        i += 1;
    }
    assert(lines@.subrange(0, lines@.len() as int) =~= lines@);
    (lo, hi)
}

/// How a history names its subject.
pub fn history_label(s: &Subject) -> (r: String)
    ensures
        r@ == match s {
            Subject::Var(v) => "variable "@ + v@,
            Subject::Function(f) => "function "@ + f@,
        },
{
    match s {
        Subject::Var(v) => {
            let mut r = owned("variable ");
            push_str(&mut r, v.as_str());
            r
        },
        Subject::Function(f) => {
            let mut r = owned("function ");
            push_str(&mut r, f.as_str());
            r
        },
    }
}

/// The marker of the `i`-th of the history entries whose last index is
/// `last`: the first created the lines, the last modified them last.
pub fn history_marker(i: usize, last: usize) -> (r: &'static str)
    ensures
        r@ == if i == 0 {
            "CREATED      "@
        } else if i == last {
            "LAST MODIFIED"@
        } else {
            "MODIFIED     "@
        },
{
    if i == 0 {
        "CREATED      "
    } else if i == last {
        "LAST MODIFIED"
    } else {
        "MODIFIED     "
    }
}

/// `s` padded with spaces on the right to `w` characters (`{:<w}`).
pub open spec fn padded(s: Seq<char>, w: nat) -> Seq<char> {
    if s.len() < w {
        s + repeat_char(' ', (w - s.len()) as nat)
    } else {
        s
    }
}

fn push_padded(out: &mut String, s: &str, w: usize)
    ensures
        final(out)@ == old(out)@ + padded(s@, w as nat),
{
    push_str(out, s);
    let n = s.unicode_len();
    if n < w {
        push_repeat(out, ' ', w - n);
    }
    proof {
        if !(s@.len() < w) {
            assert(old(out)@ + s@ == old(out)@ + padded(s@, w as nat));
        }
    }
}

fn push_dec_padded(out: &mut String, n: usize, w: usize)
    ensures
        final(out)@ == old(out)@ + padded(dec(n as nat), w as nat),
{
    let mut d = String::new();
    push_dec(&mut d, n);
    push_padded(out, d.as_str(), w);
}

/// The scope a variable lives in, as listed.
pub open spec fn scope_text(function: Option<Seq<char>>) -> Seq<char> {
    match function {
        Some(f) => "function "@ + f,
        None => "module scope"@,
    }
}

/// One listed event: its label and line number in aligned columns, then the
/// source line.
pub open spec fn event_line(e: crate::analysis::VarEvent) -> Seq<char> {
    "  ▸ "@ + padded(spec_label(e.kind), 13) + " line "@ + padded(dec(e.line as nat), 4) + " "@
        + e.text@
}

/// The text listing of a variable's lifecycle, line by line: a header, a
/// blank line, and one line per event.
pub open spec fn spec_var_text(flow: VarFlow) -> Seq<Seq<char>> {
    seq![
        "Variable: "@ + flow.name@ + "   ("@ + scope_text(crate::blame::opt_chars(flow.function))
            + ")"@,
        Seq::empty(),
    ] + flow.events@.map_values(|e: crate::analysis::VarEvent| event_line(e))
}

/// The text listing of a variable's lifecycle.
pub fn var_text(flow: &VarFlow) -> (r: Vec<String>)
    ensures
        strings_view(r@) == spec_var_text(*flow),
{
    let mut out: Vec<String> = Vec::new();
    let mut head = owned("Variable: ");
    push_str(&mut head, flow.name.as_str());
    push_str(&mut head, "   (");
    match &flow.function {
        Some(f) => {
            push_str(&mut head, "function ");
            push_str(&mut head, f.as_str());
        },
        None => push_str(&mut head, "module scope"),
    }
    push_str(&mut head, ")");
    let ghost fopt = crate::blame::opt_chars(flow.function);
    assert(head@ == "Variable: "@ + flow.name@ + "   ("@ + scope_text(fopt) + ")"@);
    push_line(&mut out, head);
    push_line(&mut out, String::new());
    assert(strings_view(out@) =~= seq![
        "Variable: "@ + flow.name@ + "   ("@ + scope_text(fopt) + ")"@,
        Seq::<char>::empty(),
    ]);
    let ghost top = strings_view(out@);
    let mut i: usize = 0;
    while i < flow.events.len()
        invariant
            i <= flow.events@.len(),
            out@.len() == 2 + i,
            strings_view(out@) == top + flow.events@.subrange(0, i as int).map_values(
                |e: crate::analysis::VarEvent| event_line(e),
            ),
        decreases flow.events@.len() - i,
    {
        let e = &flow.events[i];
        let mut l = owned("  ▸ ");
        push_padded(&mut l, e.kind.label(), 13);
        push_str(&mut l, " line ");
        push_dec_padded(&mut l, e.line, 4);
        push_str(&mut l, " ");
        push_str(&mut l, e.text.as_str());
        assert(l@ == event_line(flow.events@[i as int]));
        let ghost before = out@;
        out.push(l);
        assert(strings_view(out@) =~= strings_view(before).push(event_line(flow.events@[i as int])));
        assert(flow.events@.subrange(0, i + 1).map_values(
            |e: crate::analysis::VarEvent| event_line(e),
        ) =~= flow.events@.subrange(0, i as int).map_values(
            |e: crate::analysis::VarEvent| event_line(e),
        ).push(event_line(flow.events@[i as int])));
        i += 1;
    }
    assert(flow.events@.subrange(0, flow.events@.len() as int) =~= flow.events@);
    assert(strings_view(out@) =~= spec_var_text(*flow));
    out
}

/// One listed call: `    • name (line N)`.
pub open spec fn call_line(c: Call) -> Seq<char> {
    "    • "@ + c.name@ + " (line "@ + dec(c.line as nat) + ")"@
}

/// A list of calls, or the placeholder when there are none.
pub open spec fn calls_text(cs: Seq<Call>, none: Seq<char>) -> Seq<Seq<char>> {
    if cs.len() == 0 {
        seq![none]
    } else {
        cs.map_values(|c: Call| call_line(c))
    }
}

/// The text listing of a function's connections and signature.
pub open spec fn spec_function_text(f: FunctionFlow) -> Seq<Seq<char>> {
    seq!["Function: "@ + f.name@ + "   (line "@ + dec(f.line as nat) + ")"@, Seq::empty(), "  CALLED BY"@]
        + calls_text(f.callers@, "    (no callers in this file)"@) + seq![Seq::empty(), "  CALLS"@]
        + calls_text(f.callees@, "    (none)"@) + seq![
        Seq::empty(),
        "  SIGNATURE"@,
        "    in:  "@ + join(strings_view(f.params@), ", "@),
        "    out: "@ + match f.returns {
            Some(r) => r@,
            None => "(unannotated)"@,
        },
    ]
}

fn push_calls(out: &mut Vec<String>, cs: &Vec<Call>, none: &str)
    ensures
        strings_view(final(out)@) == strings_view(old(out)@) + calls_text(cs@, none@),
{
    if cs.len() == 0 {
        let ghost before = out@;
        out.push(owned(none));
        assert(strings_view(out@) =~= strings_view(before) + seq![none@]);
        return;
    }
    let ghost start = strings_view(out@);
    let mut i: usize = 0;
    while i < cs.len()
        invariant
            i <= cs@.len(),
            strings_view(out@) == start + cs@.subrange(0, i as int).map_values(|c: Call| call_line(c)),
        decreases cs@.len() - i,
    {
        let c = &cs[i];
        let mut l = owned("    • ");
        push_str(&mut l, c.name.as_str());
        push_str(&mut l, " (line ");
        push_dec(&mut l, c.line);
        push_str(&mut l, ")");
        let ghost before = out@;
        out.push(l);
        assert(strings_view(out@) =~= strings_view(before).push(call_line(cs@[i as int])));
        assert(cs@.subrange(0, i + 1).map_values(|c: Call| call_line(c)) =~= cs@.subrange(
            0,
            i as int,
        ).map_values(|c: Call| call_line(c)).push(call_line(cs@[i as int])));
        i += 1;
    }
    assert(cs@.subrange(0, cs@.len() as int) =~= cs@);
}

fn push_line(out: &mut Vec<String>, l: String)
    ensures
        strings_view(final(out)@) == strings_view(old(out)@).push(l@),
{
    let ghost before = out@;
    out.push(l);
    assert(strings_view(out@) =~= strings_view(before).push(l@));
}

/// The text listing of a function's connections and signature.
pub fn function_text(f: &FunctionFlow) -> (r: Vec<String>)
    ensures
        strings_view(r@) == spec_function_text(*f),
{
    let mut out: Vec<String> = Vec::new();
    let mut head = owned("Function: ");
    push_str(&mut head, f.name.as_str());
    push_str(&mut head, "   (line ");
    push_dec(&mut head, f.line);
    push_str(&mut head, ")");
    push_line(&mut out, head);
    push_line(&mut out, String::new());
    push_line(&mut out, owned("  CALLED BY"));
    push_calls(&mut out, &f.callers, "    (no callers in this file)");
    push_line(&mut out, String::new());
    push_line(&mut out, owned("  CALLS"));
    push_calls(&mut out, &f.callees, "    (none)");
    push_line(&mut out, String::new());
    push_line(&mut out, owned("  SIGNATURE"));
    let mut sig = owned("    in:  ");
    let params = crate::text::join_strings(&f.params, ", ");
    push_str(&mut sig, params.as_str());
    push_line(&mut out, sig);
    let mut ret = owned("    out: ");
    match &f.returns {
        Some(r) => push_str(&mut ret, r.as_str()),
        None => push_str(&mut ret, "(unannotated)"),
    }
    push_line(&mut out, ret);
    assert(strings_view(out@) =~= spec_function_text(*f));
    out
}

/// The lines of the `i`-th history entry whose last index is `last`.
pub open spec fn history_entry_lines(e: crate::blame::EntryView, i: int, last: int) -> Seq<Seq<char>> {
    seq![
        "  ● "@ + (if i == 0 {
            "CREATED      "@
        } else if i == last {
            "LAST MODIFIED"@
        } else {
            "MODIFIED     "@
        }) + "  "@ + crate::commands::why::short_id(e.commit_id) + "  "@ + e.commit_summary + "  ["@
            + crate::commands::why::name_or(e.session, "-"@) + "]"@,
        "    PROMPT:   "@ + e.prompt,
    ] + crate::commands::why::prefixed(e.decisions, "    DECISION: "@)
}

/// The lines of the first `k` history entries.
pub open spec fn history_entries(es: Seq<crate::blame::EntryView>, k: nat) -> Seq<Seq<char>>
    decreases k,
{
    if k == 0 || k > es.len() {
        seq![]
    } else {
        history_entries(es, (k - 1) as nat) + history_entry_lines(
            es[k - 1],
            k - 1,
            es.len() - 1,
        )
    }
}

/// `flow --history`'s text listing: a header naming the subject and file, a
/// blank line, then why there is no history, or the history oldest first
/// with the creating and the last modifying entry marked.
pub open spec fn spec_history_text(label: Seq<char>, rel: Seq<char>, r: WhyResult) -> Seq<Seq<char>> {
    seq!["History: "@ + label + "   ("@ + rel + ")"@, Seq::empty()] + if !r.committed {
        seq!["  These lines aren't committed yet — no history."@]
    } else if r.entries@.len() == 0 {
        seq!["  No recorded prompts or decisions for these lines."@]
    } else {
        history_entries(crate::commands::why::entries_view(r), r.entries@.len())
    }
}

/// `flow --history`'s text listing, line by line.
pub fn history_text(label: &str, rel: &str, r: &WhyResult) -> (out: Vec<String>)
    ensures
        strings_view(out@) == spec_history_text(label@, rel@, *r),
{
    let mut out: Vec<String> = Vec::new();
    let mut head = owned("History: ");
    push_str(&mut head, label);
    push_str(&mut head, "   (");
    push_str(&mut head, rel);
    push_str(&mut head, ")");
    push_line(&mut out, head);
    push_line(&mut out, String::new());
    if !r.committed {
        push_line(&mut out, owned("  These lines aren't committed yet — no history."));
    } else if r.entries.len() == 0 {
        push_line(&mut out, owned("  No recorded prompts or decisions for these lines."));
    } else {
        let ghost head_lines = strings_view(out@);
        let ghost es = crate::commands::why::entries_view(*r);
        let last = r.entries.len() - 1;
        let mut i: usize = 0;
        while i < r.entries.len()
            invariant
                i <= r.entries@.len(),
                last == r.entries@.len() - 1,
                es == crate::commands::why::entries_view(*r),
                strings_view(out@) == head_lines + history_entries(es, i as nat),
            decreases r.entries@.len() - i,
        {
            let e = &r.entries[i];
            let mut l = owned("  ● ");
            push_str(&mut l, history_marker(i, last));
            push_str(&mut l, "  ");
            let short = crate::commands::why::short_commit(e.commit_id.as_str());
            push_str(&mut l, short.as_str());
            push_str(&mut l, "  ");
            push_str(&mut l, e.commit_summary.as_str());
            push_str(&mut l, "  [");
            match &e.session {
                Some(s) => push_str(&mut l, s.as_str()),
                None => push_str(&mut l, "-"),
            }
            push_str(&mut l, "]");
            push_line(&mut out, l);
            let mut p = owned("    PROMPT:   ");
            push_str(&mut p, e.prompt.as_str());
            push_line(&mut out, p);
            crate::commands::why::push_prefixed(&mut out, &e.decisions, "    DECISION: ");
            assert(es[i as int] == e@);
            assert(strings_view(out@) =~= head_lines + history_entries(es, (i + 1) as nat));
            i += 1;
        }
    }
    assert(strings_view(out@) =~= spec_history_text(label@, rel@, *r));
    out
}

} // verus!
