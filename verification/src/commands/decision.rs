//! `tellme decision add`: which anchor a decision attaches to, which line it
//! targets, and the text the editor hands back.

use vstd::prelude::*;

use crate::analysis::VarFlow;
use crate::commands::hook::join_lines;
use crate::error::Error;
use crate::store::Anchor;
use crate::text::{
    join, lines, owned, push_char, push_dec, push_str, split_lines, str_eq, strings_view, trim, trimmed,
};

verus! {

/// An anchor a new decision can reuse: recorded at `commit`, covering `line`.
pub open spec fn reusable(a: Anchor, line: i64, commit: Seq<char>) -> bool {
    a.commit_id@ == commit && a.line_start <= line && a.line_end >= line
}

/// The first reusable anchor among a file's anchors, by position; none when
/// no anchor qualifies (a new one is created then).
pub fn find_anchor(anchors: &Vec<Anchor>, line: i64, commit: &str) -> (r: Option<usize>)
    ensures
        match r {
            Some(i) => i < anchors@.len() && reusable(anchors@[i as int], line, commit@) && forall|
                j: int,
            | 0 <= j < i ==> !reusable(#[trigger] anchors@[j], line, commit@),
            None => forall|j: int|
                0 <= j < anchors@.len() ==> !reusable(#[trigger] anchors@[j], line, commit@),
        },
{
    let mut i: usize = 0;
    while i < anchors.len()
        invariant
            i <= anchors@.len(),
            forall|j: int| 0 <= j < i ==> !reusable(#[trigger] anchors@[j], line, commit@),
        decreases anchors@.len() - i,
    {
        let a = &anchors[i];
        if str_eq(a.commit_id.as_str(), commit) && a.line_start <= line && a.line_end >= line {
            return Some(i);
        }
        i += 1;
    }
    None
}

/// Where a decision's target line comes from.
#[derive(Debug, PartialEq, Eq)]
pub enum LineSource {
    /// An explicit `--line`.
    Line(usize),
    /// The first line of a variable's lifecycle (`--var`).
    Var(String),
}

/// The target line: `--line` wins over `--var`; one of them is required.
pub fn line_source(line: Option<usize>, var: Option<&str>) -> (r: Result<LineSource, Error>)
    ensures
        match (line, var) {
            (Some(l), _) => r == Ok::<LineSource, Error>(LineSource::Line(l)),
            (None, Some(v)) => r matches Ok(LineSource::Var(s)) && s@ == v@,
            (None, None) => r matches Err(Error::Other(m)) && m@
                == "pass --line <N> or --var <name>"@,
        },
{
    match (line, var) {
        (Some(l), _) => Ok(LineSource::Line(l)),
        (None, Some(v)) => Ok(LineSource::Var(owned(v))),
        (None, None) => Err(Error::Other(owned("pass --line <N> or --var <name>"))),
    }
}

/// The first line of a variable's lifecycle, or an error naming the
/// variable when it never occurs.
pub fn first_event_line(flow: &VarFlow, var: &str) -> (r: Result<usize, Error>)
    ensures
        flow.events@.len() > 0 ==> r == Ok::<usize, Error>(flow.events@[0].line),
        flow.events@.len() == 0 ==> (r matches Err(Error::Other(m)) && m@ == "no occurrences of `"@
            + var@ + "`"@),
{
    if flow.events.len() > 0 {
        Ok(flow.events[0].line)
    } else {
        let mut m = owned("no occurrences of `");
        push_str(&mut m, var);
        push_str(&mut m, "`");
        Err(Error::Other(m))
    }
}

/// The text the decision editor starts from.
pub fn decision_template(rel: &str, line: usize) -> (r: String)
    ensures
        r@ == "\n# Write the decision (why) for "@ + rel@ + ":"@ + crate::text::dec(line as nat)
            + ".\n# Lines starting with # are ignored; an empty file aborts.\n"@,
{
    let mut r = owned("\n# Write the decision (why) for ");
    push_str(&mut r, rel);
    push_str(&mut r, ":");
    push_dec(&mut r, line);
    push_str(&mut r, ".\n# Lines starting with # are ignored; an empty file aborts.\n");
    r
}

/// A comment line of the editor buffer: its first non-blank character is `#`.
pub open spec fn is_comment(l: Seq<char>) -> bool {
    trim(l).len() > 0 && trim(l)[0] == '#'
}

/// The lines that are not comments, in order.
pub open spec fn uncommented(ls: Seq<Seq<char>>) -> Seq<Seq<char>>
    decreases ls.len(),
{
    if ls.len() == 0 {
        seq![]
    } else if is_comment(ls.last()) {
        uncommented(ls.drop_last())
    } else {
        uncommented(ls.drop_last()).push(ls.last())
    }
}

/// The decision an editor buffer holds: its non-comment lines, joined with
/// newlines and trimmed.
pub open spec fn spec_decision_text(raw: Seq<char>) -> Seq<char> {
    trim(join_lines(uncommented(lines(raw))))
}

/// The decision text of an editor buffer.
pub fn decision_text(raw: &str) -> (r: String)
    ensures
        r@ == spec_decision_text(raw@),
{
    let ls = split_lines(raw);
    let ghost lv = strings_view(ls@);
    let mut out = String::new();
    let mut count: usize = 0;
    let mut i: usize = 0;
    while i < ls.len()
        invariant
            i <= ls@.len(),
            lv == strings_view(ls@),
            lv == lines(raw@),
            out@ == join_lines(uncommented(lv.subrange(0, i as int))),
            count == uncommented(lv.subrange(0, i as int)).len(),
            count <= i,
        decreases ls@.len() - i,
    {
        let ghost prev = lv.subrange(0, i as int);
        assert(lv.subrange(0, i + 1).drop_last() =~= prev);
        let l = ls[i].as_str();
        let t = trimmed(l);
        let tv = crate::text::chars_of(t.as_str());
        let comment = tv.len() > 0 && tv[0] == '#';
        assert(lv[i as int] == l@);
        assert(lv.subrange(0, i + 1).last() == l@);
        assert(comment == is_comment(l@));
        if !comment {
            if count > 0 {
                push_char(&mut out, '\n');
            }
            push_str(&mut out, l);
            proof {
                let u = uncommented(prev);
                assert(u.push(l@).drop_last() =~= u);
                if u.len() == 0 {
                    assert(join_lines(u) =~= Seq::<char>::empty());
                    assert(u.push(l@)[0] == l@);
                }
            }
            count += 1;
        }
        i += 1;
    }
    assert(lv.subrange(0, ls@.len() as int) =~= lv);
    trimmed(out.as_str())
}

/// The decision to store: the text trimmed, refused when blank.
pub fn decision_body(text: &str) -> (r: Result<String, Error>)
    ensures
        trim(text@).len() > 0 ==> (r matches Ok(s) && s@ == trim(text@)),
        trim(text@).len() == 0 ==> (r matches Err(Error::Other(m)) && m@
            == "aborted: empty decision"@),
{
    let t = trimmed(text);
    if t.as_str().unicode_len() == 0 {
        Err(Error::Other(owned("aborted: empty decision")))
    } else {
        Ok(t)
    }
}

} // verus!
