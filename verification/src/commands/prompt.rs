//! `tellme prompt add` / `tellme prompt list`: the listing snippet.

use vstd::prelude::*;

use crate::error::Error;
use crate::store::{Anchor, PendingEdit};
use crate::text::{
    chars_of, dec, lines, next_char, owned, push_char, push_dec, push_dec_i64, push_str, str_eq,
    string_of, trim, trim_range, trimmed,
};

verus! {

/// The first line of a text (empty when there is none).
pub open spec fn first_line(text: Seq<char>) -> Seq<char> {
    if lines(text).len() > 0 {
        lines(text)[0]
    } else {
        seq![]
    }
}

/// The one-line listing form of a prompt: its first line trimmed, cut to 77
/// characters plus `…` when longer than 80.
pub open spec fn spec_snippet(text: Seq<char>) -> Seq<char> {
    let first = trim(first_line(text));
    if first.len() > 80 {
        first.subrange(0, 77).push('…')
    } else {
        first
    }
}

/// First line of `text`, truncated for a one-line listing.
pub fn snippet(text: &str) -> (r: String)
    ensures
        r@ == spec_snippet(text@),
        r@.len() <= 80,
{
    let v = chars_of(text);
    let n = v.len();
    let (a, b) = if n == 0 {
        (0, 0)
    } else {
        let k = next_char(&v, 0, n, '\n');
        let e = crate::text::line_end(&v, 0, k);
        proof {
            crate::text::lemma_lines_step(v@, 0, k as int);
            assert(v@.subrange(0, n as int) =~= v@);
        }
        (0, e)
    };
    proof {
        if n == 0 {
            assert(lines(v@) == Seq::<Seq<char>>::empty());
        }
    }
    assert(v@.subrange(a as int, b as int) == first_line(text@));
    let (ta, tb) = trim_range(&v, a, b);
    if tb - ta > 80 {
        let mut r = string_of(&v, ta, ta + 77);
        push_char(&mut r, '…');
        assert(v@.subrange(ta as int, ta + 77) =~= v@.subrange(ta as int, tb as int).subrange(0, 77));
        r
    } else {
        string_of(&v, ta, tb)
    }
}

/// A signed number in decimal.
pub open spec fn i64_text(n: i64) -> Seq<char> {
    if n < 0 {
        seq!['-'] + dec((-n) as nat)
    } else {
        dec(n as nat)
    }
}

/// A located line range: `file:start-end`.
pub open spec fn range_text(file: Seq<char>, start: i64, end: i64) -> Seq<char> {
    file + ":"@ + i64_text(start) + "-"@ + i64_text(end)
}

fn push_range(out: &mut String, file: &str, start: i64, end: i64)
    ensures
        final(out)@ == old(out)@ + range_text(file@, start, end),
{
    push_str(out, file);
    push_str(out, ":");
    push_dec_i64(out, start);
    push_str(out, "-");
    push_dec_i64(out, end);
}

/// Where a listed prompt points: committed once an anchor holds its edit
/// (the first anchor then), else pending at its first captured edit, else
/// nowhere yet.
pub fn prompt_location(anchors: &Vec<Anchor>, pending: &Vec<PendingEdit>) -> (r: (bool, String))
    ensures
        r.0 == (anchors@.len() > 0),
        r.1@ == if anchors@.len() > 0 {
            range_text(anchors@[0].file@, anchors@[0].line_start, anchors@[0].line_end)
        } else if pending@.len() > 0 {
            range_text(pending@[0].file@, pending@[0].line_start, pending@[0].line_end)
        } else {
            "(no location yet)"@
        },
{
    if anchors.len() > 0 {
        let a = &anchors[0];
        let mut s = String::new();
        push_range(&mut s, a.file.as_str(), a.line_start, a.line_end);
        (true, s)
    } else if pending.len() > 0 {
        let e = &pending[0];
        let mut s = String::new();
        push_range(&mut s, e.file.as_str(), e.line_start, e.line_end);
        (false, s)
    } else {
        (false, owned("(no location yet)"))
    }
}

/// Whether a prompt touched `want`: one of its anchors or captured edits is
/// in that file.
pub fn prompt_touches(anchors: &Vec<Anchor>, pending: &Vec<PendingEdit>, want: &str) -> (b: bool)
    ensures
        b == ((exists|i: int| 0 <= i < anchors@.len() && #[trigger] anchors@[i].file@ == want@)
            || (exists|i: int| 0 <= i < pending@.len() && #[trigger] pending@[i].file@ == want@)),
{
    let mut i: usize = 0;
    while i < anchors.len()
        invariant
            i <= anchors@.len(),
            forall|j: int| 0 <= j < i ==> #[trigger] anchors@[j].file@ != want@,
        decreases anchors@.len() - i,
    {
        if str_eq(anchors[i].file.as_str(), want) {
            return true;
        }
        i += 1;
    }
    let mut k: usize = 0;
    while k < pending.len()
        invariant
            k <= pending@.len(),
            forall|j: int| 0 <= j < anchors@.len() ==> #[trigger] anchors@[j].file@ != want@,
            forall|j: int| 0 <= j < k ==> #[trigger] pending@[j].file@ != want@,
        decreases pending@.len() - k,
    {
        if str_eq(pending[k].file.as_str(), want) {
            return true;
        }
        k += 1;
    }
    false
}

/// How a listed prompt's session is shown: its label, else its external id,
/// else `?`.
pub fn session_name(label: Option<String>, external_id: Option<String>) -> (r: String)
    ensures
        r@ == match (label, external_id) {
            (Some(l), _) => l@,
            (None, Some(e)) => e@,
            (None, None) => "?"@,
        },
{
    match label {
        Some(l) => l,
        None => match external_id {
            Some(e) => e,
            None => owned("?"),
        },
    }
}

/// The tally under the prompt list.
pub fn list_summary(committed: usize, pending: usize) -> (r: String)
    ensures
        r@ == dec(committed as nat) + " committed, "@ + dec(pending as nat) + " pending"@,
{
    let mut r = String::new();
    push_dec(&mut r, committed);
    push_str(&mut r, " committed, ");
    push_dec(&mut r, pending);
    push_str(&mut r, " pending");
    r
}

/// A manually recorded prompt must not be blank.
pub fn check_prompt_text(text: &str) -> (r: Result<(), Error>)
    ensures
        trim(text@).len() > 0 ==> r is Ok,
        trim(text@).len() == 0 ==> (r matches Err(Error::Other(m)) && m@ == "prompt text is empty"@),
{
    let t = trimmed(text);
    if t.as_str().unicode_len() == 0 {
        Err(Error::Other(owned("prompt text is empty")))
    } else {
        Ok(())
    }
}

/// The session a manual prompt goes to: the one named, else `manual`.
pub fn manual_session(session: Option<&str>) -> (r: &str)
    ensures
        r@ == match session {
            Some(s) => s@,
            None => "manual"@,
        },
{
    match session {
        Some(s) => s,
        None => "manual",
    }
}

/// What `prompt add` reports.
pub fn recorded_message(rel: &str, start: i64, end: i64, label: &str) -> (r: String)
    ensures
        r@ == "Recorded prompt for "@ + range_text(rel@, start, end) + " (session \""@ + label@
            + "\")"@,
{
    let mut r = owned("Recorded prompt for ");
    push_range(&mut r, rel, start, end);
    push_str(&mut r, " (session \"");
    push_str(&mut r, label);
    push_str(&mut r, "\")");
    r
}

/// One listed prompt: whether it is committed, its session, where it
/// points, and its text.
#[derive(Debug, Clone, PartialEq, Eq)]
pub struct Row {
    /// Anchored (committed) rather than pending.
    pub committed: bool,
    /// Session name.
    pub session: String,
    /// `file:start-end`, or a placeholder.
    pub location: String,
    /// The prompt text.
    pub text: String,
}

/// `s` in the ANSI color `code` when color is on.
pub open spec fn paint(s: Seq<char>, code: Seq<char>, color: bool) -> Seq<char> {
    if color {
        "\x1b["@ + code + "m"@ + s + "\x1b[0m"@
    } else {
        s
    }
}

/// The lines of one listed prompt: in full, a header and the text indented
/// line by line, then a blank line; else a header with the text's snippet.
pub open spec fn row_lines(r: Row, marker: Seq<char>, code: Seq<char>, full: bool, color: bool) -> Seq<
    Seq<char>,
> {
    let head = marker + " "@ + r.location@ + "  ["@ + r.session@ + "]"@;
    if full {
        seq![paint(head, code, color)] + crate::commands::why::prefixed(lines(r.text@), "      "@)
            + seq![Seq::<char>::empty()]
    } else {
        seq![paint(head + "  "@ + spec_snippet(r.text@), code, color)]
    }
}

/// The lines of a group of listed prompts, in order.
pub open spec fn group_lines(
    rows: Seq<Row>,
    marker: Seq<char>,
    code: Seq<char>,
    full: bool,
    color: bool,
) -> Seq<Seq<char>>
    decreases rows.len(),
{
    if rows.len() == 0 {
        seq![]
    } else {
        group_lines(rows.drop_last(), marker, code, full, color) + row_lines(
            rows.last(),
            marker,
            code,
            full,
            color,
        )
    }
}

/// Committed rows.
pub open spec fn is_committed() -> spec_fn(Row) -> bool {
    |r: Row| r.committed
}

/// Pending rows.
pub open spec fn is_pending() -> spec_fn(Row) -> bool {
    |r: Row| !r.committed
}

/// The prompt list, git-status style: committed prompts (green) first, then
/// pending ones (red), then the tally.
pub open spec fn spec_status_list(rows: Seq<Row>, full: bool, color: bool) -> Seq<Seq<char>> {
    if rows.len() == 0 {
        seq!["No prompts recorded yet."@]
    } else {
        let c = rows.filter(is_committed());
        let p = rows.filter(is_pending());
        (if c.len() > 0 {
            seq!["Committed prompts:"@] + group_lines(c, "  ●"@, "32"@, full, color)
        } else {
            seq![]
        }) + (if p.len() > 0 {
            (if c.len() > 0 {
                seq![Seq::<char>::empty()]
            } else {
                seq![]
            }) + seq!["Pending prompts (not yet committed — commit to anchor):"@] + group_lines(
                p,
                "  ○"@,
                "31"@,
                full,
                color,
            )
        } else {
            seq![]
        }) + seq![
            Seq::<char>::empty(),
            dec(c.len()) + " committed, "@ + dec(p.len()) + " pending"@,
        ]
    }
}

fn push_painted(out: &mut String, s: &str, code: &str, color: bool)
    ensures
        final(out)@ == old(out)@ + paint(s@, code@, color),
{
    if color {
        push_str(out, "\x1b[");
        push_str(out, code);
        push_str(out, "m");
        push_str(out, s);
        push_str(out, "\x1b[0m");
    } else {
        push_str(out, s);
    }
}

fn push_row(out: &mut Vec<String>, r: &Row, marker: &str, code: &str, full: bool, color: bool)
    ensures
        crate::text::strings_view(final(out)@) == crate::text::strings_view(old(out)@) + row_lines(
            *r,
            marker@,
            code@,
            full,
            color,
        ),
{
    let mut head = owned(marker);
    push_str(&mut head, " ");
    push_str(&mut head, r.location.as_str());
    push_str(&mut head, "  [");
    push_str(&mut head, r.session.as_str());
    push_str(&mut head, "]");
    let ghost hv = marker@ + " "@ + r.location@ + "  ["@ + r.session@ + "]"@;
    assert(head@ =~= hv);
    if full {
        let mut l = String::new();
        push_painted(&mut l, head.as_str(), code, color);
        crate::commands::why::push_line(out, l);
        let ls = crate::text::split_lines(r.text.as_str());
        crate::commands::why::push_prefixed(out, &ls, "      ");
        crate::commands::why::push_line(out, String::new());
    } else {
        push_str(&mut head, "  ");
        let sn = snippet(r.text.as_str());
        push_str(&mut head, sn.as_str());
        let mut l = String::new();
        push_painted(&mut l, head.as_str(), code, color);
        assert(l@ =~= paint(hv + "  "@ + spec_snippet(r.text@), code@, color));
        crate::commands::why::push_line(out, l);
    }
}

/// Append the rows that are (or are not) committed, in order; returns how
/// many there were.
fn push_group(
    out: &mut Vec<String>,
    rows: &Vec<Row>,
    committed: bool,
    marker: &str,
    code: &str,
    full: bool,
    color: bool,
) -> (n: usize)
    ensures
        ({
            let g = if committed {
                rows@.filter(is_committed())
            } else {
                rows@.filter(is_pending())
            };
            &&& crate::text::strings_view(final(out)@) == crate::text::strings_view(old(out)@)
                + group_lines(g, marker@, code@, full, color)
            &&& n == g.len()
        }),
{
    let ghost pred = if committed {
        is_committed()
    } else {
        is_pending()
    };
    let ghost start = crate::text::strings_view(out@);
    let mut n: usize = 0;
    let mut i: usize = 0;
    assert(rows@.subrange(0, 0).filter(pred) =~= Seq::<Row>::empty()) by {
        reveal(Seq::filter);
    }
    while i < rows.len()
        invariant
            i <= rows@.len(),
            pred == (if committed {
                is_committed()
            } else {
                is_pending()
            }),
            crate::text::strings_view(out@) == start + group_lines(
                rows@.subrange(0, i as int).filter(pred),
                marker@,
                code@,
                full,
                color,
            ),
            n == rows@.subrange(0, i as int).filter(pred).len(),
            n <= i,
        decreases rows@.len() - i,
    {
        let ghost before = rows@.subrange(0, i as int);
        assert(rows@.subrange(0, i + 1) =~= before.push(rows@[i as int]));
        proof {
            before.lemma_filter_push(rows@[i as int], pred);
        }
        let r = &rows[i];
        if r.committed == committed {
            let ghost f = before.filter(pred);
            push_row(out, r, marker, code, full, color);
            assert(f.push(*r).drop_last() =~= f);
            n += 1;
        }
        i += 1;
    }
    assert(rows@.subrange(0, rows@.len() as int) =~= rows@);
    n
}

/// The prompt list, git-status style, line by line. `color` paints the
/// committed green and the pending red.
pub fn status_list(rows: &Vec<Row>, full: bool, color: bool) -> (out: Vec<String>)
    ensures
        crate::text::strings_view(out@) == spec_status_list(rows@, full, color),
{
    let mut out: Vec<String> = Vec::new();
    if rows.len() == 0 {
        crate::commands::why::push_line(&mut out, owned("No prompts recorded yet."));
        assert(crate::text::strings_view(out@) =~= spec_status_list(rows@, full, color));
        return out;
    }
    let mut committed_lines: Vec<String> = Vec::new();
    let c = push_group(&mut committed_lines, rows, true, "  ●", "32", full, color);
    let mut pending_lines: Vec<String> = Vec::new();
    let p = push_group(&mut pending_lines, rows, false, "  ○", "31", full, color);
    let ghost cg = crate::text::strings_view(committed_lines@);
    let ghost pg = crate::text::strings_view(pending_lines@);
    if c > 0 {
        crate::commands::why::push_line(&mut out, owned("Committed prompts:"));
        append_lines(&mut out, committed_lines);
    }
    if p > 0 {
        if c > 0 {
            crate::commands::why::push_line(&mut out, String::new());
        }
        crate::commands::why::push_line(
            &mut out,
            owned("Pending prompts (not yet committed — commit to anchor):"),
        );
        append_lines(&mut out, pending_lines);
    }
    crate::commands::why::push_line(&mut out, String::new());
    crate::commands::why::push_line(&mut out, list_summary(c, p));
    assert(crate::text::strings_view(out@) =~= spec_status_list(rows@, full, color));
    out
}

fn append_lines(out: &mut Vec<String>, more: Vec<String>)
    ensures
        crate::text::strings_view(final(out)@) == crate::text::strings_view(old(out)@)
            + crate::text::strings_view(more@),
{
    let ghost a = out@;
    let mut m = more;
    out.append(&mut m);
    assert(crate::text::strings_view(out@) =~= crate::text::strings_view(a)
        + crate::text::strings_view(more@));
}

} // verus!
