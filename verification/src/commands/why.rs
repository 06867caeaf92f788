//! `tellme why`: the text listing of a line's prompt history.

use vstd::prelude::*;

use crate::blame::{Entry, EntryView, WhyResult};
use crate::commands::prompt::i64_text;
use crate::text::{chars_of, owned, push_dec_i64, push_str, string_of};

verus! {

/// A commit id shortened to its first eight characters.
pub open spec fn short_id(id: Seq<char>) -> Seq<char> {
    if id.len() <= 8 {
        id
    } else {
        id.subrange(0, 8)
    }
}

/// The first eight characters of a commit id.
pub fn short_commit(id: &str) -> (r: String)
    ensures
        r@ == short_id(id@),
{
    let v = chars_of(id);
    if v.len() <= 8 {
        owned(id)
    } else {
        string_of(&v, 0, 8)
    }
}

/// An optional name, or a placeholder.
pub open spec fn name_or(o: Option<Seq<char>>, none: Seq<char>) -> Seq<char> {
    match o {
        Some(s) => s,
        None => none,
    }
}

/// Decision lines with a prefix.
pub open spec fn prefixed(ds: Seq<Seq<char>>, prefix: Seq<char>) -> Seq<Seq<char>> {
    ds.map_values(|d: Seq<char>| prefix + d)
}

/// The lines of one entry in `why`'s listing.
pub open spec fn why_entry_lines(e: EntryView) -> Seq<Seq<char>> {
    seq![
        "  ● "@ + short_id(e.commit_id) + "  "@ + e.commit_summary + "  — session \""@ + name_or(
            e.session,
            "(unknown session)"@,
        ) + "\""@,
        "    YOU: "@ + e.prompt,
    ] + prefixed(e.decisions, "    ▸ decision: "@) + seq![Seq::<char>::empty()]
}

/// The lines of the first `k` entries.
pub open spec fn why_entries(es: Seq<EntryView>, k: nat) -> Seq<Seq<char>>
    decreases k,
{
    if k == 0 || k > es.len() {
        seq![]
    } else {
        why_entries(es, (k - 1) as nat) + why_entry_lines(es[k - 1])
    }
}

/// Where the queried lines are: `file:N`, or `file:N-M` for a range.
pub open spec fn loc_text(file: Seq<char>, start: i64, end: i64) -> Seq<char> {
    if start == end {
        file + ":"@ + i64_text(start)
    } else {
        file + ":"@ + i64_text(start) + "-"@ + i64_text(end)
    }
}

/// The entries of a result by their views.
pub open spec fn entries_view(r: WhyResult) -> Seq<EntryView> {
    r.entries@.map_values(|e: Entry| e@)
}

/// `why`'s text listing: the location (and code) line, a blank line, then
/// why there is no history, or the history entry by entry.
pub open spec fn spec_why_text(r: WhyResult) -> Seq<Seq<char>> {
    let loc = loc_text(r.file@, r.line_start, r.line_end);
    seq![
        match r.code {
            Some(c) => loc + "  "@ + c@,
            None => loc,
        },
        Seq::empty(),
    ] + if !r.committed {
        seq!["  This line isn't committed yet — no prompt history to show."@]
    } else if r.entries@.len() == 0 {
        seq![
            "  No recorded prompts for this line."@,
            "  (record one with `tellme prompt add` or install capture hooks)"@,
        ]
    } else {
        seq!["Prompt history for this line:"@, Seq::<char>::empty()] + why_entries(
            entries_view(r),
            r.entries@.len(),
        )
    }
}

/// Append a line.
pub fn push_line(out: &mut Vec<String>, l: String)
    ensures
        crate::text::strings_view(final(out)@) == crate::text::strings_view(old(out)@).push(l@),
{
    let ghost before = out@;
    out.push(l);
    assert(crate::text::strings_view(out@) =~= crate::text::strings_view(before).push(l@));
}

/// Append each decision with a prefix.
pub fn push_prefixed(out: &mut Vec<String>, ds: &Vec<String>, prefix: &str)
    ensures
        crate::text::strings_view(final(out)@) == crate::text::strings_view(old(out)@) + prefixed(
            crate::text::strings_view(ds@),
            prefix@,
        ),
{
    let ghost start = crate::text::strings_view(out@);
    let ghost dv = crate::text::strings_view(ds@);
    let mut i: usize = 0;
    while i < ds.len()
        invariant
            i <= ds@.len(),
            dv == crate::text::strings_view(ds@),
            crate::text::strings_view(out@) == start + prefixed(dv.subrange(0, i as int), prefix@),
        decreases ds@.len() - i,
    {
        let mut l = owned(prefix);
        push_str(&mut l, ds[i].as_str());
        push_line(out, l);
        assert(prefixed(dv.subrange(0, i + 1), prefix@) =~= prefixed(dv.subrange(0, i as int), prefix@).push(
            prefix@ + dv[i as int],
        ));
        i += 1;
    }
    assert(dv.subrange(0, ds@.len() as int) =~= dv);
}

/// `why`'s text listing, line by line.
pub fn why_text(r: &WhyResult) -> (out: Vec<String>)
    ensures
        crate::text::strings_view(out@) == spec_why_text(*r),
{
    let mut out: Vec<String> = Vec::new();
    let mut first = owned(r.file.as_str());
    push_str(&mut first, ":");
    push_dec_i64(&mut first, r.line_start);
    if r.line_start != r.line_end {
        push_str(&mut first, "-");
        push_dec_i64(&mut first, r.line_end);
    }
    match &r.code {
        Some(c) => {
            push_str(&mut first, "  ");
            push_str(&mut first, c.as_str());
        },
        None => {},
    }
    push_line(&mut out, first);
    push_line(&mut out, String::new());
    let ghost top = crate::text::strings_view(out@);
    if !r.committed {
        push_line(&mut out, owned("  This line isn't committed yet — no prompt history to show."));
    } else if r.entries.len() == 0 {
        push_line(&mut out, owned("  No recorded prompts for this line."));
        push_line(
            &mut out,
            owned("  (record one with `tellme prompt add` or install capture hooks)"),
        );
    } else {
        push_line(&mut out, owned("Prompt history for this line:"));
        push_line(&mut out, String::new());
        let ghost head = crate::text::strings_view(out@);
        let ghost es = entries_view(*r);
        let mut i: usize = 0;
        while i < r.entries.len()
            invariant
                i <= r.entries@.len(),
                es == entries_view(*r),
                crate::text::strings_view(out@) == head + why_entries(es, i as nat),
            decreases r.entries@.len() - i,
        {
            let e = &r.entries[i];
            let mut l = owned("  ● ");
            let short = short_commit(e.commit_id.as_str());
            push_str(&mut l, short.as_str());
            push_str(&mut l, "  ");
            push_str(&mut l, e.commit_summary.as_str());
            push_str(&mut l, "  — session \"");
            match &e.session {
                Some(s) => push_str(&mut l, s.as_str()),
                None => push_str(&mut l, "(unknown session)"),
            }
            push_str(&mut l, "\"");
            push_line(&mut out, l);
            let mut you = owned("    YOU: ");
            push_str(&mut you, e.prompt.as_str());
            push_line(&mut out, you);
            push_prefixed(&mut out, &e.decisions, "    ▸ decision: ");
            push_line(&mut out, String::new());
            assert(es[i as int] == e@);
            assert(crate::text::strings_view(out@) =~= head + why_entries(es, (i + 1) as nat));
            i += 1;
        }
    }
    assert(crate::text::strings_view(out@) =~= spec_why_text(*r));
    out
}

} // verus!
