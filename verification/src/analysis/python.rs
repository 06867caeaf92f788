//! Python source analysis over tree-sitter's syntax tree.
//!
//! The source is parsed into a [`PyTree`] of plain values; each analysis is a
//! verified function of that tree and the source whose contract states its
//! result exactly (`var_flow_is`, `function_flow_is`, `defs_upto`), and the
//! analyzer's methods apply them to the tree tree-sitter gives.

use vstd::prelude::*;

use std::collections::HashSet;

use super::syntax::{
    call_name_of, enclosing_name, field_child, is_kind, line_of, named_children, node_line,
    node_text, opt_string_view, parse_tree, python_tree, subtree_end, text_of, NodeView, PyTree,
};
use super::{Analyzer, Call, FunctionDef, FunctionFlow, VarEvent, VarEventKind, VarFlow};
use crate::error::{Error, Result};
use crate::journey::{short_name, spec_short_name};
use crate::order::{
    lemma_sort_map, lemma_values_map, law_sort_by_key_sorted, map_vals, sort_by_key, stable_sort,
    strip_keys, values,
};
use crate::text::{
    chars_of, lemma_lines_step, line_end, lines, next_char, owned, push_str, str_eq, string_of,
    trim, trim_range,
};

verus! {

/// A tree-sitter-backed Python analyzer.
pub struct Python;

impl Python {
    /// Construct an analyzer.
    pub fn new() -> (r: Result<Self>)
        ensures
            r is Ok,
    {
        Ok(Python)
    }
}

// ---------------------------------------------------------------------------
// Source lines
// ---------------------------------------------------------------------------

/// The one-based line `line` of `src`, trimmed; empty past the end (line 0
/// reads as line 1).
pub open spec fn spec_source_line(src: Seq<char>, line: usize) -> Seq<char> {
    let k = if line == 0 {
        0
    } else {
        line - 1
    };
    if k < lines(src).len() {
        trim(lines(src)[k])
    } else {
        seq![]
    }
}

/// The bounds of every line of `v`.
fn line_table(v: &Vec<char>) -> (t: Vec<(usize, usize)>)
    ensures
        t@.len() == lines(v@).len(),
        forall|i: int|
            0 <= i < t@.len() ==> #[trigger] t@[i].0 <= t@[i].1 <= v@.len() && v@.subrange(
                t@[i].0 as int,
                t@[i].1 as int,
            ) == lines(v@)[i],
{
    let n = v.len();
    let mut t: Vec<(usize, usize)> = Vec::new();
    let mut i: usize = 0;
    let ghost mut done: Seq<Seq<char>> = seq![];
    assert(v@.subrange(0, n as int) =~= v@);
    while i < n
        invariant
            i <= n == v@.len(),
            lines(v@) == done + lines(v@.subrange(i as int, n as int)),
            t@.len() == done.len(),
            forall|j: int|
                0 <= j < t@.len() ==> #[trigger] t@[j].0 <= t@[j].1 <= v@.len() && v@.subrange(
                    t@[j].0 as int,
                    t@[j].1 as int,
                ) == done[j],
        decreases n - i,
    {
        let k = next_char(v, i, n, '\n');
        let e = line_end(v, i, k);
        proof {
            lemma_lines_step(v@, i as int, k as int);
        }
        let ghost l = v@.subrange(i as int, e as int);
        t.push((i, e));
        proof {
            done = done.push(l);
        }
        if k < n {
            i = k + 1;
        } else {
            i = n;
            assert(lines(v@.subrange(n as int, n as int)) =~= Seq::<Seq<char>>::empty());
        }
    }
    assert(done + lines(v@.subrange(n as int, n as int)) =~= done);
    t
}

fn line_text(v: &Vec<char>, t: &Vec<(usize, usize)>, line: usize) -> (r: String)
    requires
        t@.len() == lines(v@).len(),
        forall|i: int|
            0 <= i < t@.len() ==> #[trigger] t@[i].0 <= t@[i].1 <= v@.len() && v@.subrange(
                t@[i].0 as int,
                t@[i].1 as int,
            ) == lines(v@)[i],
    ensures
        r@ == spec_source_line(v@, line),
{
    let k = if line == 0 {
        0
    } else {
        line - 1
    };
    if k < t.len() {
        let (a, b) = t[k];
        assert(t@[k as int].0 <= t@[k as int].1);
        let (ta, tb) = trim_range(v, a, b);
        string_of(v, ta, tb)
    } else {
        String::new()
    }
}

/// The one-based line `line` of `src`, trimmed (empty past the end).
pub fn source_line(src: &str, line: usize) -> (r: String)
    ensures
        r@ == spec_source_line(src@, line),
{
    let v = chars_of(src);
    let t = line_table(&v);
    line_text(&v, &t, line)
}

// ---------------------------------------------------------------------------
// A variable's events
// ---------------------------------------------------------------------------

/// An event by its contents.
pub struct VarEventView {
    /// What happened.
    pub kind: VarEventKind,
    /// One-based line.
    pub line: usize,
    /// The trimmed source line.
    pub text: Seq<char>,
}

impl View for VarEvent {
    type V = VarEventView;

    open spec fn view(&self) -> VarEventView {
        VarEventView { kind: self.kind, line: self.line, text: self.text@ }
    }
}

/// The event of `kind` at `line`.
pub open spec fn ev(src: Seq<char>, kind: VarEventKind, line: usize) -> VarEventView {
    VarEventView { kind, line, text: spec_source_line(src, line) }
}

/// Lines keyed by themselves.
pub open spec fn keyed_lines(s: Seq<usize>) -> Seq<(i128, usize)> {
    s.map_values(|l: usize| (l as i128, l))
}

/// Lines in ascending order.
pub open spec fn sorted_lines(s: Seq<usize>) -> Seq<usize> {
    values(sort_by_key(keyed_lines(s)))
}

/// Adjacent repeats collapsed (`Vec::dedup`).
pub open spec fn dedup(s: Seq<usize>) -> Seq<usize>
    decreases s.len(),
{
    if s.len() == 0 {
        s
    } else {
        let d = dedup(s.drop_last());
        if d.len() > 0 && d.last() == s.last() {
            d
        } else {
            d.push(s.last())
        }
    }
}

/// The assignment events: the first (by line) initializes, later ones modify.
pub open spec fn assign_events(src: Seq<char>, sorted: Seq<usize>) -> Seq<VarEventView> {
    Seq::new(
        sorted.len(),
        |i: int|
            ev(
                src,
                if i == 0 {
                    VarEventKind::Initialized
                } else {
                    VarEventKind::Modified
                },
                sorted[i],
            ),
    )
}

/// Events of one kind at the given lines.
pub open spec fn events_at(src: Seq<char>, kind: VarEventKind, ls: Seq<usize>) -> Seq<VarEventView> {
    ls.map_values(|l: usize| ev(src, kind, l))
}

/// The events before ordering: assignments, augmented assignments, reads.
pub open spec fn raw_events(
    src: Seq<char>,
    assigns: Seq<usize>,
    augmented: Seq<usize>,
    reads: Seq<usize>,
) -> Seq<VarEventView> {
    assign_events(src, sorted_lines(assigns)) + events_at(src, VarEventKind::Modified, augmented)
        + events_at(src, VarEventKind::Used, dedup(sorted_lines(reads)))
}

/// Events keyed by their line.
pub open spec fn keyed_events(s: Seq<VarEventView>) -> Seq<(i128, VarEventView)> {
    s.map_values(|e: VarEventView| (e.line as i128, e))
}

/// The largest line among the events.
pub open spec fn max_line(s: Seq<VarEventView>) -> usize
    decreases s.len(),
{
    if s.len() <= 1 {
        if s.len() == 1 {
            s[0].line
        } else {
            0
        }
    } else if max_line(s.drop_last()) < s.last().line {
        s.last().line
    } else {
        max_line(s.drop_last())
    }
}

/// A variable's lifecycle from where it is assigned (`assigns`, in any
/// order), augmented-assigned (`augmented`) and read (`reads`, repeats
/// allowed): the first assignment by line initializes it and later ones
/// modify it, each augmented assignment modifies it, each distinct read line
/// uses it; all ordered by line (ties: assignments, then augmented
/// assignments, then reads), and a lifecycle end at the last line.
pub open spec fn spec_var_events(
    src: Seq<char>,
    assigns: Seq<usize>,
    augmented: Seq<usize>,
    reads: Seq<usize>,
) -> Seq<VarEventView> {
    let ordered = values(sort_by_key(keyed_events(raw_events(src, assigns, augmented, reads))));
    if ordered.len() > 0 {
        ordered.push(ev(src, VarEventKind::LifecycleEnd, max_line(ordered)))
    } else {
        ordered
    }
}

/// An event of a source line that is not a lifecycle end: its text is the
/// line, trimmed.
pub open spec fn line_event(src: Seq<char>, e: VarEventView) -> bool {
    e.kind != VarEventKind::LifecycleEnd && e.text == spec_source_line(src, e.line)
}

/// The events before ordering are all events of source lines.
proof fn lemma_raw_line_events(src: Seq<char>, assigns: Seq<usize>, augmented: Seq<usize>, reads: Seq<usize>)
    ensures
        forall|k: int|
            0 <= k < raw_events(src, assigns, augmented, reads).len() ==> line_event(
                src,
                #[trigger] raw_events(src, assigns, augmented, reads)[k],
            ),
{
    let x = assign_events(src, sorted_lines(assigns));
    let y = events_at(src, VarEventKind::Modified, augmented);
    let z = events_at(src, VarEventKind::Used, dedup(sorted_lines(reads)));
    let raw = raw_events(src, assigns, augmented, reads);
    assert(raw == x + y + z);
    assert forall|k: int| 0 <= k < raw.len() implies line_event(src, #[trigger] raw[k]) by {
        if k < x.len() {
            assert(raw[k] == x[k]);
        } else if k < x.len() + y.len() {
            assert(raw[k] == y[k - x.len()]);
        } else {
            assert(raw[k] == z[k - x.len() - y.len()]);
        }
    }
}

/// The largest line is no smaller than any event's line.
proof fn lemma_max_line(s: Seq<VarEventView>)
    ensures
        forall|i: int| 0 <= i < s.len() ==> (#[trigger] s[i]).line <= max_line(s),
    decreases s.len(),
{
    if s.len() > 1 {
        lemma_max_line(s.drop_last());
        assert forall|i: int| 0 <= i < s.len() implies (#[trigger] s[i]).line <= max_line(s) by {
            if i < s.len() - 1 {
                assert(s[i] == s.drop_last()[i]);
            }
        }
    }
}

/// A variable's events run in line order and end in exactly one lifecycle
/// end, at the largest line; every other event's text is its source line,
/// trimmed.
pub proof fn law_var_events_ordered(src: Seq<char>, assigns: Seq<usize>, augmented: Seq<usize>, reads: Seq<usize>)
    ensures
        ({
            let es = spec_var_events(src, assigns, augmented, reads);
            &&& forall|i: int, j: int| 0 <= i <= j < es.len() ==> (#[trigger] es[i]).line <= (#[trigger] es[j]).line
            &&& es.len() > 0 ==> es.last().kind == VarEventKind::LifecycleEnd && es.last().text
                == spec_source_line(src, es.last().line)
            &&& forall|i: int| 0 <= i < es.len() - 1 ==> line_event(src, #[trigger] es[i])
        }),
{
    let raw = raw_events(src, assigns, augmented, reads);
    let keyed = keyed_events(raw);
    let sorted = sort_by_key(keyed);
    let ordered = values(sorted);
    lemma_raw_line_events(src, assigns, augmented, reads);
    law_sort_by_key_sorted(keyed);
    sorted.to_multiset_ensures();
    keyed.to_multiset_ensures();
    assert forall|i: int| 0 <= i < sorted.len() implies (#[trigger] sorted[i]).0 == sorted[i].1.line as i128
        && line_event(src, sorted[i].1) by {
        assert(sorted.contains(sorted[i]));
        assert(keyed.to_multiset().count(sorted[i]) > 0);
        assert(keyed.contains(sorted[i]));
        let k = choose|k: int| 0 <= k < keyed.len() && keyed[k] == sorted[i];
        assert(keyed[k] == (raw[k].line as i128, raw[k]));
        assert(line_event(src, raw[k]));
    }
    assert forall|i: int, j: int| 0 <= i <= j < ordered.len() implies (#[trigger] ordered[i]).line <= (
    #[trigger] ordered[j]).line by {
        assert(ordered[i] == sorted[i].1);
        assert(ordered[j] == sorted[j].1);
        assert(sorted[i].0 <= sorted[j].0);
    }
    assert forall|i: int| 0 <= i < ordered.len() implies line_event(src, #[trigger] ordered[i]) by {
        assert(ordered[i] == sorted[i].1);
    }
    let es = spec_var_events(src, assigns, augmented, reads);
    if ordered.len() > 0 {
        lemma_max_line(ordered);
        let m = max_line(ordered);
        assert(es == ordered.push(ev(src, VarEventKind::LifecycleEnd, m)));
        assert forall|i: int, j: int| 0 <= i <= j < es.len() implies (#[trigger] es[i]).line <= (
        #[trigger] es[j]).line by {
            if j < ordered.len() {
                assert(es[i] == ordered[i] && es[j] == ordered[j]);
            } else if i < ordered.len() {
                assert(es[i] == ordered[i]);
            }
        }
        assert forall|i: int| 0 <= i < es.len() - 1 implies line_event(src, #[trigger] es[i]) by {
            assert(es[i] == ordered[i]);
        }
    }
}

fn sort_lines(ls: &Vec<usize>) -> (r: Vec<usize>)
    ensures
        r@ == sorted_lines(ls@),
{
    let mut keyed: Vec<(i128, usize)> = Vec::new();
    let mut i: usize = 0;
    while i < ls.len()
        invariant
            i <= ls@.len(),
            keyed@ == keyed_lines(ls@.subrange(0, i as int)),
        decreases ls@.len() - i,
    {
        keyed.push((ls[i] as i128, ls[i]));
        assert(keyed_lines(ls@.subrange(0, i + 1)) =~= keyed_lines(ls@.subrange(0, i as int)).push(
            (ls@[i as int] as i128, ls@[i as int]),
        ));
        i += 1;
    }
    assert(ls@.subrange(0, ls@.len() as int) =~= ls@);
    strip_keys(stable_sort(keyed))
}

fn dedup_lines(ls: &Vec<usize>) -> (r: Vec<usize>)
    ensures
        r@ == dedup(ls@),
{
    let mut r: Vec<usize> = Vec::new();
    let mut i: usize = 0;
    while i < ls.len()
        invariant
            i <= ls@.len(),
            r@ == dedup(ls@.subrange(0, i as int)),
        decreases ls@.len() - i,
    {
        assert(ls@.subrange(0, i + 1).drop_last() =~= ls@.subrange(0, i as int));
        if !(r.len() > 0 && r[r.len() - 1] == ls[i]) {
            r.push(ls[i]);
        }
        i += 1;
    }
    assert(ls@.subrange(0, ls@.len() as int) =~= ls@);
    r
}

fn push_events(
    keyed: &mut Vec<(i128, VarEvent)>,
    v: &Vec<char>,
    t: &Vec<(usize, usize)>,
    kind_of_first: VarEventKind,
    kind_of_rest: VarEventKind,
    ls: &Vec<usize>,
)
    requires
        t@.len() == lines(v@).len(),
        forall|i: int|
            0 <= i < t@.len() ==> #[trigger] t@[i].0 <= t@[i].1 <= v@.len() && v@.subrange(
                t@[i].0 as int,
                t@[i].1 as int,
            ) == lines(v@)[i],
    ensures
        map_vals(final(keyed)@, |e: VarEvent| e@) == map_vals(old(keyed)@, |e: VarEvent| e@)
            + keyed_events(
            Seq::new(
                ls@.len(),
                |i: int|
                    ev(
                        v@,
                        if i == 0 {
                            kind_of_first
                        } else {
                            kind_of_rest
                        },
                        ls@[i],
                    ),
            ),
        ),
{
    let ghost start = map_vals(keyed@, |e: VarEvent| e@);
    let ghost want = Seq::new(
        ls@.len(),
        |i: int|
            ev(
                v@,
                if i == 0 {
                    kind_of_first
                } else {
                    kind_of_rest
                },
                ls@[i],
            ),
    );
    let mut i: usize = 0;
    while i < ls.len()
        invariant
            i <= ls@.len(),
            t@.len() == lines(v@).len(),
            forall|j: int|
                0 <= j < t@.len() ==> #[trigger] t@[j].0 <= t@[j].1 <= v@.len() && v@.subrange(
                    t@[j].0 as int,
                    t@[j].1 as int,
                ) == lines(v@)[j],
            map_vals(keyed@, |e: VarEvent| e@) == start + keyed_events(want.subrange(0, i as int)),
            want == Seq::new(
                ls@.len(),
                |i: int|
                    ev(
                        v@,
                        if i == 0 {
                            kind_of_first
                        } else {
                            kind_of_rest
                        },
                        ls@[i],
                    ),
            ),
        decreases ls@.len() - i,
    {
        let line = ls[i];
        let k = if i == 0 {
            kind_of_first
        } else {
            kind_of_rest
        };
        let e = VarEvent { kind: k, line, text: line_text(v, t, line) };
        let ghost before = keyed@;
        keyed.push((line as i128, e));
        assert(keyed_events(want.subrange(0, i + 1)) =~= keyed_events(want.subrange(0, i as int)).push(
            (line as i128, e@),
        ));
        assert(map_vals(keyed@, |e: VarEvent| e@) =~= map_vals(before, |e: VarEvent| e@).push(
            (line as i128, e@),
        ));
        i += 1;
    }
    assert(want.subrange(0, ls@.len() as int) =~= want);
}

/// The largest line among some events.
fn last_line(events: &Vec<VarEvent>) -> (r: usize)
    requires
        events@.len() > 0,
    ensures
        r == max_line(events@.map_values(|e: VarEvent| e@)),
{
    let ghost ordered = events@.map_values(|e: VarEvent| e@);
    let mut last = events[0].line;
    let mut i: usize = 1;
    assert(ordered.subrange(0, 1).len() == 1);
    while i < events.len()
        invariant
            1 <= i <= events@.len(),
            ordered == events@.map_values(|e: VarEvent| e@),
            last == max_line(ordered.subrange(0, i as int)),
        decreases events@.len() - i,
    {
        assert(ordered.subrange(0, i + 1).drop_last() =~= ordered.subrange(0, i as int));
        if last < events[i].line {
            last = events[i].line;
        }
        i += 1;
    }
    assert(ordered.subrange(0, events@.len() as int) =~= ordered);
    last
}

/// The events of a variable of `src`, from the lines where it is assigned,
/// augmented-assigned and read (see `spec_var_events`).
#[verifier::spinoff_prover]
pub fn var_events(src: &str, assigns: &Vec<usize>, augmented: &Vec<usize>, reads: &Vec<usize>) -> (r: Vec<VarEvent>)
    ensures
        r@.map_values(|e: VarEvent| e@) == spec_var_events(src@, assigns@, augmented@, reads@),
{
    let v = chars_of(src);
    let t = line_table(&v);
    let mut keyed: Vec<(i128, VarEvent)> = Vec::new();
    let sorted_assigns = sort_lines(assigns);
    push_events(&mut keyed, &v, &t, VarEventKind::Initialized, VarEventKind::Modified, &sorted_assigns);
    assert(Seq::new(
        sorted_assigns@.len(),
        |i: int|
            ev(v@, if i == 0 { VarEventKind::Initialized } else { VarEventKind::Modified }, sorted_assigns@[i]),
    ) =~= assign_events(src@, sorted_lines(assigns@)));
    push_events(&mut keyed, &v, &t, VarEventKind::Modified, VarEventKind::Modified, augmented);
    assert(Seq::new(
        augmented@.len(),
        |i: int|
            ev(v@, if i == 0 { VarEventKind::Modified } else { VarEventKind::Modified }, augmented@[i]),
    ) =~= events_at(src@, VarEventKind::Modified, augmented@));
    let read_lines = dedup_lines(&sort_lines(reads));
    push_events(&mut keyed, &v, &t, VarEventKind::Used, VarEventKind::Used, &read_lines);
    assert(Seq::new(
        read_lines@.len(),
        |i: int| ev(v@, if i == 0 { VarEventKind::Used } else { VarEventKind::Used }, read_lines@[i]),
    ) =~= events_at(src@, VarEventKind::Used, dedup(sorted_lines(reads@))));
    assert(map_vals(keyed@, |e: VarEvent| e@) =~= keyed_events(
        raw_events(src@, assigns@, augmented@, reads@),
    ));
    let sorted = stable_sort(keyed);
    proof {
        lemma_sort_map(keyed@, |e: VarEvent| e@);
        lemma_values_map(sorted@, |e: VarEvent| e@);
    }
    let mut events = strip_keys(sorted);
    let ghost ordered = events@.map_values(|e: VarEvent| e@);
    if events.len() > 0 {
        let last = last_line(&events);
        let end = VarEvent { kind: VarEventKind::LifecycleEnd, line: last, text: line_text(&v, &t, last) };
        let ghost before = events@;
        events.push(end);
        assert(events@.map_values(|e: VarEvent| e@) =~= before.map_values(|e: VarEvent| e@).push(end@));
    }
    events
}

// ---------------------------------------------------------------------------
// Calls
// ---------------------------------------------------------------------------

/// A call by its contents.
pub open spec fn call_view(c: Call) -> (Seq<char>, usize) {
    (c.name@, c.line)
}

/// Calls with later repeats of the same `(name, line)` dropped.
pub open spec fn spec_distinct_calls(s: Seq<(Seq<char>, usize)>) -> Seq<(Seq<char>, usize)>
    decreases s.len(),
{
    if s.len() == 0 {
        seq![]
    } else {
        let d = spec_distinct_calls(s.drop_last());
        if d.contains(s.last()) {
            d
        } else {
            d.push(s.last())
        }
    }
}

/// Dropping repeats loses no call and invents none: every call of the input
/// is in the result, every call of the result is in the input, and no
/// `(name, line)` pair is listed twice. Two calls differing in name or in
/// line are both kept.
pub proof fn law_distinct_calls_keep_every_call(s: Seq<(Seq<char>, usize)>)
    ensures
        forall|i: int| 0 <= i < s.len() ==> spec_distinct_calls(s).contains(#[trigger] s[i]),
        forall|k: int| 0 <= k < spec_distinct_calls(s).len() ==> s.contains(#[trigger] spec_distinct_calls(s)[k]),
        spec_distinct_calls(s).no_duplicates(),
    decreases s.len(),
{
    if s.len() > 0 {
        let p = s.drop_last();
        law_distinct_calls_keep_every_call(p);
        let d = spec_distinct_calls(p);
        let r = spec_distinct_calls(s);
        assert forall|i: int| 0 <= i < s.len() implies r.contains(#[trigger] s[i]) by {
            if i < s.len() - 1 {
                assert(s[i] == p[i]);
                assert(d.contains(p[i]));
                if !d.contains(s.last()) {
                    let k = choose|k: int| 0 <= k < d.len() && d[k] == p[i];
                    assert(r[k] == d[k]);
                }
            } else if !d.contains(s.last()) {
                assert(r[d.len() as int] == s.last());
            }
        }
        assert forall|k: int| 0 <= k < r.len() implies s.contains(#[trigger] r[k]) by {
            if k < d.len() {
                assert(r[k] == d[k]);
                assert(p.contains(d[k]));
                let m = choose|m: int| 0 <= m < p.len() && p[m] == d[k];
                assert(s[m] == p[m]);
            } else {
                assert(r[k] == s.last());
                assert(s[s.len() - 1] == s.last());
            }
        }
        if !d.contains(s.last()) {
            assert forall|a: int, b: int| 0 <= a < r.len() && 0 <= b < r.len() && a != b implies r[a] != r[b] by {
                if a < d.len() && b < d.len() {
                    assert(r[a] == d[a] && r[b] == d[b]);
                } else if a < d.len() {
                    assert(r[a] == d[a]);
                } else {
                    assert(r[b] == d[b]);
                }
            }
        }
    }
}

/// Dropping repeats keeps the calls in the order they first appear: of two
/// listed calls, the earlier one occurs in the input before any occurrence
/// of the later one.
pub proof fn law_distinct_calls_keep_order(s: Seq<(Seq<char>, usize)>)
    ensures
        forall|a: int, b: int|
            0 <= a < b < spec_distinct_calls(s).len() ==> exists|i: int|
                0 <= i < s.len() && s[i] == #[trigger] spec_distinct_calls(s)[a] && forall|i2: int|
                    0 <= i2 <= i ==> s[i2] != #[trigger] spec_distinct_calls(s)[b],
    decreases s.len(),
{
    if s.len() > 0 {
        let p = s.drop_last();
        law_distinct_calls_keep_order(p);
        law_distinct_calls_keep_every_call(p);
        let d = spec_distinct_calls(p);
        let r = spec_distinct_calls(s);
        assert forall|a: int, b: int| 0 <= a < b < r.len() implies exists|i: int|
            0 <= i < s.len() && s[i] == #[trigger] r[a] && forall|i2: int| 0 <= i2 <= i ==> s[i2] != #[trigger] r[b] by {
            assert(r[a] == d[a]);
            if b < d.len() {
                assert(r[b] == d[b]);
                let i = choose|i: int|
                    0 <= i < p.len() && p[i] == d[a] && forall|i2: int| 0 <= i2 <= i ==> p[i2] != d[b];
                assert forall|i2: int| 0 <= i2 <= i implies s[i2] != r[b] by {
                    assert(s[i2] == p[i2]);
                }
                assert(s[i] == p[i]);
            } else {
                assert(r[b] == s.last());
                assert(!d.contains(s.last()));
                assert(p.contains(d[a]));
                let i = choose|i: int| 0 <= i < p.len() && p[i] == d[a];
                assert forall|i2: int| 0 <= i2 <= i implies s[i2] != r[b] by {
                    assert(s[i2] == p[i2]);
                    if p[i2] == s.last() {
                        assert(d.contains(p[i2]));
                    }
                }
                assert(s[i] == p[i]);
            }
        }
    }
}

/// The calls found among nodes `lo..hi` include every named call node there.
proof fn lemma_calls_between_has(src: Seq<char>, t: Seq<NodeView>, lo: int, hi: int, k: int)
    requires
        lo <= k < hi,
        is_kind(t, k, "call"@),
        call_name_of(src, t, k) is Some,
    ensures
        calls_between(src, t, lo, hi).contains((call_name_of(src, t, k)->Some_0, node_line(t[k]))),
    decreases hi - lo,
{
    let c = (call_name_of(src, t, k)->Some_0, node_line(t[k]));
    let p = calls_between(src, t, lo, hi - 1);
    if k == hi - 1 {
        assert(calls_between(src, t, lo, hi) == p.push(c));
        assert(p.push(c)[p.len() as int] == c);
    } else {
        lemma_calls_between_has(src, t, lo, hi - 1, k);
        let m = choose|m: int| 0 <= m < p.len() && p[m] == c;
        let q = calls_between(src, t, lo, hi);
        if q != p {
            assert(q[m] == p[m]);
        }
    }
}

/// A function's callees are every call in its body: each `call` node in
/// the subtree of its `body` field whose callee has a name is listed, by
/// that name and its line; nothing else is.
pub proof fn law_callees_are_every_body_call(src: Seq<char>, t: Seq<NodeView>, d: int, k: int)
    requires
        field_child(t, d, "body"@) matches Some(b) && b <= k < subtree_end(t, b),
        is_kind(t, k, "call"@),
        call_name_of(src, t, k) is Some,
    ensures
        spec_callees(src, t, d).contains((call_name_of(src, t, k)->Some_0, node_line(t[k]))),
{
    let b = field_child(t, d, "body"@)->Some_0;
    let raw = calls_between(src, t, b, subtree_end(t, b));
    lemma_calls_between_has(src, t, b, subtree_end(t, b), k);
    law_distinct_calls_keep_every_call(raw);
    let m = choose|m: int| 0 <= m < raw.len() && raw[m] == (call_name_of(src, t, k)->Some_0, node_line(t[k]));
    assert(spec_distinct_calls(raw).contains(raw[m]));
}

/// The calls with later repeats of the same name on the same line dropped.
pub fn distinct_calls(calls: Vec<Call>) -> (r: Vec<Call>)
    ensures
        r@.map_values(|c: Call| call_view(c)) == spec_distinct_calls(
            calls@.map_values(|c: Call| call_view(c)),
        ),
{
    let ghost orig = calls@;
    let ghost ov = calls@.map_values(|c: Call| call_view(c));
    let mut rest = calls;
    let mut out: Vec<Call> = Vec::new();
    let ghost mut i: int = 0;
    while rest.len() > 0
        invariant
            0 <= i <= orig.len(),
            ov == orig.map_values(|c: Call| call_view(c)),
            rest@ == orig.subrange(i, orig.len() as int),
            out@.map_values(|c: Call| call_view(c)) == spec_distinct_calls(ov.subrange(0, i)),
        decreases rest@.len(),
    {
        let c = rest.remove(0);
        let ghost d = out@.map_values(|c: Call| call_view(c));
        let mut seen = false;
        let mut j: usize = 0;
        while j < out.len()
            invariant
                j <= out@.len(),
                d == out@.map_values(|c: Call| call_view(c)),
                seen == exists|k: int| 0 <= k < j && d[k] == call_view(c),
            decreases out@.len() - j,
        {
            if out[j].line == c.line && str_eq(out[j].name.as_str(), c.name.as_str()) {
                assert(d[j as int] == call_view(c));
                seen = true;
            } else {
                assert(d[j as int] != call_view(c));
            }
            j += 1;
        }
        proof {
            assert(ov.subrange(0, i + 1).drop_last() =~= ov.subrange(0, i));
            assert(orig[i] == c);
            assert(ov.subrange(0, i + 1).last() == call_view(c));
            assert(rest@ =~= orig.subrange(i + 1, orig.len() as int));
            if seen {
                let k = choose|k: int| 0 <= k < out@.len() && d[k] == call_view(c);
                assert(d.contains(call_view(c)));
            } else {
                assert(!d.contains(call_view(c)));
            }
            i = i + 1;
        }
        if !seen {
            let ghost before = out@;
            out.push(c);
            assert(out@.map_values(|c: Call| call_view(c)) =~= before.map_values(|c: Call| call_view(c)).push(call_view(c)));
        }
    }
    assert(ov.subrange(0, i) =~= ov);
    out
}

/// Whether a call's name refers to `func`: its last dotted component is `func`.
pub open spec fn calls_func(name: Seq<char>, func: Seq<char>) -> bool {
    spec_short_name(name) == func
}

/// The calls among nodes `lo..hi`, in pre-order: each `call` node whose
/// callee has a name, by that name and the node's line.
pub open spec fn calls_between(src: Seq<char>, t: Seq<NodeView>, lo: int, hi: int) -> Seq<(Seq<char>, usize)>
    decreases hi - lo,
{
    if hi <= lo {
        seq![]
    } else {
        let p = calls_between(src, t, lo, hi - 1);
        if is_kind(t, hi - 1, "call"@) {
            match call_name_of(src, t, hi - 1) {
                Some(name) => p.push((name, node_line(t[hi - 1]))),
                None => p,
            }
        } else {
            p
        }
    }
}

/// The distinct calls in the subtree of node `b`.
pub open spec fn body_calls(src: Seq<char>, t: Seq<NodeView>, b: int) -> Seq<(Seq<char>, usize)> {
    spec_distinct_calls(calls_between(src, t, b, subtree_end(t, b)))
}

/// The calls in the subtree of node `b`, repeats of a `(name, line)` dropped.
fn calls_in(tree: &PyTree, src: &str, b: usize) -> (r: Vec<Call>)
    requires
        b < tree@.len(),
    ensures
        r@.map_values(|c: Call| call_view(c)) == body_calls(src@, tree@, b as int),
{
    let end = tree.subtree_end(b);
    let mut calls: Vec<Call> = Vec::new();
    let mut k = b;
    while k < end
        invariant
            b <= k <= end <= tree@.len(),
            end == subtree_end(tree@, b as int),
            calls@.map_values(|c: Call| call_view(c)) == calls_between(src@, tree@, b as int, k as int),
        decreases end - k,
    {
        assert(tree@[k as int] == tree.nodes@[k as int]@);
        if str_eq(tree.nodes[k].kind.as_str(), "call") {
            match tree.call_name(src, k) {
                Some(name) => {
                    let ghost before = calls@;
                    let c = Call { name, line: line_of(&tree.nodes[k]) };
                    calls.push(c);
                    assert(calls@.map_values(|c: Call| call_view(c)) =~= before.map_values(
                        |c: Call| call_view(c),
                    ).push(call_view(c)));
                },
                None => {},
            }
        }
        k += 1;
    }
    distinct_calls(calls)
}

/// A call in the source: the callee as written, its line, and the function
/// whose body holds it (none at module level).
#[derive(Debug, Clone, PartialEq, Eq)]
pub struct CallSite {
    /// Callee name as written (may be dotted).
    pub name: String,
    /// One-based line.
    pub line: usize,
    /// Enclosing function, if any.
    pub caller: Option<String>,
}

/// A call site by its contents.
pub open spec fn site_view(c: CallSite) -> (Seq<char>, usize, Option<Seq<char>>) {
    (c.name@, c.line, opt_string_view(c.caller))
}

/// The caller entry of a call site: its enclosing function (or
/// `<module>`) and line.
pub open spec fn caller_entry(c: (Seq<char>, usize, Option<Seq<char>>)) -> (Seq<char>, usize) {
    (
        match c.2 {
            Some(f) => f,
            None => "<module>"@,
        },
        c.1,
    )
}

/// The callers of `func` among call sites, in order: the sites whose callee,
/// by its last dotted component, is `func`.
pub open spec fn spec_callers_of(sites: Seq<(Seq<char>, usize, Option<Seq<char>>)>, func: Seq<char>) -> Seq<(Seq<char>, usize)>
    decreases sites.len(),
{
    if sites.len() == 0 {
        seq![]
    } else {
        let prev = spec_callers_of(sites.drop_last(), func);
        if calls_func(sites.last().0, func) {
            prev.push(caller_entry(sites.last()))
        } else {
            prev
        }
    }
}

/// Calls by their callee name and line.
pub open spec fn calls_view(cs: Seq<Call>) -> Seq<(Seq<char>, usize)> {
    cs.map_values(|c: Call| (c.name@, c.line))
}

/// Who calls `func`, from the file's call sites.
pub fn callers_of(sites: &Vec<CallSite>, func: &str) -> (r: Vec<Call>)
    ensures
        calls_view(r@) == spec_callers_of(sites@.map_values(|c: CallSite| site_view(c)), func@),
{
    let ghost sv = sites@.map_values(|c: CallSite| site_view(c));
    let mut out: Vec<Call> = Vec::new();
    let mut i: usize = 0;
    while i < sites.len()
        invariant
            i <= sites@.len(),
            sv == sites@.map_values(|c: CallSite| site_view(c)),
            calls_view(out@) == spec_callers_of(sv.subrange(0, i as int), func@),
        decreases sites@.len() - i,
    {
        let site = &sites[i];
        assert(sv.subrange(0, i + 1).drop_last() =~= sv.subrange(0, i as int));
        assert(sv.subrange(0, i + 1).last() == site_view(*site));
        let short = short_name(site.name.as_str());
        if str_eq(short.as_str(), func) {
            let caller = match &site.caller {
                Some(f) => owned(f.as_str()),
                None => owned("<module>"),
            };
            let ghost before = out@;
            out.push(Call { name: caller, line: site.line });
            assert(calls_view(out@) =~= calls_view(before).push(caller_entry(sv[i as int])));
        }
        i += 1;
    }
    assert(sv.subrange(0, sites@.len() as int) =~= sv);
    out
}

/// The call sites among the first `n` nodes, in pre-order: each `call` node
/// whose callee has a name, with its line and enclosing function.
pub open spec fn call_sites_upto(src: Seq<char>, t: Seq<NodeView>, n: int) -> Seq<(Seq<char>, usize, Option<Seq<char>>)>
    decreases n,
{
    if n <= 0 {
        seq![]
    } else {
        let p = call_sites_upto(src, t, n - 1);
        if is_kind(t, n - 1, "call"@) {
            match call_name_of(src, t, n - 1) {
                Some(name) => p.push((name, node_line(t[n - 1]), enclosing_name(src, t, n - 1))),
                None => p,
            }
        } else {
            p
        }
    }
}

/// Every call site of a tree.
fn call_sites(tree: &PyTree, src: &str) -> (r: Vec<CallSite>)
    ensures
        r@.map_values(|c: CallSite| site_view(c)) == call_sites_upto(src@, tree@, tree@.len() as int),
{
    let mut sites: Vec<CallSite> = Vec::new();
    let mut k: usize = 0;
    while k < tree.nodes.len()
        invariant
            k <= tree@.len(),
            sites@.map_values(|c: CallSite| site_view(c)) == call_sites_upto(src@, tree@, k as int),
        decreases tree@.len() - k,
    {
        assert(tree@[k as int] == tree.nodes@[k as int]@);
        if str_eq(tree.nodes[k].kind.as_str(), "call") {
            match tree.call_name(src, k) {
                Some(name) => {
                    let ghost before = sites@;
                    let s = CallSite { name, line: line_of(&tree.nodes[k]), caller: tree.enclosing_name(src, k) };
                    sites.push(s);
                    assert(sites@.map_values(|c: CallSite| site_view(c)) =~= before.map_values(
                        |c: CallSite| site_view(c),
                    ).push(site_view(s)));
                },
                None => {},
            }
        }
        k += 1;
    }
    sites
}

// ---------------------------------------------------------------------------
// A variable's flow
// ---------------------------------------------------------------------------

/// Whether node `k` is an identifier spelled `var`.
pub open spec fn is_var(src: Seq<char>, t: Seq<NodeView>, k: int, var: Seq<char>) -> bool {
    is_kind(t, k, "identifier"@) && node_text(src, t[k]) == var
}

/// The target of an assignment or augmented assignment at node `j` when it
/// is the identifier `var`: its `left` field.
pub open spec fn assign_target(src: Seq<char>, t: Seq<NodeView>, j: int, var: Seq<char>) -> Option<int> {
    if is_kind(t, j, "assignment"@) || is_kind(t, j, "augmented_assignment"@) {
        match field_child(t, j, "left"@) {
            Some(l) => if is_var(src, t, l, var) {
                Some(l)
            } else {
                None
            },
            None => None,
        }
    } else {
        None
    }
}

/// The lines of the first `n` nodes' plain assignments to `var` (when
/// `plain`) or augmented assignments to it (otherwise), in pre-order.
pub open spec fn assign_lines(src: Seq<char>, t: Seq<NodeView>, var: Seq<char>, plain: bool, n: int) -> Seq<usize>
    decreases n,
{
    if n <= 0 {
        seq![]
    } else {
        let p = assign_lines(src, t, var, plain, n - 1);
        match assign_target(src, t, n - 1, var) {
            Some(l) => if is_kind(t, n - 1, "assignment"@) == plain {
                p.push(node_line(t[l]))
            } else {
                p
            },
            None => p,
        }
    }
}

/// The assignment targets among the first `n` nodes, in pre-order.
pub open spec fn targets_upto(src: Seq<char>, t: Seq<NodeView>, var: Seq<char>, n: int) -> Seq<int>
    decreases n,
{
    if n <= 0 {
        seq![]
    } else {
        let p = targets_upto(src, t, var, n - 1);
        match assign_target(src, t, n - 1, var) {
            Some(l) => p.push(l),
            None => p,
        }
    }
}

/// The identifiers spelled `var` among the first `n` nodes, in pre-order.
pub open spec fn occurrences_upto(src: Seq<char>, t: Seq<NodeView>, var: Seq<char>, n: int) -> Seq<int>
    decreases n,
{
    if n <= 0 {
        seq![]
    } else {
        let p = occurrences_upto(src, t, var, n - 1);
        if is_var(src, t, n - 1, var) {
            p.push(n - 1)
        } else {
            p
        }
    }
}

/// The enclosing function of the first occurrence of `var`, among the
/// first `n` nodes, that has one.
pub open spec fn function_upto(src: Seq<char>, t: Seq<NodeView>, var: Seq<char>, n: int) -> Option<Seq<char>>
    decreases n,
{
    if n <= 0 {
        None
    } else {
        let p = function_upto(src, t, var, n - 1);
        if p is Some {
            p
        } else if is_var(src, t, n - 1, var) {
            enclosing_name(src, t, n - 1)
        } else {
            None
        }
    }
}

/// The lines of the occurrences that are not assignment targets: the reads.
pub open spec fn reads_of(t: Seq<NodeView>, targets: Seq<int>, occ: Seq<int>) -> Seq<usize>
    decreases occ.len(),
{
    if occ.len() == 0 {
        seq![]
    } else {
        let p = reads_of(t, targets, occ.drop_last());
        if targets.contains(occ.last()) {
            p
        } else {
            p.push(node_line(t[occ.last()]))
        }
    }
}

/// What the flow of `var` in a tree is: an error when no identifier spelled
/// `var` occurs; otherwise `var`, the enclosing function of its first
/// occurrence that has one, and the events of its plain assignments,
/// augmented assignments and reads.
pub open spec fn var_flow_is(src: Seq<char>, t: Seq<NodeView>, var: Seq<char>, r: Result<VarFlow>) -> bool {
    let n = t.len() as int;
    let occ = occurrences_upto(src, t, var, n);
    if occ.len() == 0 {
        r matches Err(e) && e matches Error::Other(m) && m@ == not_found_message("variable"@, var)
    } else {
        r matches Ok(f) && f.name@ == var && opt_string_view(f.function) == function_upto(src, t, var, n)
            && f.events@.map_values(|e: VarEvent| e@) == spec_var_events(
            src,
            assign_lines(src, t, var, true, n),
            assign_lines(src, t, var, false, n),
            reads_of(t, targets_upto(src, t, var, n), occ),
        )
    }
}

/// Each target is a plain or an augmented assignment's.
proof fn lemma_targets_len(src: Seq<char>, t: Seq<NodeView>, var: Seq<char>, n: int)
    ensures
        targets_upto(src, t, var, n).len() == assign_lines(src, t, var, true, n).len()
            + assign_lines(src, t, var, false, n).len(),
    decreases n,
{
    if n > 0 {
        lemma_targets_len(src, t, var, n - 1);
    }
}

/// With no reads, every occurrence is a target.
proof fn lemma_no_reads(t: Seq<NodeView>, targets: Seq<int>, occ: Seq<int>)
    requires
        occ.len() > 0,
        reads_of(t, targets, occ).len() == 0,
    ensures
        targets.contains(occ[0]),
    decreases occ.len(),
{
    if occ.len() > 1 {
        lemma_no_reads(t, targets, occ.drop_last());
        assert(occ.drop_last()[0] == occ[0]);
    }
}

/// Adjacent repeats collapsed leave something of something.
proof fn lemma_dedup_nonempty(s: Seq<usize>)
    requires
        s.len() > 0,
    ensures
        dedup(s).len() > 0,
    decreases s.len(),
{
    if s.len() > 1 {
        lemma_dedup_nonempty(s.drop_last());
    }
}

/// A variable that occurs has events.
proof fn lemma_events_nonempty(src: Seq<char>, t: Seq<NodeView>, var: Seq<char>)
    requires
        occurrences_upto(src, t, var, t.len() as int).len() > 0,
    ensures
        ({
            let n = t.len() as int;
            spec_var_events(
                src,
                assign_lines(src, t, var, true, n),
                assign_lines(src, t, var, false, n),
                reads_of(t, targets_upto(src, t, var, n), occurrences_upto(src, t, var, n)),
            ).len() > 0
        }),
{
    let n = t.len() as int;
    let a = assign_lines(src, t, var, true, n);
    let g = assign_lines(src, t, var, false, n);
    let ts = targets_upto(src, t, var, n);
    let occ = occurrences_upto(src, t, var, n);
    let rd = reads_of(t, ts, occ);
    lemma_targets_len(src, t, var, n);
    law_sort_by_key_sorted(keyed_lines(a));
    law_sort_by_key_sorted(keyed_lines(rd));
    let raw = raw_events(src, a, g, rd);
    if rd.len() == 0 {
        lemma_no_reads(t, ts, occ);
        assert(ts.len() > 0);
        assert(a.len() + g.len() > 0);
    } else {
        lemma_dedup_nonempty(sorted_lines(rd));
    }
    assert(raw.len() > 0);
    law_sort_by_key_sorted(keyed_events(raw));
}

/// An assignment node is not an identifier.
proof fn lemma_assignment_kinds()
    ensures
        "assignment"@ != "identifier"@,
        "augmented_assignment"@ != "identifier"@,
{
    reveal_strlit("assignment");
    reveal_strlit("augmented_assignment");
    reveal_strlit("identifier");
    assert("assignment"@[0] != "identifier"@[0]);
    assert("augmented_assignment"@.len() != "identifier"@.len());
}

/// The flow of `var` in a parsed tree of `src`.
pub fn var_flow_of(tree: &PyTree, src: &str, var: &str) -> (r: Result<VarFlow>)
    ensures
        var_flow_is(src@, tree@, var@, r),
{
    broadcast use vstd::std_specs::hash::group_hash_axioms;

    let ghost t = tree@;
    let n = tree.nodes.len();
    let mut assigns: Vec<usize> = Vec::new();
    let mut augmented: Vec<usize> = Vec::new();
    let mut targets: HashSet<usize> = HashSet::new();
    let mut occurrences: Vec<usize> = Vec::new();
    let mut function: Option<String> = None;
    let mut i: usize = 0;
    while i < n
        invariant
            i <= n == t.len(),
            t == tree@,
            assigns@ == assign_lines(src@, t, var@, true, i as int),
            augmented@ == assign_lines(src@, t, var@, false, i as int),
            forall|x: usize| #[trigger] targets@.contains(x) <==> targets_upto(src@, t, var@, i as int).contains(
                x as int,
            ),
            occurrences@.map_values(|k: usize| k as int) == occurrences_upto(src@, t, var@, i as int),
            forall|q: int| 0 <= q < occurrences@.len() ==> #[trigger] occurrences@[q] < n,
            opt_string_view(function) == function_upto(src@, t, var@, i as int),
        decreases n - i,
    {
        assert(t[i as int] == tree.nodes@[i as int]@);
        let k = tree.nodes[i].kind.as_str();
        let is_assign = str_eq(k, "assignment");
        if is_assign || str_eq(k, "augmented_assignment") {
            proof {
                lemma_assignment_kinds();
            }
            match tree.field_child(i, "left") {
                Some(left) => {
                    assert(t[left as int] == tree.nodes@[left as int]@);
                    if str_eq(tree.nodes[left].kind.as_str(), "identifier") && str_eq(
                        text_of(src, &tree.nodes[left]).as_str(),
                        var,
                    ) {
                        let ghost tb = targets_upto(src@, t, var@, i as int);
                        targets.insert(left);
                        assert(targets_upto(src@, t, var@, i + 1) == tb.push(left as int));
                        assert forall|x: usize| #[trigger] targets@.contains(x) <==> tb.push(
                            left as int,
                        ).contains(x as int) by {
                            if tb.push(left as int).contains(x as int) {
                                let q = choose|q: int| 0 <= q < tb.len() + 1 && tb.push(left as int)[q] == x as int;
                                if q < tb.len() {
                                    assert(tb[q] == x as int);
                                }
                            }
                            if tb.contains(x as int) {
                                let q = choose|q: int| 0 <= q < tb.len() && tb[q] == x as int;
                                assert(tb.push(left as int)[q] == x as int);
                            }
                            if x == left {
                                assert(tb.push(left as int)[tb.len() as int] == x as int);
                            }
                        }

                        if is_assign {
                            assigns.push(line_of(&tree.nodes[left]));
                        } else {
                            augmented.push(line_of(&tree.nodes[left]));
                        }
                    }
                },
                None => {},
            }
        } else if str_eq(k, "identifier") && str_eq(text_of(src, &tree.nodes[i]).as_str(), var) {
            let ghost ob = occurrences@;
            occurrences.push(i);
            assert(occurrences@.map_values(|k: usize| k as int) =~= ob.map_values(|k: usize| k as int).push(
                i as int,
            ));
            if function.is_none() {
                function = tree.enclosing_name(src, i);
            }
        }
        i += 1;
    }
    if occurrences.len() == 0 {
        assert(occurrences@.map_values(|k: usize| k as int).len() == 0);
        return Err(not_found("variable", var));
    }
    let ghost ts = targets_upto(src@, t, var@, n as int);
    let ghost occ = occurrences_upto(src@, t, var@, n as int);
    let mut reads: Vec<usize> = Vec::new();
    let mut j: usize = 0;
    while j < occurrences.len()
        invariant
            j <= occurrences@.len(),
            n == t.len(),
            t == tree@,
            forall|x: usize| #[trigger] targets@.contains(x) <==> ts.contains(x as int),
            occurrences@.map_values(|k: usize| k as int) == occ,
            forall|q: int| 0 <= q < occurrences@.len() ==> #[trigger] occurrences@[q] < n,
            reads@ == reads_of(t, ts, occ.subrange(0, j as int)),
        decreases occurrences@.len() - j,
    {
        let o = occurrences[j];
        let is_target = targets.contains(&o);
        proof {
            assert(occ.subrange(0, j + 1).drop_last() =~= occ.subrange(0, j as int));
            assert(occ.subrange(0, j + 1).last() == o as int);
            assert(is_target == ts.contains(o as int));
        }
        assert(t[o as int] == tree.nodes@[o as int]@);
        if !is_target {
            reads.push(line_of(&tree.nodes[o]));
        }
        j += 1;
    }
    assert(occ.subrange(0, occurrences@.len() as int) =~= occ);
    let events = var_events(src, &assigns, &augmented, &reads);
    proof {
        lemma_events_nonempty(src@, t, var@);
    }
    Ok(VarFlow { name: owned(var), function, events })
}

// ---------------------------------------------------------------------------
// A function's flow
// ---------------------------------------------------------------------------

/// Whether node `k` is a `function_definition` named `func`.
pub open spec fn defines(src: Seq<char>, t: Seq<NodeView>, k: int, func: Seq<char>) -> bool {
    is_kind(t, k, "function_definition"@) && match field_child(t, k, "name"@) {
        Some(q) => node_text(src, t[q]) == func,
        None => false,
    }
}

/// The first definition of `func` from node `k` on, in pre-order.
pub open spec fn find_def_from(src: Seq<char>, t: Seq<NodeView>, func: Seq<char>, k: int) -> Option<int>
    decreases t.len() - k,
{
    if k < 0 || k >= t.len() {
        None
    } else if defines(src, t, k, func) {
        Some(k)
    } else {
        find_def_from(src, t, func, k + 1)
    }
}

/// The texts of nodes.
pub open spec fn texts(src: Seq<char>, t: Seq<NodeView>, ks: Seq<int>) -> Seq<Seq<char>> {
    ks.map_values(|k: int| node_text(src, t[k]))
}

/// A definition's parameters: the texts of the named children of its
/// `parameters` field.
pub open spec fn spec_params(src: Seq<char>, t: Seq<NodeView>, d: int) -> Seq<Seq<char>> {
    match field_child(t, d, "parameters"@) {
        Some(p) => texts(src, t, named_children(t, p)),
        None => seq![],
    }
}

/// A definition's return annotation: the text of its `return_type` field.
pub open spec fn spec_return_ann(src: Seq<char>, t: Seq<NodeView>, d: int) -> Option<Seq<char>> {
    match field_child(t, d, "return_type"@) {
        Some(q) => Some(node_text(src, t[q])),
        None => None,
    }
}

/// A definition's callees: the distinct calls of its `body` field.
pub open spec fn spec_callees(src: Seq<char>, t: Seq<NodeView>, d: int) -> Seq<(Seq<char>, usize)> {
    match field_child(t, d, "body"@) {
        Some(b) => body_calls(src, t, b),
        None => seq![],
    }
}

/// What the flow of `func` in a tree is: an error when the tree defines no
/// function `func`; otherwise, of its first definition in pre-order, the
/// line, parameters, return annotation and callees, and the callers of
/// `func` among all call sites.
pub open spec fn function_flow_is(src: Seq<char>, t: Seq<NodeView>, func: Seq<char>, r: Result<FunctionFlow>) -> bool {
    match find_def_from(src, t, func, 0) {
        None => r matches Err(e) && e matches Error::Other(m) && m@ == not_found_message("function"@, func),
        Some(d) => r matches Ok(f) && f.name@ == func && f.line == node_line(t[d])
            && f.params@.map_values(|s: String| s@) == spec_params(src, t, d) && opt_string_view(
            f.returns,
        ) == spec_return_ann(src, t, d) && calls_view(f.callers@) == spec_callers_of(
            call_sites_upto(src, t, t.len() as int),
            func,
        ) && f.callees@.map_values(|c: Call| call_view(c)) == spec_callees(src, t, d),
    }
}

/// The texts of some nodes.
fn texts_of(tree: &PyTree, src: &str, ks: &Vec<usize>) -> (r: Vec<String>)
    requires
        forall|i: int| 0 <= i < ks@.len() ==> #[trigger] ks@[i] < tree@.len(),
    ensures
        r@.map_values(|s: String| s@) == texts(src@, tree@, ks@.map_values(|k: usize| k as int)),
{
    let mut r: Vec<String> = Vec::new();
    let mut i: usize = 0;
    while i < ks.len()
        invariant
            i <= ks@.len(),
            forall|i: int| 0 <= i < ks@.len() ==> #[trigger] ks@[i] < tree@.len(),
            r@.map_values(|s: String| s@) == texts(src@, tree@, ks@.map_values(|k: usize| k as int)).subrange(
                0,
                i as int,
            ),
        decreases ks@.len() - i,
    {
        let k = ks[i];
        assert(tree@[k as int] == tree.nodes@[k as int]@);
        let s = text_of(src, &tree.nodes[k]);
        let ghost before = r@;
        r.push(s);
        assert(r@.map_values(|s: String| s@) =~= before.map_values(|s: String| s@).push(s@));
        assert(texts(src@, tree@, ks@.map_values(|k: usize| k as int)).subrange(0, i + 1) =~= texts(
            src@,
            tree@,
            ks@.map_values(|k: usize| k as int),
        ).subrange(0, i as int).push(s@));
        i += 1;
    }
    assert(texts(src@, tree@, ks@.map_values(|k: usize| k as int)).subrange(0, ks@.len() as int)
        =~= texts(src@, tree@, ks@.map_values(|k: usize| k as int)));
    r
}

/// The flow of `func` in a parsed tree of `src`.
pub fn function_flow_of(tree: &PyTree, src: &str, func: &str) -> (r: Result<FunctionFlow>)
    ensures
        function_flow_is(src@, tree@, func@, r),
{
    let ghost t = tree@;
    let n = tree.nodes.len();
    let mut k: usize = 0;
    let mut found: Option<usize> = None;
    while k < n && found.is_none()
        invariant
            k <= n == t.len(),
            t == tree@,
            found is None ==> find_def_from(src@, t, func@, 0) == find_def_from(src@, t, func@, k as int),
            found matches Some(d) ==> d < n && find_def_from(src@, t, func@, 0) == Some(d as int),
        decreases n - k,
    {
        assert(t[k as int] == tree.nodes@[k as int]@);
        if str_eq(tree.nodes[k].kind.as_str(), "function_definition") {
            match tree.field_child(k, "name") {
                Some(q) => {
                    assert(t[q as int] == tree.nodes@[q as int]@);
                    if str_eq(text_of(src, &tree.nodes[q]).as_str(), func) {
                        found = Some(k);
                    }
                },
                None => {},
            }
        }
        k += 1;
    }
    let d = match found {
        Some(d) => d,
        None => {
            return Err(not_found("function", func));
        },
    };
    assert(find_def_from(src@, t, func@, 0) == Some(d as int));
    let mut params: Vec<String> = Vec::new();
    match tree.field_child(d, "parameters") {
        Some(p) => {
            let kids = tree.named_children(p);
            params = texts_of(tree, src, &kids);
        },
        None => {
            assert(params@.map_values(|s: String| s@) =~= Seq::<Seq<char>>::empty());
        },
    }
    let returns_ann = match tree.field_child(d, "return_type") {
        Some(q) => {
            assert(t[q as int] == tree.nodes@[q as int]@);
            Some(text_of(src, &tree.nodes[q]))
        },
        None => None,
    };
    let callees = match tree.field_child(d, "body") {
        Some(b) => calls_in(tree, src, b),
        None => {
            let none: Vec<Call> = Vec::new();
            assert(none@.map_values(|c: Call| call_view(c)) =~= Seq::<(Seq<char>, usize)>::empty());
            none
        },
    };
    let sites = call_sites(tree, src);
    let callers = callers_of(&sites, func);
    assert(t[d as int] == tree.nodes@[d as int]@);
    Ok(FunctionFlow { name: owned(func), line: line_of(&tree.nodes[d]), params, returns: returns_ann, callers, callees })
}

// ---------------------------------------------------------------------------
// Every function
// ---------------------------------------------------------------------------

/// The values of the `return` statements among nodes `lo..hi`, in
/// pre-order: the text of each one's first named child.
pub open spec fn returns_between(src: Seq<char>, t: Seq<NodeView>, lo: int, hi: int) -> Seq<Seq<char>>
    decreases hi - lo,
{
    if hi <= lo {
        seq![]
    } else {
        let p = returns_between(src, t, lo, hi - 1);
        if is_kind(t, hi - 1, "return_statement"@) && named_children(t, hi - 1).len() > 0 {
            p.push(node_text(src, t[named_children(t, hi - 1)[0]]))
        } else {
            p
        }
    }
}

/// A definition by its contents.
pub open spec fn def_view(d: FunctionDef) -> (Seq<char>, Seq<Seq<char>>, Seq<(Seq<char>, usize)>) {
    (d.name@, d.returns@.map_values(|s: String| s@), d.callees@.map_values(|c: Call| call_view(c)))
}

/// The function definitions among the first `n` nodes that have a name and
/// a body, in pre-order: each one's name, the values of the `return`s in its
/// body, and its body's distinct calls.
pub open spec fn defs_upto(src: Seq<char>, t: Seq<NodeView>, n: int) -> Seq<(Seq<char>, Seq<Seq<char>>, Seq<(Seq<char>, usize)>)>
    decreases n,
{
    if n <= 0 {
        seq![]
    } else {
        let p = defs_upto(src, t, n - 1);
        let k = n - 1;
        if is_kind(t, k, "function_definition"@) {
            match (field_child(t, k, "name"@), field_child(t, k, "body"@)) {
                (Some(q), Some(b)) => p.push(
                    (
                        node_text(src, t[q]),
                        returns_between(src, t, b, subtree_end(t, b)),
                        body_calls(src, t, b),
                    ),
                ),
                _ => p,
            }
        } else {
            p
        }
    }
}

/// The values returned in the subtree of `b`.
fn returns_in(tree: &PyTree, src: &str, b: usize) -> (r: Vec<String>)
    requires
        b < tree@.len(),
    ensures
        r@.map_values(|s: String| s@) == returns_between(src@, tree@, b as int, subtree_end(tree@, b as int)),
{
    let end = tree.subtree_end(b);
    let mut rets: Vec<String> = Vec::new();
    let mut k = b;
    while k < end
        invariant
            b <= k <= end <= tree@.len(),
            end == subtree_end(tree@, b as int),
            rets@.map_values(|s: String| s@) == returns_between(src@, tree@, b as int, k as int),
        decreases end - k,
    {
        assert(tree@[k as int] == tree.nodes@[k as int]@);
        if str_eq(tree.nodes[k].kind.as_str(), "return_statement") {
            let kids = tree.named_children(k);
            if kids.len() > 0 {
                let v = kids[0];
                assert(v as int == named_children(tree@, k as int)[0]);
                assert(tree@[v as int] == tree.nodes@[v as int]@);
                let s = text_of(src, &tree.nodes[v]);
                let ghost before = rets@;
                rets.push(s);
                assert(rets@.map_values(|s: String| s@) =~= before.map_values(|s: String| s@).push(s@));
            } else {
                assert(named_children(tree@, k as int).len() == 0);
            }
        }
        k += 1;
    }
    rets
}

/// Every function definition of a parsed tree of `src`, in pre-order.
pub fn functions_of(tree: &PyTree, src: &str) -> (r: Vec<FunctionDef>)
    ensures
        r@.map_values(|d: FunctionDef| def_view(d)) == defs_upto(src@, tree@, tree@.len() as int),
{
    let ghost t = tree@;
    let n = tree.nodes.len();
    let mut defs: Vec<FunctionDef> = Vec::new();
    let mut k: usize = 0;
    while k < n
        invariant
            k <= n == t.len(),
            t == tree@,
            defs@.map_values(|d: FunctionDef| def_view(d)) == defs_upto(src@, t, k as int),
        decreases n - k,
    {
        assert(t[k as int] == tree.nodes@[k as int]@);
        if str_eq(tree.nodes[k].kind.as_str(), "function_definition") {
            match (tree.field_child(k, "name"), tree.field_child(k, "body")) {
                (Some(q), Some(b)) => {
                    assert(t[q as int] == tree.nodes@[q as int]@);
                    let d = FunctionDef {
                        name: text_of(src, &tree.nodes[q]),
                        returns: returns_in(tree, src, b),
                        callees: calls_in(tree, src, b),
                    };
                    let ghost before = defs@;
                    defs.push(d);
                    assert(defs@.map_values(|d: FunctionDef| def_view(d)) =~= before.map_values(
                        |d: FunctionDef| def_view(d),
                    ).push(def_view(d)));
                },
                _ => {},
            }
        }
        k += 1;
    }
    defs
}

fn not_found(what: &str, name: &str) -> (e: Error)
    ensures
        e matches Error::Other(m) && m@ == not_found_message(what@, name@),
{
    let mut m = owned(what);
    push_str(&mut m, " `");
    push_str(&mut m, name);
    push_str(&mut m, "` not found in this file");
    Error::Other(m)
}

/// The message for a symbol the source does not hold.
pub open spec fn not_found_message(what: Seq<char>, name: Seq<char>) -> Seq<char> {
    what + " `"@ + name + "` not found in this file"@
}

impl Analyzer for Python {
    /// Trace a variable's lifecycle through the source's Python syntax tree
    /// (see `var_flow_is`): an error when no identifier `var` occurs.
    fn var_flow(&self, src: &str, var: &str) -> (r: Result<VarFlow>)
        ensures
            var_flow_is(src@, python_tree(src@), var@, r),
    {
        let tree = parse_tree(src);
        var_flow_of(&tree, src, var)
    }

    /// Trace a function's callers, callees, and signature through the
    /// source's Python syntax tree (see `function_flow_is`): an error when
    /// the source defines no such function.
    fn function_flow(&self, src: &str, func: &str) -> (r: Result<FunctionFlow>)
        ensures
            function_flow_is(src@, python_tree(src@), func@, r),
    {
        let tree = parse_tree(src);
        function_flow_of(&tree, src, func)
    }

    /// Every function definition of the source's Python syntax tree, in
    /// pre-order (see `defs_upto`); it never fails.
    fn functions(&self, src: &str) -> (r: Result<Vec<FunctionDef>>)
        ensures
            r matches Ok(defs) && defs@.map_values(|d: FunctionDef| def_view(d)) == defs_upto(
                src@,
                python_tree(src@),
                python_tree(src@).len() as int,
            ),
    {
        let tree = parse_tree(src);
        Ok(functions_of(&tree, src))
    }
}

} // verus!
