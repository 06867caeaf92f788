//! Prompt-blame: resolve a line to the prompts and decisions that shaped it,
//! git-derived (see `docs/anchors.md` of the project): an anchor counts for a
//! queried range when its range overlaps the range and it was recorded at a
//! commit that touched those lines.

use vstd::prelude::*;

use crate::git::CommitInfo;
use crate::order::{
    keys_sorted, law_sort_by_key_sorted, lemma_sort_map, lemma_values_map, map_vals, sort_by_key, stable_sort, strip_keys, values,
};
use crate::store::Anchor;
use crate::text::str_eq;

verus! {

/// One prompt in a line's history, with any decisions on the same anchor.
#[derive(Debug, Clone, PartialEq, Eq)]
pub struct Entry {
    /// Commit the anchor was recorded against.
    pub commit_id: String,
    /// Commit summary line.
    pub commit_summary: String,
    /// Author display name.
    pub author: String,
    /// Author time (unix seconds).
    pub time: i64,
    /// Session label/external id, if known.
    pub session: Option<String>,
    /// The prompt text.
    pub prompt: String,
    /// Decisions attached to the same anchor.
    pub decisions: Vec<String>,
}

/// An entry by its contents.
pub struct EntryView {
    /// Commit the anchor was recorded against.
    pub commit_id: Seq<char>,
    /// Commit summary line.
    pub commit_summary: Seq<char>,
    /// Author display name.
    pub author: Seq<char>,
    /// Author time (unix seconds).
    pub time: i64,
    /// Session label/external id, if known.
    pub session: Option<Seq<char>>,
    /// The prompt text.
    pub prompt: Seq<char>,
    /// Decisions attached to the same anchor.
    pub decisions: Seq<Seq<char>>,
}

/// An optional string by its characters.
pub open spec fn opt_chars(o: Option<String>) -> Option<Seq<char>> {
    match o {
        Some(s) => Some(s@),
        None => None,
    }
}

/// Strings by their characters.
pub open spec fn strings_view(v: Seq<String>) -> Seq<Seq<char>> {
    v.map_values(|s: String| s@)
}

impl View for Entry {
    type V = EntryView;

    open spec fn view(&self) -> EntryView {
        EntryView {
            commit_id: self.commit_id@,
            commit_summary: self.commit_summary@,
            author: self.author@,
            time: self.time,
            session: opt_chars(self.session),
            prompt: self.prompt@,
            decisions: strings_view(self.decisions@),
        }
    }
}

/// The result of `why` for a line (range).
#[derive(Debug, Clone, PartialEq, Eq)]
pub struct WhyResult {
    /// Repo-relative file.
    pub file: String,
    /// First line queried.
    pub line_start: i64,
    /// Last line queried.
    pub line_end: i64,
    /// Current text of the first queried line, if readable.
    pub code: Option<String>,
    /// Whether the line is committed (blame succeeded).
    pub committed: bool,
    /// Prompt history, oldest first.
    pub entries: Vec<Entry>,
}

/// A prompt on an anchor, as the store returns it: its session's display
/// name (label, else external id) and its text.
#[derive(Debug, Clone, PartialEq, Eq)]
pub struct PromptRecord {
    /// Session label or external id, if any.
    pub session: Option<String>,
    /// Prompt text.
    pub text: String,
}

/// An anchor with what hangs off it: its decisions' texts and its prompts,
/// each in store order.
#[derive(Debug, Clone, PartialEq, Eq)]
pub struct AnchorRecord {
    /// The anchor.
    pub anchor: Anchor,
    /// Texts of its decisions.
    pub decisions: Vec<String>,
    /// Its prompts.
    pub prompts: Vec<PromptRecord>,
}

/// The anchor's range overlaps `[line_start, line_end]`.
pub open spec fn overlaps(a: Anchor, line_start: i64, line_end: i64) -> bool {
    a.line_start <= line_end && a.line_end >= line_start
}

/// The touching commit with the anchor's id (the last one listed, as a map
/// built from the list keeps), if any.
pub open spec fn commit_for(commits: Seq<CommitInfo>, id: Seq<char>) -> Option<CommitInfo>
    decreases commits.len(),
{
    if commits.len() == 0 {
        None
    } else if commits.last().id@ == id {
        Some(commits.last())
    } else {
        commit_for(commits.drop_last(), id)
    }
}

/// The entry for one prompt on a matched anchor.
pub open spec fn spec_entry(a: Anchor, meta: CommitInfo, p: PromptRecord, decisions: Vec<String>) -> EntryView {
    EntryView {
        commit_id: a.commit_id@,
        commit_summary: meta.summary@,
        author: meta.author_name@,
        time: meta.time,
        session: opt_chars(p.session),
        prompt: p.text@,
        decisions: strings_view(decisions@),
    }
}

/// The entries of one anchor record under commit `meta`, keyed by time.
pub open spec fn record_entries(r: AnchorRecord, meta: CommitInfo) -> Seq<(i128, EntryView)> {
    r.prompts@.map_values(
        |p: PromptRecord| (meta.time as i128, spec_entry(r.anchor, meta, p, r.decisions)),
    )
}

/// Entries of all matching records, in record order.
pub open spec fn matched_entries(
    recs: Seq<AnchorRecord>,
    commits: Seq<CommitInfo>,
    line_start: i64,
    line_end: i64,
) -> Seq<(i128, EntryView)>
    decreases recs.len(),
{
    if recs.len() == 0 {
        seq![]
    } else {
        let prev = matched_entries(recs.drop_last(), commits, line_start, line_end);
        let r = recs.last();
        match commit_for(commits, r.anchor.commit_id@) {
            Some(meta) => if overlaps(r.anchor, line_start, line_end) {
                prev + record_entries(r, meta)
            } else {
                prev
            },
            None => prev,
        }
    }
}

/// A line range's prompt history: one entry per prompt on every anchor that
/// overlaps the range and was recorded at a commit that touched it, oldest
/// commit time first (ties in anchor order).
pub open spec fn spec_history(
    recs: Seq<AnchorRecord>,
    commits: Seq<CommitInfo>,
    line_start: i64,
    line_end: i64,
) -> Seq<EntryView> {
    values(sort_by_key(matched_entries(recs, commits, line_start, line_end)))
}

/// The commit among `commits` that an anchor was recorded at, when the anchor
/// overlaps the queried range; `None` means the anchor does not count.
pub fn anchor_commit(anchor: &Anchor, line_start: i64, line_end: i64, commits: &Vec<CommitInfo>) -> (r: Option<CommitInfo>)
    ensures
        r == if overlaps(*anchor, line_start, line_end) {
            commit_for(commits@, anchor.commit_id@)
        } else {
            None
        },
{
    if !(anchor.line_start <= line_end && anchor.line_end >= line_start) {
        return None;
    }
    let mut i = commits.len();
    assert(commits@.subrange(0, i as int) =~= commits@);
    while i > 0
        invariant
            i <= commits@.len(),
            overlaps(*anchor, line_start, line_end),
            commit_for(commits@, anchor.commit_id@) == commit_for(
                commits@.subrange(0, i as int),
                anchor.commit_id@,
            ),
        decreases i,
    {
        let ghost sub = commits@.subrange(0, i as int);
        assert(sub.drop_last() =~= commits@.subrange(0, i - 1));
        assert(sub.last() == commits@[i - 1]);
        if str_eq(commits[i - 1].id.as_str(), anchor.commit_id.as_str()) {
            assert(commit_for(sub, anchor.commit_id@) == Some(commits@[i - 1]));
            return Some(commits[i - 1].duplicate());
        }
        i -= 1;
    }
    None
}

fn clone_strings(v: &Vec<String>) -> (r: Vec<String>)
    ensures
        r@ == v@,
{
    let mut r: Vec<String> = Vec::new();
    let mut i: usize = 0;
    while i < v.len()
        invariant
            i <= v@.len(),
            r@ == v@.subrange(0, i as int),
        decreases v@.len() - i,
    {
        r.push(v[i].clone());
        assert(v@.subrange(0, i + 1) =~= v@.subrange(0, i as int).push(v@[i as int]));
        i += 1;
    }
    r
}

fn clone_opt(o: &Option<String>) -> (r: Option<String>)
    ensures
        r == *o,
{
    match o {
        Some(s) => Some(s.clone()),
        None => None,
    }
}

/// The prompt history of `file` lines `[line_start, line_end]`, given the
/// anchors recorded for the file (with their prompts and decisions) and the
/// commits that touched the lines, or `None` for those when the lines are not
/// committed yet.
pub fn why(
    file: String,
    line_start: i64,
    line_end: i64,
    code: Option<String>,
    commits: Option<Vec<CommitInfo>>,
    records: Vec<AnchorRecord>,
) -> (r: WhyResult)
    ensures
        r.file == file,
        r.line_start == line_start,
        r.line_end == line_end,
        r.code == code,
        r.committed == commits is Some,
        r.entries@.map_values(|e: Entry| e@) == match commits {
            Some(cs) => spec_history(records@, cs@, line_start, line_end),
            None => seq![],
        },
{
    let commits = match commits {
        Some(cs) => cs,
        None => {
            return WhyResult { file, line_start, line_end, code, committed: false, entries: Vec::new() };
        },
    };
    let mut keyed: Vec<(i128, Entry)> = Vec::new();
    let mut i: usize = 0;
    while i < records.len()
        invariant
            i <= records@.len(),
            map_vals(keyed@, |e: Entry| e@) == matched_entries(
                records@.subrange(0, i as int),
                commits@,
                line_start,
                line_end,
            ),
        decreases records@.len() - i,
    {
        let rec = &records[i];
        assert(records@.subrange(0, i + 1).drop_last() =~= records@.subrange(0, i as int));
        match anchor_commit(&rec.anchor, line_start, line_end, &commits) {
            Some(meta) => {
                let ghost before = map_vals(keyed@, |e: Entry| e@);
                let ghost want = record_entries(*rec, meta);
                let mut j: usize = 0;
                while j < rec.prompts.len()
                    invariant
                        j <= rec.prompts@.len(),
                        map_vals(keyed@, |e: Entry| e@) == before + want.subrange(0, j as int),
                        want == record_entries(*rec, meta),
                    decreases rec.prompts@.len() - j,
                {
                    let p = &rec.prompts[j];
                    let e = Entry {
                        commit_id: rec.anchor.commit_id.clone(),
                        commit_summary: meta.summary.clone(),
                        author: meta.author_name.clone(),
                        time: meta.time,
                        session: clone_opt(&p.session),
                        prompt: p.text.clone(),
                        decisions: clone_strings(&rec.decisions),
                    };
                    let ghost old_keyed = keyed@;
                    keyed.push((meta.time as i128, e));
                    assert(want.subrange(0, j + 1) =~= want.subrange(0, j as int).push(want[j as int]));
                    assert(e@.decisions =~= strings_view(rec.decisions@));
                    assert(map_vals(keyed@, |e: Entry| e@) =~= map_vals(old_keyed, |e: Entry| e@).push(
                        (meta.time as i128, e@),
                    ));
                    j += 1;
                }
                assert(want.subrange(0, rec.prompts@.len() as int) =~= want);
            },
            None => {},
        }
        i += 1;
    }
    assert(records@.subrange(0, records@.len() as int) =~= records@);
    let sorted = stable_sort(keyed);
    proof {
        lemma_sort_map(keyed@, |e: Entry| e@);
        lemma_values_map(sorted@, |e: Entry| e@);
    }
    let entries = strip_keys(sorted);
    WhyResult { file, line_start, line_end, code, committed: true, entries }
}

/// Every matched entry is keyed by its own commit time.
proof fn lemma_matched_keys(
    recs: Seq<AnchorRecord>,
    commits: Seq<CommitInfo>,
    line_start: i64,
    line_end: i64,
)
    ensures
        forall|k: int|
            0 <= k < matched_entries(recs, commits, line_start, line_end).len() ==> (#[trigger] matched_entries(
                recs,
                commits,
                line_start,
                line_end,
            )[k]).0 == matched_entries(recs, commits, line_start, line_end)[k].1.time as i128,
    decreases recs.len(),
{
    if recs.len() > 0 {
        lemma_matched_keys(recs.drop_last(), commits, line_start, line_end);
    }
}

/// A line's history runs oldest first: entry times never decrease.
pub proof fn law_history_oldest_first(
    recs: Seq<AnchorRecord>,
    commits: Seq<CommitInfo>,
    line_start: i64,
    line_end: i64,
)
    ensures
        forall|i: int, j: int|
            0 <= i <= j < spec_history(recs, commits, line_start, line_end).len() ==> (#[trigger] spec_history(
                recs,
                commits,
                line_start,
                line_end,
            )[i]).time <= (#[trigger] spec_history(recs, commits, line_start, line_end)[j]).time,
{
    broadcast use vstd::seq_lib::group_to_multiset_ensures;

    let m = matched_entries(recs, commits, line_start, line_end);
    let t = sort_by_key(m);
    law_sort_by_key_sorted(m);
    lemma_matched_keys(recs, commits, line_start, line_end);
    assert forall|k: int| 0 <= k < t.len() implies (#[trigger] t[k]).0 == t[k].1.time as i128 by {
        assert(t.contains(t[k]));
        assert(m.to_multiset().count(t[k]) > 0);
        assert(m.contains(t[k]));
    }
    assert forall|i: int, j: int| 0 <= i <= j < t.len() implies #[trigger] t[i].1.time <= #[trigger] t[j].1.time by {
        assert(t[i].0 <= t[j].0);
    }
}

/// A line no anchor speaks for has an empty history: when no record overlaps
/// the range at a commit that touched it, nothing is returned.
pub proof fn law_unanchored_history_is_empty(
    recs: Seq<AnchorRecord>,
    commits: Seq<CommitInfo>,
    line_start: i64,
    line_end: i64,
)
    requires
        forall|k: int|
            0 <= k < recs.len() ==> !overlaps(#[trigger] recs[k].anchor, line_start, line_end)
                || commit_for(commits, recs[k].anchor.commit_id@) is None,
    ensures
        spec_history(recs, commits, line_start, line_end).len() == 0,
    decreases recs.len(),
{
    if recs.len() > 0 {
        let d = recs.drop_last();
        assert forall|k: int| 0 <= k < d.len() implies !overlaps(#[trigger] d[k].anchor, line_start, line_end)
            || commit_for(commits, d[k].anchor.commit_id@) is None by {
            assert(d[k] == recs[k]);
        }
        law_unanchored_history_is_empty(d, commits, line_start, line_end);
        law_sort_by_key_sorted(matched_entries(d, commits, line_start, line_end));
        law_sort_by_key_sorted(matched_entries(recs, commits, line_start, line_end));
        assert(recs.last() == recs[recs.len() - 1]);
    }
}

/// Where an entry may come from: prompt `q` of record `j`, whose anchor
/// overlaps the range and was recorded at a commit that touched it.
pub open spec fn entry_from(
    recs: Seq<AnchorRecord>,
    commits: Seq<CommitInfo>,
    line_start: i64,
    line_end: i64,
    e: EntryView,
    j: int,
    q: int,
) -> bool {
    &&& 0 <= j < recs.len()
    &&& 0 <= q < recs[j].prompts@.len()
    &&& overlaps(recs[j].anchor, line_start, line_end)
    &&& commit_for(commits, recs[j].anchor.commit_id@) matches Some(meta) && e == spec_entry(
        recs[j].anchor,
        meta,
        recs[j].prompts@[q],
        recs[j].decisions,
    )
}

/// Some prompt of some record accounts for the entry.
pub open spec fn anchored(
    recs: Seq<AnchorRecord>,
    commits: Seq<CommitInfo>,
    line_start: i64,
    line_end: i64,
    e: EntryView,
) -> bool {
    exists|j: int, q: int| entry_from(recs, commits, line_start, line_end, e, j, q)
}

proof fn lemma_matched_from(
    recs: Seq<AnchorRecord>,
    commits: Seq<CommitInfo>,
    line_start: i64,
    line_end: i64,
)
    ensures
        forall|k: int|
            0 <= k < matched_entries(recs, commits, line_start, line_end).len() ==> anchored(
                recs,
                commits,
                line_start,
                line_end,
                #[trigger] matched_entries(recs, commits, line_start, line_end)[k].1,
            ),
    decreases recs.len(),
{
    if recs.len() > 0 {
        let d = recs.drop_last();
        lemma_matched_from(d, commits, line_start, line_end);
        let prev = matched_entries(d, commits, line_start, line_end);
        let m = matched_entries(recs, commits, line_start, line_end);
        let r = recs.last();
        assert forall|k: int| 0 <= k < m.len() implies anchored(
            recs,
            commits,
            line_start,
            line_end,
            #[trigger] m[k].1,
        ) by {
            if k < prev.len() {
                assert(m[k] == prev[k]);
                assert(anchored(d, commits, line_start, line_end, prev[k].1));
                let (j, q) = choose|j: int, q: int|
                    entry_from(d, commits, line_start, line_end, prev[k].1, j, q);
                assert(recs[j] == d[j]);
                assert(entry_from(recs, commits, line_start, line_end, m[k].1, j, q));
            } else {
                let meta = commit_for(commits, r.anchor.commit_id@)->Some_0;
                let q = k - prev.len();
                assert(m == prev + record_entries(r, meta));
                assert(m[k] == record_entries(r, meta)[q]);
                assert(entry_from(recs, commits, line_start, line_end, m[k].1, recs.len() - 1, q));
            }
        }
    }
}

/// Blame is git-derived: every entry of a line's history is a prompt on an
/// anchor that overlaps the queried lines and was recorded at a commit that
/// touched them, reported with that commit's metadata and the anchor's
/// decisions.
pub proof fn law_history_entries_are_anchored(
    recs: Seq<AnchorRecord>,
    commits: Seq<CommitInfo>,
    line_start: i64,
    line_end: i64,
)
    ensures
        forall|i: int|
            0 <= i < spec_history(recs, commits, line_start, line_end).len() ==> anchored(
                recs,
                commits,
                line_start,
                line_end,
                #[trigger] spec_history(recs, commits, line_start, line_end)[i],
            ),
{
    broadcast use vstd::seq_lib::group_to_multiset_ensures;

    let m = matched_entries(recs, commits, line_start, line_end);
    let t = sort_by_key(m);
    law_sort_by_key_sorted(m);
    lemma_matched_from(recs, commits, line_start, line_end);
    let h = spec_history(recs, commits, line_start, line_end);
    assert forall|i: int| 0 <= i < h.len() implies anchored(
        recs,
        commits,
        line_start,
        line_end,
        #[trigger] h[i],
    ) by {
        assert(h[i] == t[i].1);
        assert(t.contains(t[i]));
        assert(m.to_multiset().count(t[i]) > 0);
        assert(m.contains(t[i]));
        let k = choose|k: int| 0 <= k < m.len() && m[k] == t[i];
        assert(m[k].1 == h[i]);
        assert(anchored(recs, commits, line_start, line_end, m[k].1));
    }
}

/// An entry reports prompt `q` of record `j` in full: the record's anchor
/// overlaps the range and was recorded at commit `meta`, one that touched
/// it; the entry carries that commit's id, summary, author and time, the
/// prompt's text and session, and every one of the record's decision texts,
/// in order.
pub open spec fn reports_record(
    recs: Seq<AnchorRecord>,
    commits: Seq<CommitInfo>,
    line_start: i64,
    line_end: i64,
    e: EntryView,
    j: int,
    q: int,
    meta: CommitInfo,
) -> bool {
    &&& 0 <= j < recs.len()
    &&& 0 <= q < recs[j].prompts@.len()
    &&& recs[j].anchor.line_start <= line_end && recs[j].anchor.line_end >= line_start
    &&& commits.contains(meta)
    &&& meta.id@ == recs[j].anchor.commit_id@
    &&& e.commit_id == recs[j].anchor.commit_id@
    &&& e.commit_summary == meta.summary@
    &&& e.author == meta.author_name@
    &&& e.time == meta.time
    &&& e.prompt == recs[j].prompts@[q].text@
    &&& e.session == opt_chars(recs[j].prompts@[q].session)
    &&& e.decisions.len() == recs[j].decisions@.len()
    &&& forall|d: int| 0 <= d < e.decisions.len() ==> e.decisions[d] == (#[trigger] recs[j].decisions@[d])@
}

/// Every entry of a line's history is one prompt of one anchor record,
/// reported in full: the anchor's commit id, the metadata of that commit as
/// git gives it, the prompt's text and session, and all of the record's
/// decision texts, in order.
pub proof fn law_history_entries_carry_their_record(
    recs: Seq<AnchorRecord>,
    commits: Seq<CommitInfo>,
    line_start: i64,
    line_end: i64,
    i: int,
)
    requires
        0 <= i < spec_history(recs, commits, line_start, line_end).len(),
    ensures
        exists|j: int, q: int, meta: CommitInfo|
            #[trigger] reports_record(
                recs,
                commits,
                line_start,
                line_end,
                spec_history(recs, commits, line_start, line_end)[i],
                j,
                q,
                meta,
            ),
{
    law_history_entries_are_anchored(recs, commits, line_start, line_end);
    let h = spec_history(recs, commits, line_start, line_end);
    assert(anchored(recs, commits, line_start, line_end, h[i]));
    let (j, q) = choose|j: int, q: int| entry_from(recs, commits, line_start, line_end, h[i], j, q);
    let meta = commit_for(commits, recs[j].anchor.commit_id@)->Some_0;
    lemma_commit_for_id(commits, recs[j].anchor.commit_id@);
    let e = h[i];
    assert forall|d: int| 0 <= d < e.decisions.len() implies e.decisions[d] == (
    #[trigger] recs[j].decisions@[d])@ by {}
    assert(reports_record(recs, commits, line_start, line_end, e, j, q, meta));
}

/// The commit found for an id has that id and is one of the commits.
proof fn lemma_commit_for_id(commits: Seq<CommitInfo>, id: Seq<char>)
    ensures
        commit_for(commits, id) matches Some(c) ==> c.id@ == id && commits.contains(c),
    decreases commits.len(),
{
    if commits.len() > 0 {
        lemma_commit_for_id(commits.drop_last(), id);
        if commits.last().id@ != id {
            if let Some(c) = commit_for(commits.drop_last(), id) {
                let k = choose|k: int| 0 <= k < commits.len() - 1 && commits.drop_last()[k] == c;
                assert(commits[k] == c);
            }
        } else {
            assert(commits[commits.len() - 1] == commits.last());
        }
    }
}

/// The matched entries hold the entry of every prompt of every record whose
/// anchor overlaps the range at a touching commit.
proof fn lemma_matched_has(
    recs: Seq<AnchorRecord>,
    commits: Seq<CommitInfo>,
    line_start: i64,
    line_end: i64,
    j: int,
    q: int,
)
    requires
        0 <= j < recs.len(),
        0 <= q < recs[j].prompts@.len(),
        overlaps(recs[j].anchor, line_start, line_end),
        commit_for(commits, recs[j].anchor.commit_id@) is Some,
    ensures
        ({
            let meta = commit_for(commits, recs[j].anchor.commit_id@)->Some_0;
            matched_entries(recs, commits, line_start, line_end).contains(
                (meta.time as i128, spec_entry(recs[j].anchor, meta, recs[j].prompts@[q], recs[j].decisions)),
            )
        }),
    decreases recs.len(),
{
    let meta = commit_for(commits, recs[j].anchor.commit_id@)->Some_0;
    let x = (meta.time as i128, spec_entry(recs[j].anchor, meta, recs[j].prompts@[q], recs[j].decisions));
    let d = recs.drop_last();
    let prev = matched_entries(d, commits, line_start, line_end);
    let m = matched_entries(recs, commits, line_start, line_end);
    if j == recs.len() - 1 {
        assert(recs.last() == recs[j]);
        let re = record_entries(recs[j], meta);
        assert(m == prev + re);
        assert(re[q] == x);
        assert(m[prev.len() + q] == x);
    } else {
        assert(d[j] == recs[j]);
        lemma_matched_has(d, commits, line_start, line_end, j, q);
        let k = choose|k: int| 0 <= k < prev.len() && prev[k] == x;
        if m != prev {
            let r = recs.last();
            let meta2 = commit_for(commits, r.anchor.commit_id@)->Some_0;
            assert(m == prev + record_entries(r, meta2));
            assert(m[k] == prev[k]);
        }
    }
}

/// A line's history leaves no prompt out: every prompt of every anchor
/// record whose anchor overlaps the queried lines and was recorded at a
/// commit that touched them has an entry reporting it in full.
pub proof fn law_history_lists_every_prompt(
    recs: Seq<AnchorRecord>,
    commits: Seq<CommitInfo>,
    line_start: i64,
    line_end: i64,
    j: int,
    q: int,
)
    requires
        0 <= j < recs.len(),
        0 <= q < recs[j].prompts@.len(),
        recs[j].anchor.line_start <= line_end && recs[j].anchor.line_end >= line_start,
        commit_for(commits, recs[j].anchor.commit_id@) is Some,
    ensures
        exists|i: int|
            0 <= i < spec_history(recs, commits, line_start, line_end).len() && #[trigger] reports_record(
                recs,
                commits,
                line_start,
                line_end,
                spec_history(recs, commits, line_start, line_end)[i],
                j,
                q,
                commit_for(commits, recs[j].anchor.commit_id@)->Some_0,
            ),
{
    broadcast use vstd::seq_lib::group_to_multiset_ensures;

    let meta = commit_for(commits, recs[j].anchor.commit_id@)->Some_0;
    let x = (meta.time as i128, spec_entry(recs[j].anchor, meta, recs[j].prompts@[q], recs[j].decisions));
    lemma_matched_has(recs, commits, line_start, line_end, j, q);
    lemma_commit_for_id(commits, recs[j].anchor.commit_id@);
    let m = matched_entries(recs, commits, line_start, line_end);
    let t = sort_by_key(m);
    law_sort_by_key_sorted(m);
    assert(m.to_multiset().count(x) > 0);
    assert(t.contains(x));
    let i = choose|i: int| 0 <= i < t.len() && t[i] == x;
    let h = spec_history(recs, commits, line_start, line_end);
    assert(h[i] == t[i].1);
    let e = h[i];
    assert forall|d: int| 0 <= d < e.decisions.len() implies e.decisions[d] == (
    #[trigger] recs[j].decisions@[d])@ by {}
    assert(reports_record(recs, commits, line_start, line_end, e, j, q, meta));
}

} // verus!
