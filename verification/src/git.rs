//! Commit metadata as git reports it, and the ordering of the commits that
//! touched a line range (most recent author time first).

use vstd::prelude::*;

use crate::order::{sort_by_key, stable_sort, strip_keys, values};

verus! {

/// Metadata about a single commit.
#[derive(Debug, Clone, PartialEq, Eq)]
pub struct CommitInfo {
    /// Full hex object id.
    pub id: String,
    /// First line of the commit message.
    pub summary: String,
    /// Author display name.
    pub author_name: String,
    /// Author email.
    pub author_email: String,
    /// Author time, seconds since the Unix epoch.
    pub time: i64,
}

impl CommitInfo {
    /// A copy of this commit's metadata.
    pub fn duplicate(&self) -> (r: Self)
        ensures
            r == *self,
    {
        CommitInfo {
            id: self.id.clone(),
            summary: self.summary.clone(),
            author_name: self.author_name.clone(),
            author_email: self.author_email.clone(),
            time: self.time,
        }
    }
}

/// The result of blaming one line.
#[derive(Debug, Clone, PartialEq, Eq)]
pub struct BlameLine {
    /// One-based line number that was blamed.
    pub line: usize,
    /// The commit that last touched the line.
    pub commit: CommitInfo,
}

/// The commits in first-seen order with later repeats of an id dropped.
pub open spec fn distinct_by_id(cs: Seq<CommitInfo>) -> Seq<CommitInfo>
    decreases cs.len(),
{
    if cs.len() == 0 {
        seq![]
    } else {
        let prev = distinct_by_id(cs.drop_last());
        if exists|j: int| 0 <= j < prev.len() && prev[j].id@ == cs.last().id@ {
            prev
        } else {
            prev.push(cs.last())
        }
    }
}

/// Key each commit by its negated time, so ascending order is newest first.
pub open spec fn newest_first_keys(cs: Seq<CommitInfo>) -> Seq<(i128, CommitInfo)> {
    cs.map_values(|c: CommitInfo| ((-(c.time as int)) as i128, c))
}

/// The distinct commits ordered by author time, newest first; commits with
/// equal times keep their first-seen order.
pub open spec fn spec_commits_newest_first(cs: Seq<CommitInfo>) -> Seq<CommitInfo> {
    values(sort_by_key(newest_first_keys(distinct_by_id(cs))))
}

/// The distinct commits among those blamed for each line of a range (in line
/// order), newest author time first.
pub fn commits_newest_first(blamed: Vec<CommitInfo>) -> (r: Vec<CommitInfo>)
    ensures
        r@ == spec_commits_newest_first(blamed@),
{
    let ghost orig = blamed@;
    let mut rest = blamed;
    let mut keyed: Vec<(i128, CommitInfo)> = Vec::new();
    let ghost mut seen: Seq<CommitInfo> = seq![];
    let ghost mut i: int = 0;
    while rest.len() > 0
        invariant
            0 <= i <= orig.len(),
            rest@ == orig.subrange(i, orig.len() as int),
            seen == distinct_by_id(orig.subrange(0, i)),
            keyed@ == newest_first_keys(seen),
        decreases rest@.len(),
    {
        let c = rest.remove(0);
        let mut dup = false;
        let mut j: usize = 0;
        while j < keyed.len()
            invariant
                j <= keyed@.len(),
                keyed@ == newest_first_keys(seen),
                dup == exists|k: int| 0 <= k < j && seen[k].id@ == c.id@,
            decreases keyed@.len() - j,
        {
            proof {
                assert(keyed@[j as int].1 == seen[j as int]);
            }
            if crate::text::str_eq(keyed[j].1.id.as_str(), c.id.as_str()) {
                dup = true;
            }
            j += 1;
        }
        proof {
            assert(orig.subrange(0, i + 1).drop_last() =~= orig.subrange(0, i));
            assert(orig.subrange(0, i + 1).last() == c);
            assert(rest@ =~= orig.subrange(i + 1, orig.len() as int));
        }
        if !dup {
            let key: i128 = -(c.time as i128);
            proof {
                assert(newest_first_keys(seen.push(c)) =~= newest_first_keys(seen).push((key, c)));
                seen = seen.push(c);
            }
            keyed.push((key, c));
        }
        proof {
            i = i + 1;
        }
    }
    assert(orig.subrange(0, i) =~= orig);
    strip_keys(stable_sort(keyed))
}

/// The commits blamed for the lines of a range, in line order: lines
/// without a commit (working-tree-only lines) give none.
pub open spec fn blamed_commits(ls: Seq<Option<CommitInfo>>) -> Seq<CommitInfo>
    decreases ls.len(),
{
    if ls.len() == 0 {
        seq![]
    } else {
        let p = blamed_commits(ls.drop_last());
        match ls.last() {
            Some(c) => p.push(c),
            None => p,
        }
    }
}

/// The commits that touched a line range, from the blame of each of its
/// lines (none when the file could not be blamed): none when the range is
/// not committed, i.e. the blame failed or no line of it has a commit;
/// otherwise the distinct commits, newest first.
pub open spec fn spec_touching_commits(blame: Option<Seq<Option<CommitInfo>>>) -> Option<Seq<CommitInfo>> {
    match blame {
        None => None,
        Some(ls) => if blamed_commits(ls).len() == 0 {
            None
        } else {
            Some(spec_commits_newest_first(blamed_commits(ls)))
        },
    }
}

/// The commits that touched a line range, or none when it is not committed
/// yet (see `spec_touching_commits`).
pub fn touching_commits(blame: Option<Vec<Option<CommitInfo>>>) -> (r: Option<Vec<CommitInfo>>)
    ensures
        match r {
            Some(v) => spec_touching_commits(match blame {
                Some(b) => Some(b@),
                None => None,
            }) == Some(v@),
            None => spec_touching_commits(match blame {
                Some(b) => Some(b@),
                None => None,
            }) is None,
        },
{
    let lines = match blame {
        Some(b) => b,
        None => {
            return None;
        },
    };
    let ghost orig = lines@;
    let mut found: Vec<CommitInfo> = Vec::new();
    let mut rest = lines;
    let ghost mut i: int = 0;
    while rest.len() > 0
        invariant
            0 <= i <= orig.len(),
            rest@ == orig.subrange(i, orig.len() as int),
            found@ == blamed_commits(orig.subrange(0, i)),
        decreases rest@.len(),
    {
        let l = rest.remove(0);
        proof {
            assert(orig.subrange(0, i + 1).drop_last() =~= orig.subrange(0, i));
            assert(orig[i] == l);
            assert(rest@ =~= orig.subrange(i + 1, orig.len() as int));
            i = i + 1;
        }
        match l {
            Some(c) => found.push(c),
            None => {},
        }
    }
    assert(orig.subrange(0, i) =~= orig);
    if found.len() == 0 {
        None
    } else {
        Some(commits_newest_first(found))
    }
}

} // verus!
