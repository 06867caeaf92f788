//! Shell-completion matching for source-file arguments.
//!
//! The headline behaviour is basename-anywhere file completion — typing a bare
//! `errors.py<Tab>` offers `backend/dls/errors.py`.

use vstd::prelude::*;

use crate::text::{chars_of, contains, has_prefix, matches_at};

verus! {

/// The part of a path after its last `/` (the whole path when it has none).
pub open spec fn basename(path: Seq<char>) -> Seq<char>
    decreases path.len(),
{
    if path.len() == 0 {
        path
    } else if path.last() == '/' {
        seq![]
    } else {
        basename(path.drop_last()).push(path.last())
    }
}

/// Whether `path` is offered for the partial word `current`: every path for
/// an empty word; a path-prefix match when the word holds a `/`; otherwise a
/// match of the word against the start of the path or of its basename.
pub open spec fn spec_file_matches(path: Seq<char>, current: Seq<char>) -> bool {
    if current.len() == 0 {
        true
    } else if contains(current, seq!['/']) {
        has_prefix(path, current)
    } else {
        has_prefix(path, current) || has_prefix(basename(path), current)
    }
}

/// Whether `path` should be offered for the partial word `current`.
pub fn file_matches(path: &str, current: &str) -> (b: bool)
    ensures
        b == spec_file_matches(path@, current@),
{
    let p = chars_of(path);
    let c = chars_of(current);
    if c.len() == 0 {
        return true;
    }
    let slash = chars_of("/");
    proof {
        reveal_strlit("/");
        assert(slash@ =~= seq!['/']);
    }
    if crate::text::contains_chars(&c, &slash) {
        return matches_at(&p, &c, 0);
    }
    // start of the basename: just after the last '/'
    let mut i = p.len();
    assert(p@.subrange(i as int, p@.len() as int) =~= seq![]);
    assert(p@.subrange(0, i as int) =~= p@);
    assert(basename(p@) + Seq::<char>::empty() =~= basename(p@));
    while i > 0 && p[i - 1] != '/'
        invariant
            i <= p@.len(),
            basename(p@) == basename(p@.subrange(0, i as int)) + p@.subrange(i as int, p@.len() as int),
        decreases i,
    {
        let ghost pre = p@.subrange(0, i as int);
        assert(pre.drop_last() =~= p@.subrange(0, i - 1));
        assert(p@.subrange(i - 1, p@.len() as int) =~= seq![p@[i - 1]] + p@.subrange(i as int, p@.len() as int));
        assert(basename(pre) == basename(pre.drop_last()).push(p@[i - 1]));
        assert(basename(pre.drop_last()).push(p@[i - 1]) + p@.subrange(i as int, p@.len() as int) =~= basename(pre.drop_last()) + p@.subrange(i - 1, p@.len() as int));
        i -= 1;
    }
    proof {
        if i > 0 {
            assert(basename(p@.subrange(0, i as int)) == Seq::<char>::empty());
        }
        assert(basename(p@) =~= p@.subrange(i as int, p@.len() as int));
    }
    let base = crate::text::sub_vec(&p, i, p.len());
    matches_at(&p, &c, 0) || matches_at(&base, &c, 0)
}

} // verus!
