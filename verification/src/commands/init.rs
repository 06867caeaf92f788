//! `tellme init`: keeping the store's cache out of git, and what is reported.

use vstd::prelude::*;

use crate::text::{chars_of, lemma_lines_append, lines, owned, push_str, split_lines, str_eq, strings_view, trim, trimmed};

verus! {

/// A `.gitignore` line that already ignores the cache, with or without the
/// trailing slash.
pub open spec fn names_cache(l: Seq<char>) -> bool {
    trim(l) == ".tellme/cache"@ || trim(l) == ".tellme/cache/"@
}

/// What `tellme init` appends to `.gitignore`: nothing when a line already
/// ignores the cache; otherwise the entry on a line of its own, after a
/// newline when the file does not end with one.
pub open spec fn spec_gitignore_addition(existing: Seq<char>) -> Option<Seq<char>> {
    if exists|i: int| 0 <= i < lines(existing).len() && names_cache(#[trigger] lines(existing)[i]) {
        None
    } else if existing.len() > 0 && existing.last() != '\n' {
        Some("\n"@ + ".tellme/cache/\n"@)
    } else {
        Some(".tellme/cache/\n"@)
    }
}

/// The text to append to `.gitignore` so the cache stays out of git.
pub fn gitignore_addition(existing: &str) -> (r: Option<String>)
    ensures
        match r {
            Some(t) => spec_gitignore_addition(existing@) == Some(t@),
            None => spec_gitignore_addition(existing@) is None,
        },
{
    let ls = split_lines(existing);
    let ghost lv = strings_view(ls@);
    let mut i: usize = 0;
    while i < ls.len()
        invariant
            i <= ls@.len(),
            lv == strings_view(ls@),
            lv == lines(existing@),
            forall|j: int| 0 <= j < i ==> !names_cache(#[trigger] lv[j]),
        decreases ls@.len() - i,
    {
        let t = trimmed(ls[i].as_str());
        if str_eq(t.as_str(), ".tellme/cache") || str_eq(t.as_str(), ".tellme/cache/") {
            assert(names_cache(lv[i as int]));
            return None;
        }
        i += 1;
    }
    let v = chars_of(existing);
    if v.len() > 0 && v[v.len() - 1] != '\n' {
        let mut r = owned("\n");
        push_str(&mut r, ".tellme/cache/\n");
        Some(r)
    } else {
        Some(owned(".tellme/cache/\n"))
    }
}

/// The status word and the message `tellme init` reports for the store
/// directory `dir`.
pub fn init_report(already: bool, dir: &str) -> (r: (&'static str, String))
    ensures
        already ==> r.0@ == "already-initialized"@ && r.1@ == "tellme is already initialized at "@
            + dir@,
        !already ==> r.0@ == "initialized"@ && r.1@ == "Initialized tellme store at "@ + dir@,
{
    if already {
        let mut m = owned("tellme is already initialized at ");
        push_str(&mut m, dir);
        ("already-initialized", m)
    } else {
        let mut m = owned("Initialized tellme store at ");
        push_str(&mut m, dir);
        ("initialized", m)
    }
}

/// `tellme init` is idempotent on `.gitignore`: once the entry is appended,
/// nothing more is.
pub proof fn law_gitignore_idempotent(existing: Seq<char>)
    ensures
        spec_gitignore_addition(existing) matches Some(a) ==> spec_gitignore_addition(
            existing + a,
        ) is None,
{
    reveal_strlit(".tellme/cache/\n");
    reveal_strlit(".tellme/cache/");
    reveal_strlit("\n");
    match spec_gitignore_addition(existing) {
        Some(a) => {
            let t = ".tellme/cache/\n"@;
            let e = if existing.len() > 0 && existing.last() != '\n' {
                existing.push('\n')
            } else {
                existing
            };
            assert(existing + a =~= e + t);
            lemma_lines_append(e, t);
            let entry = ".tellme/cache/"@;
            crate::text::lemma_index_of_is(t, '\n', 14);
            assert(t.subrange(0, 14) =~= entry);
            assert(t.subrange(15, 15) =~= Seq::<char>::empty());
            assert(lines(Seq::<char>::empty()) =~= Seq::<Seq<char>>::empty());
            assert(crate::text::strip_cr(entry) == entry);
            assert(lines(t) == seq![crate::text::strip_cr(t.subrange(0, 14))] + lines(
                t.subrange(15, 15),
            ));
            assert(lines(t) =~= seq![entry]);
            assert(crate::text::trim_start(entry) == entry);
            assert(crate::text::trim_end(entry) == entry);
            let ls = lines(e + t);
            assert(ls[lines(e).len() as int] == entry);
            assert(names_cache(ls[lines(e).len() as int]));
        },
        None => {},
    }
}

} // verus!
