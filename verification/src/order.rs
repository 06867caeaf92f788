//! Stable ordering by an integer key, as `slice::sort_by_key` orders: equal
//! keys keep their input order.

use vstd::prelude::*;

verus! {

/// `s` (already ordered) with `x` placed after every element whose key is
/// not greater than its own.
pub open spec fn insert_by_key<T>(s: Seq<(i128, T)>, x: (i128, T)) -> Seq<(i128, T)>
    decreases s.len(),
{
    if s.len() == 0 {
        seq![x]
    } else if s.last().0 <= x.0 {
        s.push(x)
    } else {
        insert_by_key(s.drop_last(), x).push(s.last())
    }
}

/// The stable ascending order of `s` by key.
pub open spec fn sort_by_key<T>(s: Seq<(i128, T)>) -> Seq<(i128, T)>
    decreases s.len(),
{
    if s.len() == 0 {
        seq![]
    } else {
        insert_by_key(sort_by_key(s.drop_last()), s.last())
    }
}

/// The elements without their keys.
pub open spec fn values<T>(s: Seq<(i128, T)>) -> Seq<T> {
    s.map_values(|p: (i128, T)| p.1)
}

/// The same pairs with `f` applied to each value, keys unchanged.
pub open spec fn map_vals<T, U>(s: Seq<(i128, T)>, f: spec_fn(T) -> U) -> Seq<(i128, U)> {
    s.map_values(|p: (i128, T)| (p.0, f(p.1)))
}

/// Ordering by key does not look at the values.
pub proof fn lemma_insert_map<T, U>(s: Seq<(i128, T)>, x: (i128, T), f: spec_fn(T) -> U)
    ensures
        insert_by_key(map_vals(s, f), (x.0, f(x.1))) == map_vals(insert_by_key(s, x), f),
    decreases s.len(),
{
    if s.len() > 0 {
        assert(map_vals(s, f).drop_last() =~= map_vals(s.drop_last(), f));
        if s.last().0 > x.0 {
            lemma_insert_map(s.drop_last(), x, f);
            assert(map_vals(insert_by_key(s.drop_last(), x).push(s.last()), f) =~= map_vals(
                insert_by_key(s.drop_last(), x),
                f,
            ).push((s.last().0, f(s.last().1))));
        } else {
            assert(map_vals(s.push(x), f) =~= map_vals(s, f).push((x.0, f(x.1))));
        }
    } else {
        assert(map_vals(seq![x], f) =~= seq![(x.0, f(x.1))]);
    }
}

/// Sorting by key commutes with mapping the values.
pub proof fn lemma_sort_map<T, U>(s: Seq<(i128, T)>, f: spec_fn(T) -> U)
    ensures
        sort_by_key(map_vals(s, f)) == map_vals(sort_by_key(s), f),
    decreases s.len(),
{
    if s.len() == 0 {
        assert(map_vals(s, f) =~= seq![]);
        assert(map_vals(Seq::<(i128, T)>::empty(), f) =~= seq![]);
    } else {
        lemma_sort_map(s.drop_last(), f);
        assert(map_vals(s, f).drop_last() =~= map_vals(s.drop_last(), f));
        lemma_insert_map(sort_by_key(s.drop_last()), s.last(), f);
    }
}

/// Dropping keys commutes with mapping the values.
pub proof fn lemma_values_map<T, U>(s: Seq<(i128, T)>, f: spec_fn(T) -> U)
    ensures
        values(map_vals(s, f)) == values(s).map_values(f),
{
    assert(values(map_vals(s, f)) =~= values(s).map_values(f));
}

/// Where `insert_by_key` puts `x`.
proof fn lemma_insert_at<T>(s: Seq<(i128, T)>, x: (i128, T), j: int)
    requires
        0 <= j <= s.len(),
        j > 0 ==> s[j - 1].0 <= x.0,
        forall|k: int| j <= k < s.len() ==> s[k].0 > x.0,
    ensures
        insert_by_key(s, x) == s.insert(j, x),
    decreases s.len(),
{
    if s.len() == 0 {
        assert(s.insert(j, x) =~= seq![x]);
    } else if j == s.len() {
        assert(s.insert(j, x) =~= s.push(x));
    } else {
        lemma_insert_at(s.drop_last(), x, j);
        assert(s.drop_last().insert(j, x).push(s.last()) =~= s.insert(j, x));
    }
}

/// Sort `items` stably by their keys, ascending.
pub fn stable_sort<T>(items: Vec<(i128, T)>) -> (r: Vec<(i128, T)>)
    ensures
        r@ == sort_by_key(items@),
{
    let ghost orig = items@;
    let mut rest = items;
    let mut out: Vec<(i128, T)> = Vec::new();
    let ghost mut i: int = 0;
    while rest.len() > 0
        invariant
            0 <= i <= orig.len(),
            rest@ == orig.subrange(i, orig.len() as int),
            out@ == sort_by_key(orig.subrange(0, i)),
        decreases rest@.len(),
    {
        let x = rest.remove(0);
        let mut j = out.len();
        while j > 0 && out[j - 1].0 > x.0
            invariant
                j <= out@.len(),
                forall|k: int| j <= k < out@.len() ==> out@[k].0 > x.0,
            decreases j,
        {
            j -= 1;
        }
        proof {
            lemma_insert_at(out@, x, j as int);
            assert(orig.subrange(0, i + 1).drop_last() =~= orig.subrange(0, i));
            assert(orig.subrange(0, i + 1).last() == x);
            assert(rest@ =~= orig.subrange(i + 1, orig.len() as int));
            i = i + 1;
        }
        out.insert(j, x);
    }
    assert(orig.subrange(0, i) =~= orig);
    out
}

/// The values of `items`, key dropped.
pub fn strip_keys<T>(items: Vec<(i128, T)>) -> (r: Vec<T>)
    ensures
        r@ == values(items@),
{
    let ghost orig = items@;
    let mut rest = items;
    let mut out: Vec<T> = Vec::new();
    let ghost mut i: int = 0;
    while rest.len() > 0
        invariant
            0 <= i <= orig.len(),
            rest@ == orig.subrange(i, orig.len() as int),
            out@ == values(orig.subrange(0, i)),
        decreases rest@.len(),
    {
        let (_, x) = rest.remove(0);
        proof {
            assert(values(orig.subrange(0, i + 1)) =~= values(orig.subrange(0, i)).push(x));
            assert(rest@ =~= orig.subrange(i + 1, orig.len() as int));
            i = i + 1;
        }
        out.push(x);
    }
    assert(orig.subrange(0, i) =~= orig);
    out
}

/// Keys never decrease along `s`.
pub open spec fn keys_sorted<T>(s: Seq<(i128, T)>) -> bool {
    forall|i: int, j: int| 0 <= i <= j < s.len() ==> #[trigger] s[i].0 <= #[trigger] s[j].0
}

/// Inserting into an ordered sequence keeps it ordered, adds one element,
/// and keeps the elements there were.
proof fn lemma_insert_sorted<T>(s: Seq<(i128, T)>, x: (i128, T))
    requires
        keys_sorted(s),
    ensures
        keys_sorted(insert_by_key(s, x)),
        insert_by_key(s, x).len() == s.len() + 1,
        insert_by_key(s, x).to_multiset() == s.to_multiset().insert(x),
    decreases s.len(),
{
    broadcast use vstd::seq_lib::group_to_multiset_ensures;

    if s.len() == 0 {
        assert(seq![x] =~= Seq::<(i128, T)>::empty().push(x));
    } else if s.last().0 <= x.0 {
    } else {
        let d = s.drop_last();
        lemma_insert_sorted(d, x);
        let t = insert_by_key(d, x);
        assert(d.push(s.last()) =~= s);
        assert forall|i: int, j: int| 0 <= i <= j < t.len() + 1 implies #[trigger] t.push(
            s.last(),
        )[i].0 <= #[trigger] t.push(s.last())[j].0 by {
            if j == t.len() && i < t.len() {
                assert(t.to_multiset().count(t[i]) > 0);
                assert(d.to_multiset().insert(x).count(t[i]) > 0);
                if t[i] != x {
                    assert(d.to_multiset().count(t[i]) > 0);
                    let k = choose|k: int| 0 <= k < d.len() && d[k] == t[i];
                    assert(s[k] == d[k]);
                }
            }
        }
    }
}

/// `sort_by_key` orders by key and rearranges without adding or losing
/// anything.
pub proof fn law_sort_by_key_sorted<T>(s: Seq<(i128, T)>)
    ensures
        keys_sorted(sort_by_key(s)),
        sort_by_key(s).to_multiset() == s.to_multiset(),
        sort_by_key(s).len() == s.len(),
    decreases s.len(),
{
    broadcast use vstd::seq_lib::group_to_multiset_ensures;

    if s.len() > 0 {
        law_sort_by_key_sorted(s.drop_last());
        lemma_insert_sorted(sort_by_key(s.drop_last()), s.last());
        assert(s.drop_last().push(s.last()) =~= s);
    } else {
        assert(s.to_multiset() =~= vstd::multiset::Multiset::empty());
    }
}

} // verus!
