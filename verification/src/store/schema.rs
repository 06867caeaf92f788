//! Which schema migrations a database still needs. Migrations are numbered
//! from 1 and applied in order, each at most once: a database at
//! `user_version` `v` gets every migration numbered above `v`.

use vstd::prelude::*;

verus! {

/// The newest schema version.
pub const LATEST: i64 = 2;

/// The migrations numbered above `current`, in order, up to the latest.
pub open spec fn spec_migrations_after(current: i64) -> Seq<i64> {
    Seq::new(
        (if current < 0 {
            LATEST as int
        } else if current >= LATEST {
            0int
        } else {
            LATEST - current
        }) as nat,
        |i: int| (if current < 0 { 1 + i } else { current + 1 + i }) as i64,
    )
}

/// The migrations a database at schema version `current` still needs.
pub fn migrations_after(current: i64) -> (r: Vec<i64>)
    ensures
        r@ == spec_migrations_after(current),
        forall|i: int| 0 <= i < r@.len() ==> current < #[trigger] r@[i] <= LATEST,
{
    let mut out: Vec<i64> = Vec::new();
    let first: i64 = if current < 0 {
        1
    } else if current >= LATEST {
        LATEST + 1
    } else {
        current + 1
    };
    let mut v = first;
    while v <= LATEST
        invariant
            first <= v <= LATEST + 1,
            first == (if current < 0 {
                1
            } else if current >= LATEST {
                LATEST + 1
            } else {
                current + 1
            }),
            out@.len() == v - first,
            forall|i: int| 0 <= i < out@.len() ==> #[trigger] out@[i] == first + i,
        decreases LATEST + 1 - v,
    {
        out.push(v);
        v += 1;
    }
    assert(out@ =~= spec_migrations_after(current));
    out
}

/// Migrating twice changes nothing: after applying the migrations a version
/// needs, none are left.
pub proof fn law_migrate_idempotent(current: i64)
    ensures
        ({
            let ms = spec_migrations_after(current);
            let after = if ms.len() == 0 {
                current
            } else {
                ms.last()
            };
            spec_migrations_after(after).len() == 0
        }),
{
}

} // verus!
