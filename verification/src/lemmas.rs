//! Facts about sequences that the proofs of the tables share.

use vstd::prelude::*;

verus! {

/// What one more element adds to what a filter keeps.
pub proof fn filter_take_step<A>(s: Seq<A>, keep: spec_fn(A) -> bool, i: int)
    requires
        0 <= i < s.len(),
    ensures
        s.take(i + 1).filter(keep) == if keep(s[i]) {
            s.take(i).filter(keep).push(s[i])
        } else {
            s.take(i).filter(keep)
        },
{
    reveal(Seq::filter);
    assert(s.take(i + 1).drop_last() == s.take(i));
}

/// A filter keeps nothing of an empty sequence.
pub proof fn filter_of_nothing<A>(s: Seq<A>, keep: spec_fn(A) -> bool)
    requires
        s.len() == 0,
    ensures
        s.filter(keep) == Seq::<A>::empty(),
{
    reveal(Seq::filter);
}

/// What a filter keeps, it keeps in the order of the sequence: every element
/// kept stands in the sequence and meets the condition.
pub proof fn filter_keeps_members<A>(s: Seq<A>, keep: spec_fn(A) -> bool)
    ensures
        forall|k: int|
            0 <= k < s.filter(keep).len() ==> keep(#[trigger] s.filter(keep)[k]) && s.contains(
                s.filter(keep)[k],
            ),
    decreases s.len(),
{
    reveal(Seq::filter);
    if s.len() > 0 {
        let rest = s.drop_last();
        filter_keeps_members(rest, keep);
        assert forall|k: int| 0 <= k < s.filter(keep).len() implies keep(
            #[trigger] s.filter(keep)[k],
        ) && s.contains(s.filter(keep)[k]) by {
            if k < rest.filter(keep).len() {
                let x = rest.filter(keep)[k];
                assert(rest.contains(x));
                let at = choose|at: int| 0 <= at < rest.len() && rest[at] == x;
                assert(s[at] == x);
            } else {
                assert(s[s.len() - 1] == s.last());
            }
        }
    }
}

/// Two conditions that hold of the same values keep the same.
pub proof fn filter_agrees<A>(s: Seq<A>, one: spec_fn(A) -> bool, other: spec_fn(A) -> bool)
    requires
        forall|x: A| #[trigger] one(x) == other(x),
    ensures
        s.filter(one) == s.filter(other),
    decreases s.len(),
{
    reveal(Seq::filter);
    if s.len() > 0 {
        filter_agrees(s.drop_last(), one, other);
    }
}

/// A narrower filter keeps no more than a wider one.
pub proof fn filter_is_monotonic<A>(s: Seq<A>, narrow: spec_fn(A) -> bool, wide: spec_fn(A) -> bool)
    requires
        forall|x: A| #[trigger] narrow(x) ==> wide(x),
    ensures
        s.filter(narrow).len() <= s.filter(wide).len(),
    decreases s.len(),
{
    reveal(Seq::filter);
    if s.len() > 0 {
        filter_is_monotonic(s.drop_last(), narrow, wide);
    }
}

/// The views of the rows of a table, row by row.
pub open spec fn views<T: View>(rows: Seq<T>) -> Seq<T::V> {
    Seq::new(rows.len(), |i: int| rows[i]@)
}

/// The greatest of the ids, and zero where none is greater.
pub open spec fn top_id(ids: Seq<i64>) -> int
    decreases ids.len(),
{
    if ids.len() == 0 {
        0
    } else if top_id(ids.drop_last()) < ids.last() {
        ids.last() as int
    } else {
        top_id(ids.drop_last())
    }
}

/// No id is greater than the greatest.
pub proof fn top_id_is_greatest(ids: Seq<i64>)
    ensures
        0 <= top_id(ids) <= i64::MAX,
        forall|i: int| 0 <= i < ids.len() ==> #[trigger] ids[i] <= top_id(ids),
    decreases ids.len(),
{
    if ids.len() > 0 {
        top_id_is_greatest(ids.drop_last());
        assert forall|i: int| 0 <= i < ids.len() implies #[trigger] ids[i] <= top_id(ids) by {
            if i < ids.len() - 1 {
                assert(ids.drop_last()[i] == ids[i]);
            }
        }
    }
}

} // verus!
