//! Lists in a set order: rows that carry a rank, and the ranking of a list,
//! which puts its rows in the order of their ranks and leaves rows of the
//! same rank in the order in which they came.

use vstd::prelude::*;
use vstd::seq_lib::{to_multiset_contains, to_multiset_insert, to_multiset_len, to_multiset_remove};

verus! {

/// A row with a place in a list: of two rows, the one with the lower rank
/// comes first.
pub trait Ranked: Sized {
    spec fn rank(&self) -> int;

    /// Whether `self` has to stand before `other`.
    fn comes_before(&self, other: &Self) -> (r: bool)
        ensures
            r == (self.rank() < other.rank()),
    ;
}

/// The rows stand in the order of their ranks.
pub open spec fn in_rank_order<T: Ranked>(rows: Seq<T>) -> bool {
    forall|i: int, j: int|
        0 <= i < j < rows.len() ==> (#[trigger] rows[i]).rank() <= (#[trigger] rows[j]).rank()
}

/// `rows[i]` and `rows[j]` are `given[a]` and `given[b]`.
pub open spec fn came_as<T>(rows: Seq<T>, i: int, j: int, given: Seq<T>, a: int, b: int) -> bool {
    0 <= a < b < given.len() && given[a] == rows[i] && given[b] == rows[j]
}

/// `rows[i]` is one of the rows of `given` from the position `least` on.
pub open spec fn is_from<T>(rows: Seq<T>, i: int, given: Seq<T>, least: int) -> bool {
    exists|a: int| least <= a < given.len() && #[trigger] given[a] == rows[i]
}

/// Rows of the same rank stand in `rows` as they stood in `given`.
pub open spec fn keeps_order_of<T: Ranked>(rows: Seq<T>, given: Seq<T>) -> bool {
    forall|i: int, j: int|
        0 <= i < j < rows.len() && (#[trigger] rows[i]).rank() == (#[trigger] rows[j]).rank()
            ==> exists|a: int, b: int| came_as(rows, i, j, given, a, b)
}

/// `rows` is the ranking of `given`: the same rows, in the order of their
/// ranks, those of the same rank in the order in which they were given.
pub open spec fn is_ranking_of<T: Ranked>(rows: Seq<T>, given: Seq<T>) -> bool {
    &&& in_rank_order(rows)
    &&& rows.to_multiset() == given.to_multiset()
    &&& keeps_order_of(rows, given)
}

/// Ranks a list.
pub fn rank_rows<T: Ranked>(given: Vec<T>) -> (r: Vec<T>)
    ensures
        is_ranking_of(r@, given@),
        r@.len() == given@.len(),
{
    let ghost all = given@;
    let mut rest = given;
    let mut out: Vec<T> = Vec::new();
    proof {
        assert(all.skip(all.len() as int) =~= Seq::<T>::empty());
    }
    while rest.len() > 0
        invariant
            rest@.len() <= all.len(),
            rest@ == all.take(rest@.len() as int),
            out@.len() + rest@.len() == all.len(),
            in_rank_order(out@),
            out@.to_multiset() == all.skip(rest@.len() as int).to_multiset(),
            forall|i: int| 0 <= i < out@.len() ==> #[trigger] is_from(out@, i, all, rest@.len() as int),
            forall|i: int, j: int|
                0 <= i < j < out@.len() && (#[trigger] out@[i]).rank() == (#[trigger] out@[j]).rank()
                    ==> exists|a: int, b: int|
                    rest@.len() <= a && came_as(out@, i, j, all, a, b),
        decreases rest.len(),
    {
        let ghost k = rest@.len() as int;
        let ghost before = out@;
        let row = rest.pop().unwrap();
        assert(row == all[k - 1]);
        let mut p: usize = 0;
        while p < out.len() && out[p].comes_before(&row)
            invariant
                p <= out.len(),
                out@ == before,
                forall|j: int| 0 <= j < p ==> (#[trigger] out@[j]).rank() < row.rank(),
            decreases out.len() - p,
        {
            p += 1;
        }
        proof {
            let after = before.insert(p as int, row);
            to_multiset_insert(before, p as int, row);
            assert(all.skip(k - 1) =~= all.skip(k).insert(0, row));
            to_multiset_insert(all.skip(k), 0, row);
            assert(rest@ =~= all.take(k - 1));
            assert forall|j: int| p <= j < before.len() implies row.rank() <= (
            #[trigger] before[j]).rank() by {
                assert(before[p as int].rank() <= before[j].rank() || j == p);
            }
            assert forall|i: int, j: int| 0 <= i < j < after.len() implies (#[trigger] after[i]).rank()
                <= (#[trigger] after[j]).rank() by {
                let oi = if i < p { i } else { i - 1 };
                let oj = if j < p { j } else { j - 1 };
                if i != p && j != p {
                    assert(after[i] == before[oi] && after[j] == before[oj]);
                    assert(before[oi].rank() <= before[oj].rank());
                } else if i == p {
                    assert(after[j] == before[oj]);
                } else {
                    assert(after[i] == before[oi]);
                }
            }
            assert forall|i: int| 0 <= i < after.len() implies #[trigger] is_from(
                after,
                i,
                all,
                k - 1,
            ) by {
                if i == p {
                    assert(all[k - 1] == after[i]);
                } else {
                    let oi = if i < p { i } else { i - 1 };
                    assert(after[i] == before[oi]);
                    assert(is_from(before, oi, all, k));
                    let a = choose|a: int| k <= a < all.len() && #[trigger] all[a] == before[oi];
                    assert(k - 1 <= a < all.len() && all[a] == after[i]);
                }
            }
            assert forall|i: int, j: int|
                0 <= i < j < after.len() && (#[trigger] after[i]).rank() == (
                #[trigger] after[j]).rank() implies exists|a: int, b: int|
                k - 1 <= a && came_as(after, i, j, all, a, b) by {
                let oi = if i < p { i } else { i - 1 };
                let oj = if j < p { j } else { j - 1 };
                if i != p && j != p {
                    assert(after[i] == before[oi] && after[j] == before[oj]);
                    let (a, b) = choose|a: int, b: int|
                        k <= a && came_as(before, oi, oj, all, a, b);
                    assert(k - 1 <= a && came_as(after, i, j, all, a, b));
                } else if i == p {
                    assert(after[j] == before[oj]);
                    assert(is_from(before, oj, all, k));
                    let b = choose|b: int| k <= b < all.len() && #[trigger] all[b] == before[oj];
                    assert(k - 1 <= k - 1 && came_as(after, i, j, all, k - 1, b));
                } else {
                    assert(after[i] == before[oi]);
                    assert(before[oi].rank() < row.rank());
                }
            }
        }
        out.insert(p, row);
    }
    proof {
        assert(all.skip(0) =~= all);
        assert forall|i: int, j: int|
            0 <= i < j < out@.len() && (#[trigger] out@[i]).rank() == (#[trigger] out@[j]).rank()
            implies exists|a: int, b: int| came_as(out@, i, j, all, a, b) by {
            let (a, b) = choose|a: int, b: int| 0 <= a && came_as(out@, i, j, all, a, b);
            assert(came_as(out@, i, j, all, a, b));
        }
    }
    out
}

/// What is left of a ranking when its first row is taken away is the
/// ranking of what was given without that row.
proof fn lemma_rest_is_ranking<T: Ranked>(rows: Seq<T>, given: Seq<T>, p: int)
    requires
        is_ranking_of(rows, given),
        given.no_duplicates(),
        rows.no_duplicates(),
        rows.len() > 0,
        0 <= p < given.len(),
        given[p] == rows[0],
    ensures
        is_ranking_of(rows.remove(0), given.remove(p)),
        given.remove(p).no_duplicates(),
        rows.remove(0).no_duplicates(),
{
    let rest = rows.remove(0);
    let left = given.remove(p);
    to_multiset_remove(rows, 0);
    to_multiset_remove(given, p);
    assert forall|i: int| 0 <= i < rest.len() implies #[trigger] rest[i] == rows[i + 1] by {}
    assert forall|i: int| 0 <= i < left.len() implies #[trigger] left[i] == given[if i < p {
        i
    } else {
        i + 1
    }] by {}
    assert forall|i: int, j: int| 0 <= i < j < rest.len() implies (#[trigger] rest[i]).rank() <= (
    #[trigger] rest[j]).rank() by {
        assert(rows[i + 1].rank() <= rows[j + 1].rank());
    }
    assert forall|i: int, j: int|
        0 <= i < j < rest.len() && (#[trigger] rest[i]).rank() == (
        #[trigger] rest[j]).rank() implies exists|a: int, b: int|
        came_as(rest, i, j, left, a, b) by {
        let i1 = i + 1;
        let j1 = j + 1;
        assert(rows[i1].rank() == rows[j1].rank());
        let (a, b) = choose|a: int, b: int| came_as(rows, i1, j1, given, a, b);
        assert(a != p) by {
            if a == p {
                assert(rows[0] == rows[i + 1]);
            }
        }
        assert(b != p) by {
            if b == p {
                assert(rows[0] == rows[j + 1]);
            }
        }
        let a2 = if a < p { a } else { a - 1 };
        let b2 = if b < p { b } else { b - 1 };
        assert(left[a2] == given[a] && left[b2] == given[b]);
        assert(came_as(rest, i, j, left, a2, b2));
    }
    assert forall|i: int, j: int| 0 <= i < left.len() && 0 <= j < left.len() && i != j implies left[i]
        != left[j] by {
        let gi = if i < p { i } else { i + 1 };
        let gj = if j < p { j } else { j + 1 };
        assert(left[i] == given[gi] && left[j] == given[gj]);
    }
    assert forall|i: int, j: int| 0 <= i < rest.len() && 0 <= j < rest.len() && i != j implies rest[i]
        != rest[j] by {
        assert(rest[i] == rows[i + 1] && rest[j] == rows[j + 1]);
    }
}

/// A ranking of rows that are all different begins as every ranking of them
/// begins.
proof fn lemma_rankings_begin_alike<T: Ranked>(a: Seq<T>, b: Seq<T>, given: Seq<T>)
    requires
        is_ranking_of(a, given),
        is_ranking_of(b, given),
        given.no_duplicates(),
        a.no_duplicates(),
        b.no_duplicates(),
        a.len() > 0,
        b.len() == a.len(),
    ensures
        a[0] == b[0],
{
    if a[0] != b[0] {
        to_multiset_contains(a, a[0]);
        to_multiset_contains(b, a[0]);
        to_multiset_contains(a, b[0]);
        to_multiset_contains(b, b[0]);
        assert(a.contains(a[0]));
        assert(b.contains(b[0]));
        let k = choose|k: int| 0 <= k < b.len() && b[k] == a[0];
        let m = choose|m: int| 0 <= m < a.len() && a[m] == b[0];
        assert(k > 0 && m > 0);
        assert(b[0].rank() <= b[k].rank());
        assert(a[0].rank() <= a[m].rank());
        let (p, q) = choose|p: int, q: int| came_as(b, 0, k, given, p, q);
        let (p2, q2) = choose|p2: int, q2: int| came_as(a, 0, m, given, p2, q2);
        assert(given[q] == given[p2]);
        assert(given[p] == given[q2]);
        assert(q == p2 && p == q2);
    }
}

/// A list has one ranking: whatever is the ranking of rows that are all
/// different is the same sequence.
pub proof fn law_ranking_is_unique<T: Ranked>(a: Seq<T>, b: Seq<T>, given: Seq<T>)
    requires
        is_ranking_of(a, given),
        is_ranking_of(b, given),
        given.no_duplicates(),
    ensures
        a == b,
    decreases given.len(),
{
    to_multiset_len(a);
    to_multiset_len(b);
    to_multiset_len(given);
    given.lemma_multiset_has_no_duplicates();
    a.lemma_multiset_has_no_duplicates_conv();
    b.lemma_multiset_has_no_duplicates_conv();
    if given.len() == 0 {
        assert(a =~= b);
    } else {
        lemma_rankings_begin_alike(a, b, given);
        to_multiset_contains(a, a[0]);
        to_multiset_contains(given, a[0]);
        assert(a.contains(a[0]));
        let p = choose|p: int| 0 <= p < given.len() && given[p] == a[0];
        lemma_rest_is_ranking(a, given, p);
        lemma_rest_is_ranking(b, given, p);
        law_ranking_is_unique(a.remove(0), b.remove(0), given.remove(p));
        assert forall|i: int| 0 <= i < a.len() implies a[i] == b[i] by {
            if i > 0 {
                assert(a.remove(0)[i - 1] == a[i]);
                assert(b.remove(0)[i - 1] == b[i]);
            }
        }
        assert(a =~= b);
    }
}

} // verus!
