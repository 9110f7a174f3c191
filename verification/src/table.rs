//! Rows that are identified by a key, and sequences of such rows in which no
//! key occurs twice.

use vstd::prelude::*;

verus! {

/// A row with an identity. Two rows of one table never share a key.
pub trait Keyed: Sized {
    type Key;

    spec fn key(&self) -> Self::Key;

    /// Whether `self` and `other` have the same key.
    fn same_key(&self, other: &Self) -> (r: bool)
        ensures
            r == (self.key() == other.key()),
    ;
}

/// Some row of `rows` has the key `k`.
pub open spec fn holds_key<T: Keyed>(rows: Seq<T>, k: T::Key) -> bool {
    exists|i: int| 0 <= i < rows.len() && #[trigger] rows[i].key() == k
}

/// No key occurs at two positions of `rows`.
pub open spec fn unique_keys<T: Keyed>(rows: Seq<T>) -> bool {
    forall|i: int, j: int|
        0 <= i < j < rows.len() ==> #[trigger] rows[i].key() != #[trigger] rows[j].key()
}

/// `i` is the first position of `rows` whose row has the key `k`.
pub open spec fn first_at<T: Keyed>(rows: Seq<T>, k: T::Key, i: int) -> bool {
    &&& 0 <= i < rows.len()
    &&& rows[i].key() == k
    &&& forall|j: int| 0 <= j < i ==> #[trigger] rows[j].key() != k
}

/// The first position at which `k` occurs, if it occurs at all.
pub open spec fn index_of<T: Keyed>(rows: Seq<T>, k: T::Key) -> Option<int> {
    if holds_key(rows, k) {
        Some(choose|i: int| first_at(rows, k, i))
    } else {
        None
    }
}

/// The rows after storing `row`: it takes the place of the row with its key,
/// or goes to the end when the key is new.
pub open spec fn upsert<T: Keyed>(rows: Seq<T>, row: T) -> Seq<T> {
    match index_of(rows, row.key()) {
        Some(i) => rows.update(i, row),
        None => rows.push(row),
    }
}

/// The rows after the first `n` of `more` were stored, one after the other.
pub open spec fn upsert_all<T: Keyed>(rows: Seq<T>, more: Seq<T>, n: int) -> Seq<T>
    decreases n,
{
    if n <= 0 {
        rows
    } else {
        upsert(upsert_all(rows, more, n - 1), more[n - 1])
    }
}

/// The rows without the one that has the key `k`.
pub open spec fn without_key<T: Keyed>(rows: Seq<T>, k: T::Key) -> Seq<T> {
    match index_of(rows, k) {
        Some(i) => rows.remove(i),
        None => rows,
    }
}

/// The first `limit` rows; all of them where `limit` is negative.
pub open spec fn first_rows<T>(rows: Seq<T>, limit: i64) -> Seq<T> {
    if limit < 0 || limit >= rows.len() {
        rows
    } else {
        rows.take(limit as int)
    }
}

/// A position in a vector, read as a position in its sequence of rows.
pub open spec fn as_index(at: Option<usize>) -> Option<int> {
    match at {
        Some(i) => Some(i as int),
        None => None,
    }
}

/// Whether no key occurs twice among the rows.
pub fn has_unique_keys<T: Keyed>(rows: &Vec<T>) -> (r: bool)
    ensures
        r == unique_keys(rows@),
{
    let mut j: usize = 0;
    while j < rows.len()
        invariant
            j <= rows.len(),
            forall|a: int, b: int|
                0 <= a < b < j ==> #[trigger] rows@[a].key() != #[trigger] rows@[b].key(),
        decreases rows.len() - j,
    {
        let mut i: usize = 0;
        while i < j
            invariant
                i <= j < rows.len(),
                forall|a: int| 0 <= a < i ==> #[trigger] rows@[a].key() != rows@[j as int].key(),
            decreases j - i,
        {
            if rows[i].same_key(&rows[j]) {
                assert(rows@[i as int].key() == rows@[j as int].key());
                return false;
            }
            i += 1;
        }
        j += 1;
    }
    true
}

/// Stores `row` in a table: at `at`, where the row with its key was found,
/// or at the end when there is none.
pub fn store_row<T: Keyed>(rows: &mut Vec<T>, at: Option<usize>, row: T)
    requires
        unique_keys(old(rows)@),
        as_index(at) == index_of(old(rows)@, row.key()),
    ensures
        final(rows)@ == upsert(old(rows)@, row),
        unique_keys(final(rows)@),
{
    proof {
        lemma_index_of(rows@, row.key());
        lemma_upsert_unique(rows@, row);
    }
    match at {
        Some(i) => {
            rows.set(i, row);
        },
        None => {
            rows.push(row);
        },
    }
}

/// Takes the row at `at` out of a table, if a position is given.
pub fn drop_row<T: Keyed>(rows: &mut Vec<T>, at: Option<usize>)
    requires
        unique_keys(old(rows)@),
        at matches Some(i) ==> i < old(rows)@.len(),
    ensures
        final(rows)@ == match at {
            Some(i) => old(rows)@.remove(i as int),
            None => old(rows)@,
        },
        unique_keys(final(rows)@),
        at matches Some(i) ==> !holds_key(final(rows)@, old(rows)@[i as int].key()),
{
    match at {
        Some(i) => {
            proof {
                lemma_remove_unique(rows@, i as int);
            }
            rows.remove(i);
        },
        None => {},
    }
}

/// A position found by scanning from the front is the one `index_of` names.
pub proof fn lemma_index_of_found<T: Keyed>(rows: Seq<T>, k: T::Key, i: int)
    requires
        first_at(rows, k, i),
    ensures
        index_of(rows, k) == Some(i),
{
    assert(holds_key(rows, k));
    let c = choose|c: int| first_at(rows, k, c);
    assert(first_at(rows, k, c));
    if c < i {
        assert(rows[c].key() != k);
    }
    if i < c {
        assert(rows[i].key() != k);
    }
}

/// A scan that met no row with the key shows that `index_of` is `None`.
pub proof fn lemma_index_of_absent<T: Keyed>(rows: Seq<T>, k: T::Key)
    requires
        forall|j: int| 0 <= j < rows.len() ==> #[trigger] rows[j].key() != k,
    ensures
        index_of(rows, k) is None,
        !holds_key(rows, k),
{
}

/// What `index_of` returns, spelled out.
pub proof fn lemma_index_of<T: Keyed>(rows: Seq<T>, k: T::Key)
    ensures
        match index_of(rows, k) {
            Some(i) => first_at(rows, k, i),
            None => forall|j: int| 0 <= j < rows.len() ==> #[trigger] rows[j].key() != k,
        },
{
    if holds_key(rows, k) {
        let w = choose|i: int| 0 <= i < rows.len() && #[trigger] rows[i].key() == k;
        lemma_first_exists(rows, k, w);
    }
}

proof fn lemma_first_exists<T: Keyed>(rows: Seq<T>, k: T::Key, w: int)
    requires
        0 <= w < rows.len(),
        rows[w].key() == k,
    ensures
        exists|i: int| first_at(rows, k, i),
    decreases w,
{
    if forall|j: int| 0 <= j < w ==> #[trigger] rows[j].key() != k {
        assert(first_at(rows, k, w));
    } else {
        let j = choose|j: int| 0 <= j < w && #[trigger] rows[j].key() == k;
        lemma_first_exists(rows, k, j);
    }
}

/// In a table with unique keys, the row with a key sits where `index_of` says.
pub proof fn lemma_index_of_unique<T: Keyed>(rows: Seq<T>, i: int)
    requires
        unique_keys(rows),
        0 <= i < rows.len(),
    ensures
        index_of(rows, rows[i].key()) == Some(i),
{
    assert forall|j: int| 0 <= j < i implies #[trigger] rows[j].key() != rows[i].key() by {}
    lemma_index_of_found(rows, rows[i].key(), i);
}

/// Storing a row keeps the keys unique.
pub proof fn lemma_upsert_unique<T: Keyed>(rows: Seq<T>, row: T)
    requires
        unique_keys(rows),
    ensures
        unique_keys(upsert(rows, row)),
        upsert(rows, row).len() >= rows.len(),
        index_of(upsert(rows, row), row.key()) is Some,
{
    lemma_index_of(rows, row.key());
    let after = upsert(rows, row);
    match index_of(rows, row.key()) {
        Some(i) => {
            assert forall|a: int, b: int| 0 <= a < b < after.len() implies #[trigger] after[a].key()
                != #[trigger] after[b].key() by {
                if a == i {
                    assert(rows[i].key() != rows[b].key());
                } else if b == i {
                    assert(rows[a].key() != rows[i].key());
                } else {
                    assert(rows[a].key() != rows[b].key());
                }
            }
            assert(after[i].key() == row.key());
        },
        None => {
            assert forall|a: int, b: int| 0 <= a < b < after.len() implies #[trigger] after[a].key()
                != #[trigger] after[b].key() by {
                if b == rows.len() {
                    assert(rows[a].key() != row.key());
                } else {
                    assert(rows[a].key() != rows[b].key());
                }
            }
            assert(after[rows.len() as int].key() == row.key());
        },
    }
}

/// Replacing a row by one with the same key keeps the keys unique and leaves
/// every key where it was.
pub proof fn lemma_update_same_key<T: Keyed>(rows: Seq<T>, i: int, row: T)
    requires
        unique_keys(rows),
        0 <= i < rows.len(),
        row.key() == rows[i].key(),
    ensures
        unique_keys(rows.update(i, row)),
        forall|k: T::Key| index_of(rows.update(i, row), k) == index_of(rows, k),
{
    let after = rows.update(i, row);
    assert forall|a: int, b: int| 0 <= a < b < after.len() implies #[trigger] after[a].key()
        != #[trigger] after[b].key() by {
        assert(rows[a].key() != rows[b].key());
    }
    assert forall|k: T::Key| index_of(after, k) == index_of(rows, k) by {
        lemma_index_of(rows, k);
        match index_of(rows, k) {
            Some(p) => {
                assert forall|j: int| 0 <= j < p implies #[trigger] after[j].key() != k by {
                    assert(rows[j].key() != k);
                }
                lemma_index_of_found(after, k, p);
            },
            None => {
                assert forall|j: int| 0 <= j < after.len() implies #[trigger] after[j].key()
                    != k by {
                    assert(rows[j].key() != k);
                }
                lemma_index_of_absent(after, k);
            },
        }
    }
}

/// Adding a row with a new key leaves every other key where it was and puts
/// the new key at the end.
pub proof fn lemma_push_fresh<T: Keyed>(rows: Seq<T>, row: T)
    requires
        !holds_key(rows, row.key()),
    ensures
        forall|k: T::Key|
            index_of(rows.push(row), k) == if k == row.key() {
                Some(rows.len() as int)
            } else {
                index_of(rows, k)
            },
{
    let after = rows.push(row);
    assert forall|k: T::Key|
        index_of(after, k) == if k == row.key() {
            Some(rows.len() as int)
        } else {
            index_of(rows, k)
        } by {
        lemma_index_of(rows, k);
        if k == row.key() {
            assert forall|j: int| 0 <= j < rows.len() implies #[trigger] after[j].key() != k by {
                assert(rows[j].key() != k);
            }
            lemma_index_of_found(after, k, rows.len() as int);
        } else {
            match index_of(rows, k) {
                Some(p) => {
                    assert forall|j: int| 0 <= j < p implies #[trigger] after[j].key() != k by {
                        assert(rows[j].key() != k);
                    }
                    lemma_index_of_found(after, k, p);
                },
                None => {
                    assert forall|j: int| 0 <= j < after.len() implies #[trigger] after[j].key()
                        != k by {
                        if j < rows.len() {
                            assert(rows[j].key() != k);
                        }
                    }
                    lemma_index_of_absent(after, k);
                },
            }
        }
    }
}

/// Taking a row out keeps the keys unique, and its key is then gone.
pub proof fn lemma_remove_unique<T: Keyed>(rows: Seq<T>, i: int)
    requires
        unique_keys(rows),
        0 <= i < rows.len(),
    ensures
        unique_keys(rows.remove(i)),
        !holds_key(rows.remove(i), rows[i].key()),
        rows.remove(i).len() == rows.len() - 1,
{
    let after = rows.remove(i);
    assert forall|a: int| 0 <= a < after.len() implies #[trigger] after[a] == rows[if a < i {
        a
    } else {
        a + 1
    }] by {}
    assert forall|a: int, b: int| 0 <= a < b < after.len() implies #[trigger] after[a].key()
        != #[trigger] after[b].key() by {
        let ra = if a < i { a } else { a + 1 };
        let rb = if b < i { b } else { b + 1 };
        assert(after[a] == rows[ra]);
        assert(after[b] == rows[rb]);
        assert(rows[ra].key() != rows[rb].key());
    }
    assert forall|a: int| 0 <= a < after.len() implies #[trigger] after[a].key() != rows[i].key() by {
        let ra = if a < i { a } else { a + 1 };
        assert(after[a] == rows[ra]);
        if ra < i {
            assert(rows[ra].key() != rows[i].key());
        } else {
            assert(rows[i].key() != rows[ra].key());
        }
    }
}

/// Every row of a selection is a row of the table it was selected from, and
/// a selection from a table with unique keys has unique keys.
pub proof fn lemma_filter_unique<T: Keyed>(rows: Seq<T>, pred: spec_fn(T) -> bool)
    requires
        unique_keys(rows),
    ensures
        unique_keys(rows.filter(pred)),
        forall|i: int|
            0 <= i < rows.filter(pred).len() ==> rows.contains(#[trigger] rows.filter(pred)[i])
                && pred(rows.filter(pred)[i]),
        forall|k: T::Key| holds_key(rows.filter(pred), k) ==> holds_key(rows, k),
        rows.filter(pred).len() <= rows.len(),
    decreases rows.len(),
{
    reveal(Seq::filter);
    let picked = rows.filter(pred);
    if rows.len() > 0 {
        let front = rows.drop_last();
        let last = rows.last();
        assert forall|i: int, j: int| 0 <= i < j < front.len() implies #[trigger] front[i].key()
            != #[trigger] front[j].key() by {
            assert(rows[i].key() != rows[j].key());
        }
        lemma_filter_unique(front, pred);
        let inner = front.filter(pred);
        assert forall|i: int| 0 <= i < picked.len() implies rows.contains(#[trigger] picked[i])
            && pred(picked[i]) by {
            if i < inner.len() {
                assert(picked[i] == inner[i]);
                assert(front.contains(inner[i]));
                let w = choose|w: int| 0 <= w < front.len() && front[w] == inner[i];
                assert(rows[w] == picked[i]);
            } else {
                assert(picked[i] == last);
                assert(rows[rows.len() - 1] == picked[i]);
            }
        }
        assert forall|i: int, j: int| 0 <= i < j < picked.len() implies #[trigger] picked[i].key()
            != #[trigger] picked[j].key() by {
            if j < inner.len() {
                assert(inner[i].key() != inner[j].key());
            } else {
                assert(picked[j] == last);
                assert(picked[i] == inner[i]);
                assert(front.contains(inner[i]));
                let w = choose|w: int| 0 <= w < front.len() && front[w] == inner[i];
                assert(rows[w].key() != rows[rows.len() - 1].key());
            }
        }
    }
    assert forall|k: T::Key| holds_key(picked, k) implies holds_key(rows, k) by {
        let w = choose|w: int| 0 <= w < picked.len() && #[trigger] picked[w].key() == k;
        assert(rows.contains(picked[w]));
        let v = choose|v: int| 0 <= v < rows.len() && rows[v] == picked[w];
        assert(rows[v].key() == k);
    }
}

/// What holds of two rows whenever one stands before the other holds of
/// the rows of a selection too.
pub proof fn lemma_filter_keeps_order<T>(
    rows: Seq<T>,
    pred: spec_fn(T) -> bool,
    before: spec_fn(T, T) -> bool,
)
    requires
        forall|i: int, j: int| 0 <= i < j < rows.len() ==> #[trigger] before(rows[i], rows[j]),
    ensures
        forall|i: int, j: int|
            0 <= i < j < rows.filter(pred).len() ==> #[trigger] before(
                rows.filter(pred)[i],
                rows.filter(pred)[j],
            ),
        forall|i: int|
            0 <= i < rows.filter(pred).len() ==> rows.contains(#[trigger] rows.filter(pred)[i]),
    decreases rows.len(),
{
    reveal(Seq::filter);
    let picked = rows.filter(pred);
    if rows.len() > 0 {
        let front = rows.drop_last();
        let last = rows.last();
        assert forall|i: int, j: int| 0 <= i < j < front.len() implies #[trigger] before(
            front[i],
            front[j],
        ) by {
            assert(before(rows[i], rows[j]));
        }
        lemma_filter_keeps_order(front, pred, before);
        let inner = front.filter(pred);
        assert forall|i: int| 0 <= i < picked.len() implies rows.contains(#[trigger] picked[i]) by {
            if i < inner.len() {
                assert(front.contains(inner[i]));
                let w = choose|w: int| 0 <= w < front.len() && front[w] == inner[i];
                assert(rows[w] == picked[i]);
            } else {
                assert(rows[rows.len() - 1] == picked[i]);
            }
        }
        assert forall|i: int, j: int| 0 <= i < j < picked.len() implies #[trigger] before(
            picked[i],
            picked[j],
        ) by {
            if j < inner.len() {
                assert(before(inner[i], inner[j]));
            } else {
                assert(front.contains(inner[i]));
                let w = choose|w: int| 0 <= w < front.len() && front[w] == inner[i];
                assert(before(rows[w], rows[rows.len() - 1]));
            }
        }
    }
}

/// Adding a row to a list changes its first `limit` rows only while there
/// are fewer than `limit`.
pub proof fn lemma_first_rows_push<T>(rows: Seq<T>, row: T, limit: i64)
    ensures
        first_rows(rows.push(row), limit) == if limit < 0 || first_rows(rows, limit).len() < limit {
            first_rows(rows, limit).push(row)
        } else {
            first_rows(rows, limit)
        },
        first_rows(Seq::<T>::empty(), limit) == Seq::<T>::empty(),
{
    if limit >= 0 && rows.len() >= limit {
        assert(rows.push(row).take(limit as int) =~= rows.take(limit as int));
        assert(rows.take(rows.len() as int) =~= rows);
    }
    if limit >= 0 && rows.len() + 1 == limit {
        assert(rows.push(row).take(limit as int) =~= rows.push(row));
    }
}

/// The first `n + 1` rows are the first `n` rows and the row at `n`.
pub proof fn lemma_take_next<T>(rows: Seq<T>, n: int)
    requires
        0 <= n < rows.len(),
    ensures
        rows.take(n + 1) == rows.take(n).push(rows[n]),
{
    assert(rows.take(n + 1) =~= rows.take(n).push(rows[n]));
}

/// The first no rows are none, of which none is selected, and the first
/// `len` rows are all.
pub proof fn lemma_take_ends<T>(rows: Seq<T>, pred: spec_fn(T) -> bool)
    ensures
        rows.take(0) == Seq::<T>::empty(),
        rows.take(0).filter(pred) == Seq::<T>::empty(),
        rows.take(rows.len() as int) == rows,
{
    reveal(Seq::filter);
    assert(rows.take(0) =~= Seq::<T>::empty());
    assert(rows.take(rows.len() as int) =~= rows);
}

} // verus!
