//! The outbox: local changes that wait to be sent to the remote side. Items
//! are numbered as they are queued, leave the queue only when their sending
//! was confirmed, and are handed out oldest first.

use vstd::prelude::*;

use crate::error::StoreError;
use crate::text::copy_text;
use crate::table::{
    as_index, drop_row, first_rows, holds_key, index_of, lemma_filter_keeps_order,
    lemma_first_rows_push, lemma_index_of, lemma_index_of_absent, lemma_index_of_found,
    lemma_take_ends, lemma_take_next, unique_keys, without_key, Keyed,
};

verus! {

/// One queued change: what was done (`operation_type`) to which record
/// (`table_name`, `record_id`), the payload for the remote side, and how
/// often its sending was tried and failed.
#[derive(Debug, Clone, PartialEq, Eq)]
pub struct SyncQueueItem {
    pub id: i64,
    pub operation_type: String,
    pub table_name: String,
    pub record_id: String,
    pub data: String,
    pub created_at: i64,
    pub retry_count: u64,
    pub last_retry_at: Option<i64>,
    pub error_message: Option<String>,
}

impl Keyed for SyncQueueItem {
    type Key = i64;

    open spec fn key(&self) -> i64 {
        self.id
    }

    fn same_key(&self, other: &Self) -> (r: bool) {
        self.id == other.id
    }
}

impl SyncQueueItem {
    /// A copy of the row.
    pub fn duplicate(&self) -> (r: SyncQueueItem)
        ensures
            r == *self,
    {
        SyncQueueItem {
            id: self.id,
            operation_type: self.operation_type.clone(),
            table_name: self.table_name.clone(),
            record_id: self.record_id.clone(),
            data: self.data.clone(),
            created_at: self.created_at,
            retry_count: self.retry_count,
            last_retry_at: self.last_retry_at,
            error_message: copy_text(&self.error_message),
        }
    }
}

/// An item after a failed sending at `now`: one more try is counted (the
/// count stops at the largest number it can hold), its time is noted, and
/// the error message is replaced by the new one, or cleared if there is none.
pub open spec fn retried(item: SyncQueueItem, error_message: Option<String>, now: i64)
    -> SyncQueueItem {
    SyncQueueItem {
        retry_count: if item.retry_count < u64::MAX {
            (item.retry_count + 1) as u64
        } else {
            item.retry_count
        },
        last_retry_at: Some(now),
        error_message,
        ..item
    }
}

/// The items that concern the table `table_name`, as a selection.
pub open spec fn of_table(table_name: Seq<char>) -> spec_fn(SyncQueueItem) -> bool {
    |item: SyncQueueItem| item.table_name@ == table_name
}

/// The items whose number is not among `ids`, as a selection.
pub open spec fn not_among(ids: Seq<i64>) -> spec_fn(SyncQueueItem) -> bool {
    |item: SyncQueueItem| !ids.contains(item.id)
}

/// The list of whole numbers that `serde_json::from_str` reads from a JSON
/// text when a `Vec<i64>` is asked for; `None` where it reports an error.
pub uninterp spec fn json_id_list(text: Seq<char>) -> Option<Seq<i64>>;

/// Calls `serde_json::from_str` for a `Vec<i64>`. Trusted: the result is
/// `json_id_list` of the text, `None` standing for serde_json's error.
#[verifier::external_body]
fn parse_id_list(text: &str) -> (r: Option<Vec<i64>>)
    ensures
        json_id_list(text@) == match r {
            Some(ids) => Some(ids@),
            None => None,
        },
{
    match serde_json::from_str::<Vec<i64>>(text) {
        Ok(ids) => Some(ids),
        Err(_) => None,
    }
}

/// `a` was queued before `b`: it has the lower number and no later time.
pub open spec fn stands_before(a: SyncQueueItem, b: SyncQueueItem) -> bool {
    a.id < b.id && a.created_at <= b.created_at
}

/// What the outbox holds: the queued items, oldest first, and the number
/// that the next item will get.
pub struct OutboxState {
    pub items: Seq<SyncQueueItem>,
    pub next_id: i64,
}

impl OutboxState {
    /// The items stand in the order in which they were queued, which is the
    /// order of their numbers and of their times, and every number was given
    /// out.
    pub open spec fn wf(self) -> bool {
        &&& forall|i: int, j: int|
            0 <= i < j < self.items.len() ==> #[trigger] stands_before(
                self.items[i],
                self.items[j],
            )
        &&& forall|i: int| 0 <= i < self.items.len() ==> (#[trigger] self.items[i]).id < self.next_id
    }

    /// The time that an item queued at `now` is stamped with: `now`, or the
    /// time of the newest item in the queue if that is later, so that the
    /// times never run backwards along the queue.
    pub open spec fn stamp(self, now: i64) -> i64 {
        if self.items.len() > 0 && self.items.last().created_at > now {
            self.items.last().created_at
        } else {
            now
        }
    }
}

/// In a queue that is in the order of its numbers no number occurs twice.
pub proof fn lemma_queue_unique(s: OutboxState)
    requires
        s.wf(),
    ensures
        unique_keys(s.items),
{
    assert forall|i: int, j: int| 0 <= i < j < s.items.len() implies #[trigger] s.items[i].key()
        != #[trigger] s.items[j].key() by {
        assert(stands_before(s.items[i], s.items[j]));
    }
}

/// A selection from a queue is in the order of the queue.
pub proof fn lemma_selection_in_order(s: OutboxState, pred: spec_fn(SyncQueueItem) -> bool)
    requires
        s.wf(),
    ensures
        (OutboxState { items: s.items.filter(pred), ..s }).wf(),
{
    let order = |a: SyncQueueItem, b: SyncQueueItem| stands_before(a, b);
    assert forall|i: int, j: int| 0 <= i < j < s.items.len() implies #[trigger] order(
        s.items[i],
        s.items[j],
    ) by {
        assert(stands_before(s.items[i], s.items[j]));
    }
    lemma_filter_keeps_order(s.items, pred, order);
    let picked = s.items.filter(pred);
    assert forall|i: int, j: int| 0 <= i < j < picked.len() implies #[trigger] stands_before(
        picked[i],
        picked[j],
    ) by {
        assert(order(picked[i], picked[j]));
    }
    assert forall|i: int| 0 <= i < picked.len() implies (#[trigger] picked[i]).id < s.next_id by {
        assert(s.items.contains(picked[i]));
    }
}

/// The outbox.
pub struct SyncOutbox {
    items: Vec<SyncQueueItem>,
    next_id: i64,
}

impl View for SyncOutbox {
    type V = OutboxState;

    closed spec fn view(&self) -> OutboxState {
        OutboxState { items: self.items@, next_id: self.next_id }
    }
}

impl SyncOutbox {
    /// The invariant of the outbox: see [`OutboxState::wf`].
    pub open spec fn wf(&self) -> bool {
        self@.wf()
    }

    /// An empty outbox. The first item will be number 1.
    pub fn new() -> (r: SyncOutbox)
        ensures
            r.wf(),
            r@.items.len() == 0,
            r@.next_id == 1,
    {
        SyncOutbox { items: Vec::new(), next_id: 1 }
    }

    /// The queued items, oldest first.
    pub fn items(&self) -> (r: &Vec<SyncQueueItem>)
        ensures
            r@ == self@.items,
    {
        &self.items
    }

    /// Where the item number `id` is.
    pub fn find_item(&self, id: i64) -> (r: Option<usize>)
        ensures
            as_index(r) == index_of(self@.items, id),
            r matches Some(i) ==> i < self@.items.len() && self@.items[i as int].id == id,
            r is Some <==> holds_key(self@.items, id),
    {
        let mut i: usize = 0;
        while i < self.items.len()
            invariant
                i <= self.items.len(),
                forall|j: int| 0 <= j < i ==> (#[trigger] self.items@[j]).id != id,
            decreases self.items.len() - i,
        {
            if self.items[i].id == id {
                proof {
                    lemma_index_of_found(self.items@, id, i as int);
                }
                return Some(i);
            }
            i += 1;
        }
        proof {
            lemma_index_of_absent(self.items@, id);
        }
        None
    }

    /// Queues a change at `now` and returns the number it was given: the next
    /// one after the last that was given out. The item goes to the end of the
    /// queue, with no try counted, stamped with `now`, or with the time of the
    /// item before it where the clock has gone backwards. Nothing is merged:
    /// the same change queued twice is in the queue twice. When the numbers
    /// have run out, the change is refused with `ConstraintViolation`.
    pub fn add_to_sync_queue(
        &mut self,
        operation_type: String,
        table_name: String,
        record_id: String,
        data: String,
        now: i64,
    ) -> (r: Result<i64, StoreError>)
        requires
            old(self).wf(),
        ensures
            final(self).wf(),
            old(self)@.next_id < i64::MAX ==> r == Ok::<i64, StoreError>(old(self)@.next_id)
                && final(self)@ == (OutboxState {
                items: old(self)@.items.push(
                    SyncQueueItem {
                        id: old(self)@.next_id,
                        operation_type,
                        table_name,
                        record_id,
                        data,
                        created_at: old(self)@.stamp(now),
                        retry_count: 0,
                        last_retry_at: None,
                        error_message: None,
                    },
                ),
                next_id: (old(self)@.next_id + 1) as i64,
            }),
            old(self)@.next_id == i64::MAX ==> r == Err::<i64, StoreError>(
                StoreError::ConstraintViolation,
            ) && final(self)@ == old(self)@,
    {
        if self.next_id == i64::MAX {
            return Err(StoreError::ConstraintViolation);
        }
        let id = self.next_id;
        let n = self.items.len();
        let created_at = if n > 0 && self.items[n - 1].created_at > now {
            self.items[n - 1].created_at
        } else {
            now
        };
        let item = SyncQueueItem {
            id,
            operation_type,
            table_name,
            record_id,
            data,
            created_at,
            retry_count: 0,
            last_retry_at: None,
            error_message: None,
        };
        self.items.push(item);
        self.next_id = id + 1;
        proof {
            let before = old(self).items@;
            let after = self.items@;
            assert forall|i: int, j: int| 0 <= i < j < after.len() implies #[trigger] stands_before(
                after[i],
                after[j],
            ) by {
                if j == before.len() {
                    assert(before[i].id < id);
                    if i < before.len() - 1 {
                        assert(stands_before(before[i], before[before.len() - 1]));
                    }
                } else {
                    assert(stands_before(before[i], before[j]));
                }
            }
            assert forall|i: int| 0 <= i < after.len() implies (#[trigger] after[i]).id
                < self.next_id by {
                if i < before.len() {
                    assert(before[i].id < id);
                }
            }
        }
        Ok(id)
    }

    /// The oldest items of the queue, oldest first: at most `limit` of them,
    /// 100 where no limit is given, all where the limit is negative. The
    /// items stay in the queue.
    pub fn get_sync_queue(&self, limit: Option<i64>) -> (r: Vec<SyncQueueItem>)
        ensures
            r@ == first_rows(
                self@.items,
                match limit {
                    Some(l) => l,
                    None => 100i64,
                },
            ),
    {
        let most: i64 = match limit {
            Some(l) => l,
            None => 100,
        };
        let mut out: Vec<SyncQueueItem> = Vec::new();
        let mut i: usize = 0;
        proof {
            assert(self.items@.take(0) =~= Seq::<SyncQueueItem>::empty());
            lemma_first_rows_push(Seq::<SyncQueueItem>::empty(), self.items@[0], most);
        }
        while i < self.items.len()
            invariant
                i <= self.items.len(),
                out@ == first_rows(self.items@.take(i as int), most),
                out@.len() <= i,
            decreases self.items.len() - i,
        {
            proof {
                lemma_take_next(self.items@, i as int);
                lemma_first_rows_push(self.items@.take(i as int), self.items@[i as int], most);
            }
            if most < 0 || (out.len() as u64) < (most as u64) {
                out.push(self.items[i].duplicate());
            }
            i += 1;
        }
        proof {
            assert(self.items@.take(self.items@.len() as int) =~= self.items@);
        }
        out
    }

    /// The number of queued items.
    pub fn get_sync_queue_count(&self) -> (r: usize)
        ensures
            r == self@.items.len(),
    {
        self.items.len()
    }

    /// Takes the item number `sync_id` out of the queue, its sending having
    /// been confirmed, and says whether it was queued. The other items keep
    /// their order. Taking out an item that is not queued changes nothing.
    pub fn remove_from_sync_queue(&mut self, sync_id: i64) -> (r: bool)
        requires
            old(self).wf(),
        ensures
            final(self).wf(),
            r == holds_key(old(self)@.items, sync_id),
            final(self)@ == (OutboxState {
                items: without_key(old(self)@.items, sync_id),
                ..old(self)@
            }),
            !holds_key(final(self)@.items, sync_id),
    {
        let at = self.find_item(sync_id);
        proof {
            lemma_index_of(self.items@, sync_id);
            lemma_queue_unique(self@);
        }
        drop_row(&mut self.items, at);
        proof {
            match at {
                Some(i) => {
                    let before = old(self).items@;
                    let after = self.items@;
                    assert forall|a: int| 0 <= a < after.len() implies #[trigger] after[a]
                        == before[if a < i {
                        a
                    } else {
                        a + 1
                    }] by {}
                    assert forall|a: int, b: int|
                        0 <= a < b < after.len() implies #[trigger] stands_before(after[a], after[b]) by {
                        let ra = if a < i { a } else { a + 1 };
                        let rb = if b < i { b } else { b + 1 };
                        assert(after[a] == before[ra]);
                        assert(after[b] == before[rb]);
                        assert(stands_before(before[ra], before[rb]));
                    }
                    assert forall|a: int| 0 <= a < after.len() implies (#[trigger] after[a]).id
                        < self.next_id by {
                        let ra = if a < i { a } else { a + 1 };
                        assert(after[a] == before[ra]);
                        assert(before[ra].id < self.next_id);
                    }
                },
                None => {},
            }
        }
        at.is_some()
    }

    /// Takes every item whose number is in the list that `sync_ids` holds as
    /// a JSON text out of the queue, and returns how many numbers were
    /// listed, whether or not each was queued. The other items keep their
    /// order. A text that is no JSON list of whole numbers is `InvalidInput`,
    /// and nothing changes.
    pub fn remove_multiple_from_sync_queue(&mut self, sync_ids: &str) -> (r: Result<
        usize,
        StoreError,
    >)
        requires
            old(self).wf(),
        ensures
            final(self).wf(),
            match json_id_list(sync_ids@) {
                Some(ids) => r == Ok::<usize, StoreError>(ids.len() as usize) && final(self)@ == (
                OutboxState { items: old(self)@.items.filter(not_among(ids)), ..old(self)@ }),
                None => r == Err::<usize, StoreError>(StoreError::InvalidInput) && final(self)@
                    == old(self)@,
            },
    {
        match parse_id_list(sync_ids) {
            Some(ids) => Ok(self.remove_all_from_sync_queue(&ids)),
            None => Err(StoreError::InvalidInput),
        }
    }

    /// Takes every item whose number is among `sync_ids` out of the queue,
    /// and returns how many numbers were given, whether or not each was
    /// queued. The other items keep their order.
    pub fn remove_all_from_sync_queue(&mut self, sync_ids: &Vec<i64>) -> (r: usize)
        requires
            old(self).wf(),
        ensures
            final(self).wf(),
            final(self)@ == (OutboxState {
                items: old(self)@.items.filter(not_among(sync_ids@)),
                ..old(self)@
            }),
            r == sync_ids@.len(),
    {
        let ghost pred = not_among(sync_ids@);
        let mut left: Vec<SyncQueueItem> = Vec::new();
        let mut i: usize = 0;
        proof {
            lemma_take_ends(self.items@, pred);
        }
        while i < self.items.len()
            invariant
                i <= self.items.len(),
                pred == not_among(sync_ids@),
                left@ == self.items@.take(i as int).filter(pred),
            decreases self.items.len() - i,
        {
            let row = &self.items[i];
            let mut named = false;
            let mut k: usize = 0;
            while k < sync_ids.len()
                invariant
                    k <= sync_ids.len(),
                    row.id == self.items@[i as int].id,
                    named == exists|j: int| 0 <= j < k && sync_ids@[j] == row.id,
                decreases sync_ids.len() - k,
            {
                if sync_ids[k] == row.id {
                    named = true;
                }
                k += 1;
            }
            proof {
                lemma_take_next(self.items@, i as int);
                self.items@.take(i as int).lemma_filter_push(self.items@[i as int], pred);
                assert(named == sync_ids@.contains(row.id));
            }
            if !named {
                left.push(row.duplicate());
            }
            i += 1;
        }
        proof {
            lemma_take_ends(self.items@, pred);
            lemma_selection_in_order(self@, pred);
        }
        self.items = left;
        sync_ids.len()
    }

    /// Notes at `now` that sending the item number `sync_id` has failed, and
    /// says whether it is queued: one more try is counted, and
    /// `error_message` replaces the message of the last failure. The item
    /// keeps its place in the queue and is handed out again; when to try
    /// again is the caller's business.
    pub fn update_sync_queue_retry(
        &mut self,
        sync_id: i64,
        error_message: Option<String>,
        now: i64,
    ) -> (r: bool)
        requires
            old(self).wf(),
        ensures
            final(self).wf(),
            r == holds_key(old(self)@.items, sync_id),
            final(self)@ == match index_of(old(self)@.items, sync_id) {
                Some(i) => OutboxState {
                    items: old(self)@.items.update(
                        i,
                        retried(old(self)@.items[i], error_message, now),
                    ),
                    ..old(self)@
                },
                None => old(self)@,
            },
    {
        let i = match self.find_item(sync_id) {
            Some(i) => i,
            None => {
                return false;
            },
        };
        let mut row = self.items[i].duplicate();
        if row.retry_count < u64::MAX {
            row.retry_count = row.retry_count + 1;
        }
        row.last_retry_at = Some(now);
        row.error_message = error_message;
        self.items.set(i, row);
        proof {
            let before = old(self).items@;
            let after = self.items@;
            assert forall|a: int, b: int|
                0 <= a < b < after.len() implies #[trigger] stands_before(after[a], after[b]) by {
                assert(stands_before(before[a], before[b]));
            }
            assert forall|a: int| 0 <= a < after.len() implies (#[trigger] after[a]).id
                < self.next_id by {
                assert(before[a].id < self.next_id);
            }
        }
        true
    }

    /// Empties the queue. The numbers that were given out stay given out.
    pub fn clear_sync_queue(&mut self)
        requires
            old(self).wf(),
        ensures
            final(self).wf(),
            final(self)@ == (OutboxState { items: Seq::empty(), ..old(self)@ }),
    {
        self.items = Vec::new();
    }

    /// The queued items that concern the table `table_name`, oldest first.
    pub fn get_sync_queue_by_table(&self, table_name: &str) -> (r: Vec<SyncQueueItem>)
        ensures
            r@ == self@.items.filter(of_table(table_name@)),
    {
        let table = table_name.to_owned();
        let ghost pred = of_table(table_name@);
        let mut out: Vec<SyncQueueItem> = Vec::new();
        let mut i: usize = 0;
        proof {
            lemma_take_ends(self.items@, pred);
        }
        while i < self.items.len()
            invariant
                i <= self.items.len(),
                table@ == table_name@,
                pred == of_table(table_name@),
                out@ == self.items@.take(i as int).filter(pred),
            decreases self.items.len() - i,
        {
            proof {
                lemma_take_next(self.items@, i as int);
                self.items@.take(i as int).lemma_filter_push(self.items@[i as int], pred);
            }
            if self.items[i].table_name == table {
                out.push(self.items[i].duplicate());
            }
            i += 1;
        }
        proof {
            lemma_take_ends(self.items@, pred);
        }
        out
    }
}

impl SyncOutbox {
    /// An outbox that holds the given items, as they were kept elsewhere,
    /// and gives `next_id` to the next item. Items that are not in the order
    /// of their numbers and times, or under a number that was not given out
    /// yet, are refused with `ConstraintViolation`.
    pub fn restore(items: Vec<SyncQueueItem>, next_id: i64) -> (r: Result<SyncOutbox, StoreError>)
        ensures
            match r {
                Ok(outbox) => (OutboxState { items: items@, next_id }).wf() && outbox@ == (
                OutboxState { items: items@, next_id }),
                Err(e) => !(OutboxState { items: items@, next_id }).wf() && e
                    == StoreError::ConstraintViolation,
            },
    {
        let mut i: usize = 0;
        while i < items.len()
            invariant
                i <= items.len(),
                forall|a: int, b: int|
                    0 <= a < b < i ==> #[trigger] stands_before(items@[a], items@[b]),
                forall|a: int| 0 <= a < i ==> (#[trigger] items@[a]).id < next_id,
            decreases items.len() - i,
        {
            if items[i].id >= next_id {
                assert(!(items@[i as int].id < next_id));
                return Err(StoreError::ConstraintViolation);
            }
            if i > 0 && (items[i - 1].id >= items[i].id || items[i - 1].created_at
                > items[i].created_at) {
                assert(!stands_before(items@[i - 1], items@[i as int]));
                return Err(StoreError::ConstraintViolation);
            }
            assert forall|a: int, b: int| 0 <= a < b < i + 1 implies #[trigger] stands_before(
                items@[a],
                items@[b],
            ) by {
                if b == i && a < i - 1 {
                    assert(stands_before(items@[a], items@[i - 1]));
                }
            }
            i += 1;
        }
        Ok(SyncOutbox { items, next_id })
    }

    /// The number that the next item will get.
    pub fn next_id(&self) -> (r: i64)
        ensures
            r == self@.next_id,
    {
        self.next_id
    }
}

/// First in, first out: whatever the limit, every item that a batch hands
/// out was queued before every item that it leaves behind, under a lower
/// number and at no later time.
pub proof fn law_oldest_first(s: OutboxState, limit: i64, i: int, j: int)
    requires
        s.wf(),
        0 <= i < first_rows(s.items, limit).len(),
        first_rows(s.items, limit).len() <= j < s.items.len(),
    ensures
        first_rows(s.items, limit)[i] == s.items[i],
        s.items[i].id < s.items[j].id,
        s.items[i].created_at <= s.items[j].created_at,
{
    assert(stands_before(s.items[i], s.items[j]));
}

/// Confirming an item reorders nothing: two items that stay in the queue
/// stand after the confirmation as they stood before it.
pub proof fn law_confirmation_keeps_order(s: OutboxState, sync_id: i64, a: int, b: int)
    requires
        s.wf(),
        0 <= a < b < without_key(s.items, sync_id).len(),
    ensures
        stands_before(without_key(s.items, sync_id)[a], without_key(s.items, sync_id)[b]),
        s.items.contains(without_key(s.items, sync_id)[a]),
        s.items.contains(without_key(s.items, sync_id)[b]),
{
    lemma_index_of(s.items, sync_id);
    match index_of(s.items, sync_id) {
        Some(i) => {
            let after = s.items.remove(i);
            let ra = if a < i { a } else { a + 1 };
            let rb = if b < i { b } else { b + 1 };
            assert(after[a] == s.items[ra]);
            assert(after[b] == s.items[rb]);
            assert(stands_before(s.items[ra], s.items[rb]));
        },
        None => {
            assert(stands_before(s.items[a], s.items[b]));
        },
    }
}

} // verus!
