//! Scalar settings of the application, kept under keys: when the last full
//! synchronisation was, and whether the application works offline.

use vstd::prelude::*;

use crate::clock::{format_instant, rfc3339_text, Instant};
use crate::error::StoreError;
use crate::table::{
    as_index, index_of, lemma_index_of, lemma_index_of_absent, lemma_index_of_found,
    lemma_push_fresh, lemma_update_same_key, lemma_upsert_unique, store_row, unique_keys, upsert,
    Keyed,
};

verus! {

/// One setting.
#[derive(Debug, Clone, PartialEq, Eq)]
pub struct AppMetadata {
    pub key: String,
    pub value: String,
    pub updated_at: i64,
}

impl Keyed for AppMetadata {
    type Key = Seq<char>;

    open spec fn key(&self) -> Seq<char> {
        self.key@
    }

    fn same_key(&self, other: &Self) -> (r: bool) {
        self.key == other.key
    }
}

impl AppMetadata {
    /// A copy of the row.
    pub fn duplicate(&self) -> (r: AppMetadata)
        ensures
            r == *self,
    {
        AppMetadata { key: self.key.clone(), value: self.value.clone(), updated_at: self.updated_at }
    }
}

/// The key under which the time of the last full synchronisation is kept.
pub open spec fn last_full_sync_key() -> Seq<char> {
    "last_full_sync"@
}

/// The key under which it is kept whether the application works offline.
pub open spec fn offline_mode_key() -> Seq<char> {
    "is_offline_mode"@
}

/// How a flag is written as a setting's value.
pub open spec fn flag_text(flag: bool) -> Seq<char> {
    if flag {
        "true"@
    } else {
        "false"@
    }
}

/// The value kept under `key`, if any.
pub open spec fn value_of(entries: Seq<AppMetadata>, key: Seq<char>) -> Option<Seq<char>> {
    match index_of(entries, key) {
        Some(i) => Some(entries[i].value@),
        None => None,
    }
}

/// `after` is `before` with `value` stored under `key` at `now`: the setting
/// took the place of the one under its key, or was added.
pub open spec fn stored(
    before: Seq<AppMetadata>,
    after: Seq<AppMetadata>,
    key: Seq<char>,
    value: Seq<char>,
    now: i64,
) -> bool {
    exists|entry: AppMetadata|
        #![trigger upsert(before, entry)]
        entry.key@ == key && entry.value@ == value && entry.updated_at == now && after == upsert(
            before,
            entry,
        )
}

/// After a value was stored under a key, it is the value of that key, and
/// every other key has the value it had.
pub proof fn lemma_stored_value(
    before: Seq<AppMetadata>,
    after: Seq<AppMetadata>,
    key: Seq<char>,
    value: Seq<char>,
    now: i64,
)
    requires
        unique_keys(before),
        stored(before, after, key, value, now),
    ensures
        unique_keys(after),
        value_of(after, key) == Some(value),
        forall|other: Seq<char>| other != key ==> value_of(after, other) == value_of(before, other),
{
    let entry = choose|entry: AppMetadata|
        #![trigger upsert(before, entry)]
        entry.key@ == key && entry.value@ == value && entry.updated_at == now && after == upsert(
            before,
            entry,
        );
    lemma_upsert_unique(before, entry);
    lemma_index_of(before, key);
    lemma_index_of(after, key);
    match index_of(before, key) {
        Some(i) => {
            lemma_update_same_key(before, i, entry);
        },
        None => {
            lemma_push_fresh(before, entry);
        },
    }
    assert forall|other: Seq<char>| other != key implies value_of(after, other) == value_of(
        before,
        other,
    ) by {
        lemma_index_of(before, other);
        lemma_index_of(after, other);
    }
}

/// The settings.
pub struct MetadataStore {
    entries: Vec<AppMetadata>,
}

impl View for MetadataStore {
    type V = Seq<AppMetadata>;

    closed spec fn view(&self) -> Seq<AppMetadata> {
        self.entries@
    }
}

impl MetadataStore {
    /// No key has two settings.
    pub open spec fn wf(&self) -> bool {
        unique_keys(self@)
    }

    /// No settings.
    pub fn new() -> (r: MetadataStore)
        ensures
            r.wf(),
            r@.len() == 0,
    {
        MetadataStore { entries: Vec::new() }
    }

    /// Where the setting under `key` is.
    pub fn find_entry(&self, key: &str) -> (r: Option<usize>)
        ensures
            as_index(r) == index_of(self@, key@),
            r matches Some(i) ==> i < self@.len() && self@[i as int].key@ == key@,
    {
        let probe = key.to_owned();
        let mut i: usize = 0;
        while i < self.entries.len()
            invariant
                i <= self.entries.len(),
                probe@ == key@,
                forall|j: int| 0 <= j < i ==> (#[trigger] self.entries@[j]).key@ != key@,
            decreases self.entries.len() - i,
        {
            if self.entries[i].key == probe {
                proof {
                    lemma_index_of_found(self.entries@, key@, i as int);
                }
                return Some(i);
            }
            i += 1;
        }
        proof {
            lemma_index_of_absent(self.entries@, key@);
        }
        None
    }

    /// Stores `value` under `key` at `now`, in place of what was there.
    pub fn set_app_metadata(&mut self, key: String, value: String, now: i64)
        requires
            old(self).wf(),
        ensures
            final(self).wf(),
            final(self)@ == upsert(old(self)@, AppMetadata { key, value, updated_at: now }),
            stored(old(self)@, final(self)@, key@, value@, now),
    {
        let at = self.find_entry(key.as_str());
        let entry = AppMetadata { key, value, updated_at: now };
        proof {
            assert(self@ == self.entries@);
        }
        store_row(&mut self.entries, at, entry);
    }

    /// The value under `key`, if there is one.
    pub fn get_app_metadata(&self, key: &str) -> (r: Option<String>)
        ensures
            match index_of(self@, key@) {
                Some(i) => r == Some(self@[i].value),
                None => r is None,
            },
            match r {
                Some(v) => value_of(self@, key@) == Some(v@),
                None => value_of(self@, key@) is None,
            },
    {
        match self.find_entry(key) {
            Some(i) => Some(self.entries[i].value.clone()),
            None => None,
        }
    }

    /// All settings, in the order in which their keys were first used.
    pub fn get_all_app_metadata(&self) -> (r: Vec<AppMetadata>)
        ensures
            r@ == self@,
    {
        let mut out: Vec<AppMetadata> = Vec::new();
        let mut i: usize = 0;
        while i < self.entries.len()
            invariant
                i <= self.entries.len(),
                out@ == self.entries@.take(i as int),
            decreases self.entries.len() - i,
        {
            out.push(self.entries[i].duplicate());
            assert(self.entries@.take(i + 1) == self.entries@.take(i as int).push(
                self.entries@[i as int],
            ));
            i += 1;
        }
        assert(self.entries@.take(self.entries@.len() as int) == self.entries@);
        out
    }

    /// Notes `now` as the time of the last full synchronisation, written as
    /// RFC 3339 text. An instant for which there is no date is refused with
    /// `InvalidInput`.
    pub fn set_last_sync_time(&mut self, now: Instant) -> (r: Result<(), StoreError>)
        requires
            old(self).wf(),
        ensures
            final(self).wf(),
            match rfc3339_text(now.seconds as int, now.nanos as int) {
                Some(text) => r is Ok && stored(
                    old(self)@,
                    final(self)@,
                    last_full_sync_key(),
                    text,
                    now.seconds,
                ),
                None => r == Err::<(), StoreError>(StoreError::InvalidInput) && final(self)@ == old(
                    self,
                )@,
            },
    {
        let text = match format_instant(now) {
            Ok(text) => text,
            Err(e) => {
                return Err(e);
            },
        };
        self.set_app_metadata("last_full_sync".to_owned(), text, now.seconds);
        Ok(())
    }

    /// The time of the last full synchronisation as it was noted, if it was.
    pub fn get_last_sync_time(&self) -> (r: Option<String>)
        ensures
            match r {
                Some(v) => value_of(self@, last_full_sync_key()) == Some(v@),
                None => value_of(self@, last_full_sync_key()) is None,
            },
    {
        self.get_app_metadata("last_full_sync")
    }

    /// Notes at `now` whether the application works offline.
    pub fn set_offline_mode(&mut self, is_offline: bool, now: i64)
        requires
            old(self).wf(),
        ensures
            final(self).wf(),
            stored(old(self)@, final(self)@, offline_mode_key(), flag_text(is_offline), now),
    {
        let value = if is_offline {
            "true".to_owned()
        } else {
            "false".to_owned()
        };
        self.set_app_metadata("is_offline_mode".to_owned(), value, now);
    }

    /// Whether the application works offline: whether that was noted last.
    /// Where nothing was noted, it does not.
    pub fn is_offline_mode(&self) -> (r: bool)
        ensures
            r == (value_of(self@, offline_mode_key()) == Some(flag_text(true))),
    {
        match self.get_app_metadata("is_offline_mode") {
            Some(value) => value == "true".to_owned(),
            None => false,
        }
    }
}

/// What was noted of the offline mode is what is read back.
pub proof fn law_offline_mode_is_read_back(
    before: Seq<AppMetadata>,
    after: Seq<AppMetadata>,
    is_offline: bool,
    now: i64,
)
    requires
        unique_keys(before),
        stored(before, after, offline_mode_key(), flag_text(is_offline), now),
    ensures
        (value_of(after, offline_mode_key()) == Some(flag_text(true))) == is_offline,
{
    lemma_stored_value(before, after, offline_mode_key(), flag_text(is_offline), now);
    reveal_strlit("true");
    reveal_strlit("false");
    assert("true"@.len() != "false"@.len());
}

} // verus!
