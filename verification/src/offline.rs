//! Downloaded course packages ("offline sessions"): whether one is still
//! valid, soft and hard deletion, the purge of what was deleted long ago, the
//! cache of media files, and the batches of progress recorded while offline.

use vstd::prelude::*;

use crate::clock::SECONDS_PER_DAY;
use crate::error::{Entity, StoreError};
use crate::listing::{is_ranking_of, rank_rows, Ranked};
use crate::table::{
    as_index, drop_row, first_rows, has_unique_keys, holds_key, index_of,
    lemma_filter_keeps_order, lemma_filter_unique, lemma_push_fresh,
    lemma_first_rows_push, lemma_index_of,
    lemma_index_of_absent, lemma_index_of_found, lemma_take_ends, lemma_take_next,
    lemma_update_same_key,
    store_row, unique_keys, upsert, without_key, Keyed,
};
use crate::text::{copy_text, text_of};

verus! {

/// One downloaded course package of a student.
#[derive(Debug, Clone, PartialEq, Eq)]
pub struct OfflineSession {
    pub id: String,
    pub student_id: String,
    pub course_id: String,
    pub downloaded_at: i64,
    pub expires_at: i64,
    pub package_version: String,
    pub presigned_url_expiry_days: i64,
    pub last_synced_at: Option<i64>,
    pub sync_count: u64,
    pub is_deleted: bool,
    pub created_at: i64,
    pub updated_at: i64,
}

impl Keyed for OfflineSession {
    type Key = Seq<char>;

    open spec fn key(&self) -> Seq<char> {
        self.id@
    }

    fn same_key(&self, other: &Self) -> (r: bool) {
        self.id == other.id
    }
}

impl Ranked for OfflineSession {
    /// The latest download comes first.
    open spec fn rank(&self) -> int {
        -(self.downloaded_at as int)
    }

    fn comes_before(&self, other: &Self) -> (r: bool) {
        self.downloaded_at > other.downloaded_at
    }
}

impl OfflineSession {
    /// The package has expired at `now`: `now` is past `expires_at`.
    pub open spec fn expired_at(&self, now: i64) -> bool {
        now > self.expires_at
    }

    /// The package can be used at `now`: it is neither deleted nor expired.
    pub open spec fn valid_at(&self, now: i64) -> bool {
        !self.is_deleted && !self.expired_at(now)
    }

    /// Whether the package has expired at `now`.
    pub fn is_expired(&self, now: i64) -> (r: bool)
        ensures
            r == self.expired_at(now),
    {
        now > self.expires_at
    }

    /// Whether the package can be used at `now`.
    pub fn is_valid(&self, now: i64) -> (r: bool)
        ensures
            r == self.valid_at(now),
    {
        !self.is_deleted && !(now > self.expires_at)
    }

    /// A session as a client sends it, with what the client left out filled
    /// in: package version `v1`, links that expire after 7 days, no
    /// synchronisation counted, not deleted.
    pub fn with_defaults(
        id: String,
        student_id: String,
        course_id: String,
        downloaded_at: i64,
        expires_at: i64,
        package_version: Option<String>,
        presigned_url_expiry_days: Option<i64>,
        last_synced_at: Option<i64>,
        sync_count: Option<u64>,
        is_deleted: Option<bool>,
        created_at: i64,
        updated_at: i64,
    ) -> (r: OfflineSession)
        ensures
            r.id == id,
            r.student_id == student_id,
            r.course_id == course_id,
            r.downloaded_at == downloaded_at,
            r.expires_at == expires_at,
            r.package_version@ == match package_version {
                Some(v) => v@,
                None => "v1"@,
            },
            r.presigned_url_expiry_days == match presigned_url_expiry_days {
                Some(d) => d,
                None => 7i64,
            },
            r.last_synced_at == last_synced_at,
            r.sync_count == match sync_count {
                Some(n) => n,
                None => 0u64,
            },
            r.is_deleted == (is_deleted == Some(true)),
            r.created_at == created_at,
            r.updated_at == updated_at,
    {
        OfflineSession {
            id,
            student_id,
            course_id,
            downloaded_at,
            expires_at,
            package_version: match package_version {
                Some(v) => v,
                None => "v1".to_owned(),
            },
            presigned_url_expiry_days: match presigned_url_expiry_days {
                Some(d) => d,
                None => 7,
            },
            last_synced_at,
            sync_count: match sync_count {
                Some(n) => n,
                None => 0,
            },
            is_deleted: match is_deleted {
                Some(d) => d,
                None => false,
            },
            created_at,
            updated_at,
        }
    }

    /// A copy of the row.
    pub fn duplicate(&self) -> (r: OfflineSession)
        ensures
            r == *self,
    {
        OfflineSession {
            id: self.id.clone(),
            student_id: self.student_id.clone(),
            course_id: self.course_id.clone(),
            downloaded_at: self.downloaded_at,
            expires_at: self.expires_at,
            package_version: self.package_version.clone(),
            presigned_url_expiry_days: self.presigned_url_expiry_days,
            last_synced_at: self.last_synced_at,
            sync_count: self.sync_count,
            is_deleted: self.is_deleted,
            created_at: self.created_at,
            updated_at: self.updated_at,
        }
    }
}

/// A session after a synchronisation at `now`: one more is counted (the
/// count stops at the largest number it can hold) and its time is noted.
pub open spec fn synced(session: OfflineSession, now: i64) -> OfflineSession {
    OfflineSession {
        last_synced_at: Some(now),
        sync_count: if session.sync_count < u64::MAX {
            (session.sync_count + 1) as u64
        } else {
            session.sync_count
        },
        updated_at: now,
        ..session
    }
}

/// A session after it was soft-deleted at `now`.
pub open spec fn soft_deleted(session: OfflineSession, now: i64) -> OfflineSession {
    OfflineSession { is_deleted: true, updated_at: now, ..session }
}

/// The session is one that a listing for `student_id` shows: it is that
/// student's, of the course `course_id` if one is named, not deleted, and,
/// where only active sessions are asked for, not expired at `now`.
pub open spec fn is_listed(
    session: OfflineSession,
    student_id: Seq<char>,
    course_id: Option<Seq<char>>,
    active_only: bool,
    now: i64,
) -> bool {
    &&& session.student_id@ == student_id
    &&& (course_id matches Some(c) ==> session.course_id@ == c)
    &&& !session.is_deleted
    &&& (active_only ==> !session.expired_at(now))
}

/// `is_listed` as a selection.
pub open spec fn listed(
    student_id: Seq<char>,
    course_id: Option<Seq<char>>,
    active_only: bool,
    now: i64,
) -> spec_fn(OfflineSession) -> bool {
    |session: OfflineSession| is_listed(session, student_id, course_id, active_only, now)
}

/// The session is valid at `now` and, if a student is named, that student's.
pub open spec fn is_active(session: OfflineSession, student_id: Option<Seq<char>>, now: i64)
    -> bool {
    &&& (student_id matches Some(s) ==> session.student_id@ == s)
    &&& session.valid_at(now)
}

/// `is_active` as a selection.
pub open spec fn active(student_id: Option<Seq<char>>, now: i64) -> spec_fn(OfflineSession)
    -> bool {
    |session: OfflineSession| is_active(session, student_id, now)
}

/// The purge at `now` with a retention of `days_old` days removes the
/// session: it was soft-deleted, and it expired more than `days_old` days
/// ago. A negative retention removes nothing.
pub open spec fn is_purged(session: OfflineSession, days_old: i64, now: i64) -> bool {
    &&& days_old >= 0
    &&& session.is_deleted
    &&& session.expires_at < now - days_old * SECONDS_PER_DAY
}

/// The sessions that the purge leaves, as a selection.
pub open spec fn survives(days_old: i64, now: i64) -> spec_fn(OfflineSession) -> bool {
    |session: OfflineSession| !is_purged(session, days_old, now)
}

/// What is known of one media file of a course: where it is kept and how far
/// its download has come, in percent.
#[derive(Debug, Clone, PartialEq, Eq)]
pub struct MediaCacheEntry {
    pub media_id: String,
    pub course_id: String,
    pub filename: Option<String>,
    pub media_type: Option<String>,
    pub local_file_path: Option<String>,
    pub size_bytes: Option<i64>,
    pub downloaded_at: Option<i64>,
    pub presigned_url: Option<String>,
    pub presigned_url_expires_at: Option<i64>,
    pub is_downloaded: bool,
    pub download_progress: i64,
}

impl Keyed for MediaCacheEntry {
    type Key = Seq<char>;

    open spec fn key(&self) -> Seq<char> {
        self.media_id@
    }

    fn same_key(&self, other: &Self) -> (r: bool) {
        self.media_id == other.media_id
    }
}

impl Ranked for MediaCacheEntry {
    /// The latest download comes first; entries without a time of download
    /// come last.
    open spec fn rank(&self) -> int {
        match self.downloaded_at {
            Some(at) => -(at as int),
            None => 0x8000_0000_0000_0001,
        }
    }

    fn comes_before(&self, other: &Self) -> (r: bool) {
        match (self.downloaded_at, other.downloaded_at) {
            (Some(a), Some(b)) => a > b,
            (Some(_), None) => true,
            (None, _) => false,
        }
    }
}

impl MediaCacheEntry {
    /// The progress is a percentage.
    pub open spec fn progress_ok(&self) -> bool {
        0 <= self.download_progress <= 100
    }

    /// A copy of the row.
    pub fn duplicate(&self) -> (r: MediaCacheEntry)
        ensures
            r == *self,
    {
        MediaCacheEntry {
            media_id: self.media_id.clone(),
            course_id: self.course_id.clone(),
            filename: copy_text(&self.filename),
            media_type: copy_text(&self.media_type),
            local_file_path: copy_text(&self.local_file_path),
            size_bytes: self.size_bytes,
            downloaded_at: self.downloaded_at,
            presigned_url: copy_text(&self.presigned_url),
            presigned_url_expires_at: self.presigned_url_expires_at,
            is_downloaded: self.is_downloaded,
            download_progress: self.download_progress,
        }
    }
}

/// A batch of progress that was recorded while offline and waits to be
/// handed to the remote side. The store numbers the batches.
#[derive(Debug, Clone, PartialEq, Eq)]
pub struct ProgressBatch {
    pub id: i64,
    pub session_id: String,
    pub course_id: String,
    pub batch_data: String,
    pub created_at: i64,
    pub synced: bool,
    pub synced_at: Option<i64>,
}

impl Keyed for ProgressBatch {
    type Key = i64;

    open spec fn key(&self) -> i64 {
        self.id
    }

    fn same_key(&self, other: &Self) -> (r: bool) {
        self.id == other.id
    }
}

impl ProgressBatch {
    /// A copy of the row.
    pub fn duplicate(&self) -> (r: ProgressBatch)
        ensures
            r == *self,
    {
        ProgressBatch {
            id: self.id,
            session_id: self.session_id.clone(),
            course_id: self.course_id.clone(),
            batch_data: self.batch_data.clone(),
            created_at: self.created_at,
            synced: self.synced,
            synced_at: self.synced_at,
        }
    }
}

/// The batch `a` was recorded before the batch `b`: it has the lower number
/// and no later time.
pub open spec fn recorded_before(a: ProgressBatch, b: ProgressBatch) -> bool {
    a.id < b.id && a.created_at <= b.created_at
}

/// The media entries of the course `course_id`, as a selection.
pub open spec fn of_course(course_id: Seq<char>) -> spec_fn(MediaCacheEntry) -> bool {
    |entry: MediaCacheEntry| entry.course_id@ == course_id
}

/// The media entries of every course but `course_id`, as a selection.
pub open spec fn of_other_course(course_id: Seq<char>) -> spec_fn(MediaCacheEntry) -> bool {
    |entry: MediaCacheEntry| entry.course_id@ != course_id
}

/// The media entries whose download is finished, as a selection.
pub open spec fn downloaded() -> spec_fn(MediaCacheEntry) -> bool {
    |entry: MediaCacheEntry| entry.is_downloaded
}

/// The batches that were not handed over yet, as a selection.
pub open spec fn unsynced() -> spec_fn(ProgressBatch) -> bool {
    |batch: ProgressBatch| !batch.synced
}

/// The purge of batches at `now` with a retention of `days_old` days removes
/// the batch: it was handed over more than `days_old` days ago. A negative
/// retention removes nothing.
pub open spec fn is_stale(batch: ProgressBatch, days_old: i64, now: i64) -> bool {
    &&& days_old >= 0
    &&& batch.synced
    &&& batch.synced_at matches Some(at) && at < now - days_old * SECONDS_PER_DAY
}

/// The batches that the purge leaves, as a selection.
pub open spec fn is_fresh(days_old: i64, now: i64) -> spec_fn(ProgressBatch) -> bool {
    |batch: ProgressBatch| !is_stale(batch, days_old, now)
}

/// The sessions that are not deleted, as a selection.
pub open spec fn kept() -> spec_fn(OfflineSession) -> bool {
    |session: OfflineSession| !session.is_deleted
}

/// The sessions that are not deleted but have expired at `now`, as a
/// selection.
pub open spec fn lapsed(now: i64) -> spec_fn(OfflineSession) -> bool {
    |session: OfflineSession| !session.is_deleted && session.expired_at(now)
}

/// What the offline store holds.
pub struct OfflineState {
    pub sessions: Seq<OfflineSession>,
    pub media: Seq<MediaCacheEntry>,
    pub batches: Seq<ProgressBatch>,
    pub next_batch_id: i64,
}

impl OfflineState {
    /// One session per identifier; one media entry per media file, with its
    /// progress a percentage; and the batches in the order in which they were
    /// recorded, which is the order of their numbers and of their times,
    /// under numbers that were given out.
    pub open spec fn wf(self) -> bool {
        &&& unique_keys(self.sessions)
        &&& unique_keys(self.media)
        &&& forall|i: int| 0 <= i < self.media.len() ==> (#[trigger] self.media[i]).progress_ok()
        &&& forall|i: int, j: int|
            0 <= i < j < self.batches.len() ==> #[trigger] recorded_before(
                self.batches[i],
                self.batches[j],
            )
        &&& forall|i: int|
            0 <= i < self.batches.len() ==> (#[trigger] self.batches[i]).id < self.next_batch_id
    }

    /// The time that a batch recorded at `now` is stamped with: `now`, or
    /// the time of the newest batch if that is later, so that the times never
    /// run backwards along the batches.
    pub open spec fn stamp(self, now: i64) -> i64 {
        if self.batches.len() > 0 && self.batches.last().created_at > now {
            self.batches.last().created_at
        } else {
            now
        }
    }

    /// Storing `entry` would take a download back: lower its progress, or
    /// make a finished download unfinished.
    pub open spec fn takes_download_back(self, entry: MediaCacheEntry) -> bool {
        match index_of(self.media, entry.media_id@) {
            Some(i) => entry.download_progress < self.media[i].download_progress || (
            self.media[i].is_downloaded && !entry.is_downloaded),
            None => false,
        }
    }

    /// The outcome of storing a media entry: see
    /// [`OfflineStore::save_media_cache`].
    pub open spec fn media_saved(self, entry: MediaCacheEntry) -> Result<OfflineState, StoreError> {
        if !entry.progress_ok() || self.takes_download_back(entry) {
            Err(StoreError::InvalidInput)
        } else {
            Ok(OfflineState { media: upsert(self.media, entry), ..self })
        }
    }

    /// The outcome of noting a download's progress: see
    /// [`OfflineStore::update_media_download_progress`].
    pub open spec fn progress_update(self, media_id: Seq<char>, progress: i64, is_downloaded: bool)
        -> Result<OfflineState, StoreError> {
        if progress < 0 || progress > 100 {
            Err(StoreError::InvalidInput)
        } else {
            match index_of(self.media, media_id) {
                None => Ok(self),
                Some(i) => if progress < self.media[i].download_progress || (
                self.media[i].is_downloaded && !is_downloaded) {
                    Err(StoreError::InvalidInput)
                } else {
                    Ok(
                        OfflineState {
                            media: self.media.update(
                                i,
                                MediaCacheEntry {
                                    download_progress: progress,
                                    is_downloaded,
                                    ..self.media[i]
                                },
                            ),
                            ..self
                        },
                    )
                },
            }
        }
    }
}

/// Batches that stand in the order of their numbers have each its own
/// number.
pub proof fn lemma_batches_unique(s: OfflineState)
    requires
        s.wf(),
    ensures
        unique_keys(s.batches),
{
    assert forall|i: int, j: int| 0 <= i < j < s.batches.len() implies #[trigger] s.batches[i].key()
        != #[trigger] s.batches[j].key() by {
        assert(recorded_before(s.batches[i], s.batches[j]));
    }
}

/// The offline store.
pub struct OfflineStore {
    sessions: Vec<OfflineSession>,
    media: Vec<MediaCacheEntry>,
    batches: Vec<ProgressBatch>,
    next_batch_id: i64,
}

impl View for OfflineStore {
    type V = OfflineState;

    closed spec fn view(&self) -> OfflineState {
        OfflineState {
            sessions: self.sessions@,
            media: self.media@,
            batches: self.batches@,
            next_batch_id: self.next_batch_id,
        }
    }
}

impl OfflineStore {
    /// The invariant of the store: see [`OfflineState::wf`].
    pub open spec fn wf(&self) -> bool {
        self@.wf()
    }

    /// A store that holds nothing. The first batch will be number 1.
    pub fn new() -> (r: OfflineStore)
        ensures
            r.wf(),
            r@.sessions.len() == 0,
            r@.media.len() == 0,
            r@.batches.len() == 0,
            r@.next_batch_id == 1,
    {
        OfflineStore {
            sessions: Vec::new(),
            media: Vec::new(),
            batches: Vec::new(),
            next_batch_id: 1,
        }
    }

    /// The sessions, in the order in which they were first stored.
    pub fn sessions(&self) -> (r: &Vec<OfflineSession>)
        ensures
            r@ == self@.sessions,
    {
        &self.sessions
    }

    /// The media entries, in the order in which they were first stored.
    pub fn media(&self) -> (r: &Vec<MediaCacheEntry>)
        ensures
            r@ == self@.media,
    {
        &self.media
    }

    /// The batches, oldest first.
    pub fn batches(&self) -> (r: &Vec<ProgressBatch>)
        ensures
            r@ == self@.batches,
    {
        &self.batches
    }

    /// Where the session `id` is.
    pub fn find_session(&self, id: &str) -> (r: Option<usize>)
        ensures
            as_index(r) == index_of(self@.sessions, id@),
            r matches Some(i) ==> i < self@.sessions.len() && self@.sessions[i as int].id@ == id@,
            r is Some <==> holds_key(self@.sessions, id@),
    {
        let probe = id.to_owned();
        let mut i: usize = 0;
        while i < self.sessions.len()
            invariant
                i <= self.sessions.len(),
                probe@ == id@,
                forall|j: int| 0 <= j < i ==> (#[trigger] self.sessions@[j]).id@ != id@,
            decreases self.sessions.len() - i,
        {
            if self.sessions[i].id == probe {
                proof {
                    lemma_index_of_found(self.sessions@, id@, i as int);
                }
                return Some(i);
            }
            i += 1;
        }
        proof {
            lemma_index_of_absent(self.sessions@, id@);
        }
        None
    }

    /// Stores a session: it replaces the session with its identifier, or is
    /// added when the identifier is new. Storing a session anew is the one
    /// way back from a soft deletion.
    pub fn save_offline_session(&mut self, session: OfflineSession)
        requires
            old(self).wf(),
        ensures
            final(self).wf(),
            final(self)@ == (OfflineState {
                sessions: upsert(old(self)@.sessions, session),
                ..old(self)@
            }),
    {
        let at = self.find_session(session.id.as_str());
        store_row(&mut self.sessions, at, session);
    }

    /// The session `session_id`; `NotFound` when the store has none.
    pub fn get_offline_session_by_id(&self, session_id: &str) -> (r: Result<
        OfflineSession,
        StoreError,
    >)
        ensures
            match index_of(self@.sessions, session_id@) {
                Some(i) => r == Ok::<OfflineSession, StoreError>(self@.sessions[i]),
                None => r == Err::<OfflineSession, StoreError>(
                    StoreError::NotFound(Entity::Session),
                ),
            },
    {
        match self.find_session(session_id) {
            Some(i) => Ok(self.sessions[i].duplicate()),
            None => Err(StoreError::NotFound(Entity::Session)),
        }
    }

    /// Notes a synchronisation of the session `session_id` at `now`, and
    /// says whether the store has that session.
    pub fn update_offline_session_sync_info(&mut self, session_id: &str, now: i64) -> (r: bool)
        requires
            old(self).wf(),
        ensures
            final(self).wf(),
            r == holds_key(old(self)@.sessions, session_id@),
            final(self)@ == match index_of(old(self)@.sessions, session_id@) {
                Some(i) => OfflineState {
                    sessions: old(self)@.sessions.update(i, synced(old(self)@.sessions[i], now)),
                    ..old(self)@
                },
                None => old(self)@,
            },
    {
        let i = match self.find_session(session_id) {
            Some(i) => i,
            None => {
                return false;
            },
        };
        let mut row = self.sessions[i].duplicate();
        row.last_synced_at = Some(now);
        if row.sync_count < u64::MAX {
            row.sync_count = row.sync_count + 1;
        }
        row.updated_at = now;
        proof {
            lemma_update_same_key(self.sessions@, i as int, row);
        }
        self.sessions.set(i, row);
        true
    }

    /// Soft-deletes the session `session_id` at `now`, and says whether the
    /// store has that session. The session stays in the store, marked as
    /// deleted, and is from then on valid at no time. Deleting a session that
    /// the store does not have changes nothing and is no error.
    pub fn delete_offline_session(&mut self, session_id: &str, now: i64) -> (r: bool)
        requires
            old(self).wf(),
        ensures
            final(self).wf(),
            r == holds_key(old(self)@.sessions, session_id@),
            final(self)@ == match index_of(old(self)@.sessions, session_id@) {
                Some(i) => OfflineState {
                    sessions: old(self)@.sessions.update(
                        i,
                        soft_deleted(old(self)@.sessions[i], now),
                    ),
                    ..old(self)@
                },
                None => old(self)@,
            },
    {
        let i = match self.find_session(session_id) {
            Some(i) => i,
            None => {
                return false;
            },
        };
        let mut row = self.sessions[i].duplicate();
        row.is_deleted = true;
        row.updated_at = now;
        proof {
            lemma_update_same_key(self.sessions@, i as int, row);
        }
        self.sessions.set(i, row);
        true
    }

    /// Removes the session `session_id` for good, and says whether the store
    /// had that session. Removing a session that the store does not have
    /// changes nothing and is no error.
    pub fn hard_delete_offline_session(&mut self, session_id: &str) -> (r: bool)
        requires
            old(self).wf(),
        ensures
            final(self).wf(),
            r == holds_key(old(self)@.sessions, session_id@),
            final(self)@ == (OfflineState {
                sessions: without_key(old(self)@.sessions, session_id@),
                ..old(self)@
            }),
            !holds_key(final(self)@.sessions, session_id@),
    {
        let at = self.find_session(session_id);
        proof {
            lemma_index_of(self.sessions@, session_id@);
        }
        drop_row(&mut self.sessions, at);
        at.is_some()
    }
}

impl OfflineStore {
    /// The sessions of the student `student_id` that are not deleted, the
    /// latest download first: those of the course `course_id` if one is
    /// named, and, where `active_only` is set, only those that have not
    /// expired at `now`. Sessions downloaded at the same time come in the
    /// order in which they were first stored.
    pub fn get_student_offline_sessions(
        &self,
        student_id: &str,
        course_id: Option<&str>,
        active_only: bool,
        now: i64,
    ) -> (r: Vec<OfflineSession>)
        ensures
            is_ranking_of(
                r@,
                self@.sessions.filter(listed(student_id@, text_of(course_id), active_only, now)),
            ),
    {
        let student = student_id.to_owned();
        let course: Option<String> = match course_id {
            Some(c) => Some(c.to_owned()),
            None => None,
        };
        let ghost pred = listed(student_id@, text_of(course_id), active_only, now);
        let mut picked: Vec<OfflineSession> = Vec::new();
        let mut i: usize = 0;
        proof {
            lemma_take_ends(self.sessions@, pred);
        }
        while i < self.sessions.len()
            invariant
                i <= self.sessions.len(),
                student@ == student_id@,
                match course {
                    Some(c) => text_of(course_id) == Some(c@),
                    None => text_of(course_id) is None,
                },
                pred == listed(student_id@, text_of(course_id), active_only, now),
                picked@ == self.sessions@.take(i as int).filter(pred),
            decreases self.sessions.len() - i,
        {
            let row = &self.sessions[i];
            let of_course = match &course {
                Some(c) => row.course_id == *c,
                None => true,
            };
            let shown = row.student_id == student && of_course && !row.is_deleted && (!active_only
                || !row.is_expired(now));
            proof {
                lemma_take_next(self.sessions@, i as int);
                self.sessions@.take(i as int).lemma_filter_push(self.sessions@[i as int], pred);
                assert(shown == pred(self.sessions@[i as int]));
            }
            if shown {
                picked.push(row.duplicate());
            }
            i += 1;
        }
        proof {
            lemma_take_ends(self.sessions@, pred);
        }
        rank_rows(picked)
    }

    /// The number of sessions that are valid at `now`: of the student
    /// `student_id` if one is named, else of all students.
    pub fn count_active_offline_sessions(&self, student_id: Option<&str>, now: i64) -> (r: usize)
        ensures
            r == self@.sessions.filter(active(text_of(student_id), now)).len(),
    {
        let student: Option<String> = match student_id {
            Some(s) => Some(s.to_owned()),
            None => None,
        };
        let ghost pred = active(text_of(student_id), now);
        let mut n: usize = 0;
        let mut i: usize = 0;
        proof {
            lemma_take_ends(self.sessions@, pred);
        }
        while i < self.sessions.len()
            invariant
                i <= self.sessions.len(),
                match student {
                    Some(s) => text_of(student_id) == Some(s@),
                    None => text_of(student_id) is None,
                },
                pred == active(text_of(student_id), now),
                n <= i,
                n == self.sessions@.take(i as int).filter(pred).len(),
            decreases self.sessions.len() - i,
        {
            let row = &self.sessions[i];
            let of_student = match &student {
                Some(s) => row.student_id == *s,
                None => true,
            };
            proof {
                lemma_take_next(self.sessions@, i as int);
                self.sessions@.take(i as int).lemma_filter_push(self.sessions@[i as int], pred);
            }
            if of_student && row.is_valid(now) {
                n += 1;
            }
            i += 1;
        }
        proof {
            lemma_take_ends(self.sessions@, pred);
        }
        n
    }

    /// Purges the sessions that were soft-deleted and expired more than
    /// `days_old` days before `now`: they are removed for good. Returns how
    /// many were removed. A session that has expired but was not deleted is
    /// never removed, however long ago it expired; a negative `days_old`
    /// removes nothing.
    pub fn delete_expired_offline_sessions(&mut self, days_old: i64, now: i64) -> (r: usize)
        requires
            old(self).wf(),
        ensures
            final(self).wf(),
            final(self)@ == (OfflineState {
                sessions: old(self)@.sessions.filter(survives(days_old, now)),
                ..old(self)@
            }),
            r == old(self)@.sessions.len() - final(self)@.sessions.len(),
    {
        let ghost pred = survives(days_old, now);
        let mut left: Vec<OfflineSession> = Vec::new();
        let mut removed: usize = 0;
        let mut i: usize = 0;
        proof {
            lemma_take_ends(self.sessions@, pred);
        }
        while i < self.sessions.len()
            invariant
                i <= self.sessions.len(),
                pred == survives(days_old, now),
                left@ == self.sessions@.take(i as int).filter(pred),
                removed + left@.len() == i,
            decreases self.sessions.len() - i,
        {
            let row = &self.sessions[i];
            let purged = days_old >= 0 && row.is_deleted && (row.expires_at as i128) < (now as i128)
                - (days_old as i128) * (SECONDS_PER_DAY as i128);
            proof {
                lemma_take_next(self.sessions@, i as int);
                self.sessions@.take(i as int).lemma_filter_push(self.sessions@[i as int], pred);
                assert(purged == is_purged(self.sessions@[i as int], days_old, now));
            }
            if purged {
                removed += 1;
            } else {
                left.push(row.duplicate());
            }
            i += 1;
        }
        proof {
            lemma_take_ends(self.sessions@, pred);
            lemma_filter_unique(self.sessions@, pred);
        }
        self.sessions = left;
        removed
    }
}

impl OfflineStore {
    /// Where the entry of the media file `media_id` is.
    pub fn find_media(&self, media_id: &str) -> (r: Option<usize>)
        ensures
            as_index(r) == index_of(self@.media, media_id@),
            r matches Some(i) ==> i < self@.media.len() && self@.media[i as int].media_id@
                == media_id@,
            r is Some <==> holds_key(self@.media, media_id@),
    {
        let probe = media_id.to_owned();
        let mut i: usize = 0;
        while i < self.media.len()
            invariant
                i <= self.media.len(),
                probe@ == media_id@,
                forall|j: int| 0 <= j < i ==> (#[trigger] self.media@[j]).media_id@ != media_id@,
            decreases self.media.len() - i,
        {
            if self.media[i].media_id == probe {
                proof {
                    lemma_index_of_found(self.media@, media_id@, i as int);
                }
                return Some(i);
            }
            i += 1;
        }
        proof {
            lemma_index_of_absent(self.media@, media_id@);
        }
        None
    }

    /// Stores a media entry: it replaces the entry of its media file, or is
    /// added. An entry whose progress is no percentage, or that would lower
    /// the progress noted for its media file or make a finished download
    /// unfinished, is refused with `InvalidInput`.
    pub fn save_media_cache(&mut self, entry: MediaCacheEntry) -> (r: Result<(), StoreError>)
        requires
            old(self).wf(),
        ensures
            final(self).wf(),
            match old(self)@.media_saved(entry) {
                Ok(after) => r is Ok && final(self)@ == after,
                Err(e) => r == Err::<(), StoreError>(e) && final(self)@ == old(self)@,
            },
    {
        if entry.download_progress < 0 || entry.download_progress > 100 {
            return Err(StoreError::InvalidInput);
        }
        let at = self.find_media(entry.media_id.as_str());
        let takes_back = match at {
            Some(i) => entry.download_progress < self.media[i].download_progress || (
            self.media[i].is_downloaded && !entry.is_downloaded),
            None => false,
        };
        if takes_back {
            return Err(StoreError::InvalidInput);
        }
        proof {
            lemma_index_of(self.media@, entry.media_id@);
        }
        store_row(&mut self.media, at, entry);
        Ok(())
    }

    /// The entry of the media file `media_id`; `NotFound` when the store has
    /// none.
    pub fn get_media_cache_by_media_id(&self, media_id: &str) -> (r: Result<
        MediaCacheEntry,
        StoreError,
    >)
        ensures
            match index_of(self@.media, media_id@) {
                Some(i) => r == Ok::<MediaCacheEntry, StoreError>(self@.media[i]),
                None => r == Err::<MediaCacheEntry, StoreError>(StoreError::NotFound(Entity::Media)),
            },
    {
        match self.find_media(media_id) {
            Some(i) => Ok(self.media[i].duplicate()),
            None => Err(StoreError::NotFound(Entity::Media)),
        }
    }

    /// The media entries of the course `course_id`, the latest download
    /// first and those never downloaded last. Entries downloaded at the same
    /// time come in the order in which they were first stored.
    pub fn get_media_cache_by_course(&self, course_id: &str) -> (r: Vec<MediaCacheEntry>)
        ensures
            is_ranking_of(r@, self@.media.filter(of_course(course_id@))),
    {
        let course = course_id.to_owned();
        let ghost pred = of_course(course_id@);
        let mut picked: Vec<MediaCacheEntry> = Vec::new();
        let mut i: usize = 0;
        proof {
            lemma_take_ends(self.media@, pred);
        }
        while i < self.media.len()
            invariant
                i <= self.media.len(),
                course@ == course_id@,
                pred == of_course(course_id@),
                picked@ == self.media@.take(i as int).filter(pred),
            decreases self.media.len() - i,
        {
            let row = &self.media[i];
            proof {
                lemma_take_next(self.media@, i as int);
                self.media@.take(i as int).lemma_filter_push(self.media@[i as int], pred);
            }
            if row.course_id == course {
                picked.push(row.duplicate());
            }
            i += 1;
        }
        proof {
            lemma_take_ends(self.media@, pred);
        }
        rank_rows(picked)
    }

    /// Notes how far the download of the media file `media_id` has come, and
    /// says whether the store has an entry for it.
    ///
    /// The progress is a percentage that only grows, and a finished download
    /// stays finished: a progress outside 0 to 100, a progress below the one
    /// noted, and taking back `is_downloaded` are refused with
    /// `InvalidInput`.
    pub fn update_media_download_progress(
        &mut self,
        media_id: &str,
        progress: i64,
        is_downloaded: bool,
    ) -> (r: Result<bool, StoreError>)
        requires
            old(self).wf(),
        ensures
            final(self).wf(),
            match old(self)@.progress_update(media_id@, progress, is_downloaded) {
                Ok(after) => r == Ok::<bool, StoreError>(holds_key(old(self)@.media, media_id@))
                    && final(self)@ == after,
                Err(e) => r == Err::<bool, StoreError>(e) && final(self)@ == old(self)@,
            },
    {
        if progress < 0 || progress > 100 {
            return Err(StoreError::InvalidInput);
        }
        let i = match self.find_media(media_id) {
            Some(i) => i,
            None => {
                return Ok(false);
            },
        };
        if progress < self.media[i].download_progress || (self.media[i].is_downloaded
            && !is_downloaded) {
            return Err(StoreError::InvalidInput);
        }
        let mut row = self.media[i].duplicate();
        row.download_progress = progress;
        row.is_downloaded = is_downloaded;
        proof {
            lemma_update_same_key(self.media@, i as int, row);
        }
        self.media.set(i, row);
        Ok(true)
    }

    /// Removes the media entries of the course `course_id`, and returns how
    /// many there were.
    pub fn delete_media_cache_by_course(&mut self, course_id: &str) -> (r: usize)
        requires
            old(self).wf(),
        ensures
            final(self).wf(),
            final(self)@ == (OfflineState {
                media: old(self)@.media.filter(of_other_course(course_id@)),
                ..old(self)@
            }),
            r == old(self)@.media.len() - final(self)@.media.len(),
    {
        let course = course_id.to_owned();
        let ghost pred = of_other_course(course_id@);
        let mut left: Vec<MediaCacheEntry> = Vec::new();
        let mut removed: usize = 0;
        let mut i: usize = 0;
        proof {
            lemma_take_ends(self.media@, pred);
        }
        while i < self.media.len()
            invariant
                i <= self.media.len(),
                course@ == course_id@,
                pred == of_other_course(course_id@),
                left@ == self.media@.take(i as int).filter(pred),
                removed + left@.len() == i,
            decreases self.media.len() - i,
        {
            let row = &self.media[i];
            proof {
                lemma_take_next(self.media@, i as int);
                self.media@.take(i as int).lemma_filter_push(self.media@[i as int], pred);
            }
            if row.course_id == course {
                removed += 1;
            } else {
                left.push(row.duplicate());
            }
            i += 1;
        }
        proof {
            lemma_take_ends(self.media@, pred);
            lemma_filter_unique(self.media@, pred);
            assert forall|j: int| 0 <= j < left@.len() implies (#[trigger] left@[j]).progress_ok() by {
                assert(self.media@.contains(left@[j]));
            }
        }
        self.media = left;
        removed
    }
}

/// A batch after it was handed over at `now`.
pub open spec fn handed_over(batch: ProgressBatch, now: i64) -> ProgressBatch {
    ProgressBatch { synced: true, synced_at: Some(now), ..batch }
}

/// The numbers of sessions, media entries and batches in the states that
/// matter to a user.
#[derive(Debug, Clone, Copy, PartialEq, Eq, Structural)]
pub struct OfflineStatistics {
    /// Sessions that are not deleted.
    pub total_sessions: usize,
    /// Sessions that are not deleted and have not expired.
    pub active_sessions: usize,
    /// Sessions that are not deleted and have expired.
    pub expired_sessions: usize,
    /// Media entries.
    pub total_media_cached: usize,
    /// Media entries whose download is finished.
    pub media_downloaded: usize,
    /// Batches that were not handed over yet.
    pub unsynced_batches: usize,
}

impl OfflineStore {
    /// Where the batch number `id` is.
    pub fn find_batch(&self, id: i64) -> (r: Option<usize>)
        ensures
            as_index(r) == index_of(self@.batches, id),
            r matches Some(i) ==> i < self@.batches.len() && self@.batches[i as int].id == id,
            r is Some <==> holds_key(self@.batches, id),
    {
        let mut i: usize = 0;
        while i < self.batches.len()
            invariant
                i <= self.batches.len(),
                forall|j: int| 0 <= j < i ==> (#[trigger] self.batches@[j]).id != id,
            decreases self.batches.len() - i,
        {
            if self.batches[i].id == id {
                proof {
                    lemma_index_of_found(self.batches@, id, i as int);
                }
                return Some(i);
            }
            i += 1;
        }
        proof {
            lemma_index_of_absent(self.batches@, id);
        }
        None
    }

    /// Records a batch of progress at `now`, to be handed over later, and
    /// returns the number it was given: the next one after the last that was
    /// given out. The batch is stamped with `now`, or with the time of the
    /// batch before it where the clock has gone backwards. When the numbers
    /// have run out, the batch is refused with `ConstraintViolation`.
    pub fn save_offline_progress_batch(
        &mut self,
        session_id: String,
        course_id: String,
        batch_data: String,
        now: i64,
    ) -> (r: Result<i64, StoreError>)
        requires
            old(self).wf(),
        ensures
            final(self).wf(),
            old(self)@.next_batch_id < i64::MAX ==> r == Ok::<i64, StoreError>(
                old(self)@.next_batch_id,
            ) && final(self)@ == (OfflineState {
                batches: old(self)@.batches.push(
                    ProgressBatch {
                        id: old(self)@.next_batch_id,
                        session_id,
                        course_id,
                        batch_data,
                        created_at: old(self)@.stamp(now),
                        synced: false,
                        synced_at: None,
                    },
                ),
                next_batch_id: (old(self)@.next_batch_id + 1) as i64,
                ..old(self)@
            }),
            old(self)@.next_batch_id == i64::MAX ==> r == Err::<i64, StoreError>(
                StoreError::ConstraintViolation,
            ) && final(self)@ == old(self)@,
    {
        if self.next_batch_id == i64::MAX {
            return Err(StoreError::ConstraintViolation);
        }
        let id = self.next_batch_id;
        let n = self.batches.len();
        let created_at = if n > 0 && self.batches[n - 1].created_at > now {
            self.batches[n - 1].created_at
        } else {
            now
        };
        let row = ProgressBatch {
            id,
            session_id,
            course_id,
            batch_data,
            created_at,
            synced: false,
            synced_at: None,
        };
        self.batches.push(row);
        self.next_batch_id = id + 1;
        proof {
            let before = old(self).batches@;
            let after = self.batches@;
            assert forall|i: int, j: int| 0 <= i < j < after.len() implies #[trigger] recorded_before(
                after[i],
                after[j],
            ) by {
                if j == before.len() {
                    assert(before[i].id < id);
                    if i < before.len() - 1 {
                        assert(recorded_before(before[i], before[before.len() - 1]));
                    }
                } else {
                    assert(recorded_before(before[i], before[j]));
                }
            }
            assert forall|i: int| 0 <= i < after.len() implies (#[trigger] after[i]).id
                < self.next_batch_id by {
                if i < before.len() {
                    assert(before[i].id < id);
                }
            }
        }
        Ok(id)
    }

    /// The batches that were not handed over yet, oldest first: at most
    /// `limit` of them, 50 where no limit is given, all where the limit is
    /// negative.
    pub fn get_unsynced_progress_batches(&self, limit: Option<i64>) -> (r: Vec<ProgressBatch>)
        ensures
            r@ == first_rows(
                self@.batches.filter(unsynced()),
                match limit {
                    Some(l) => l,
                    None => 50i64,
                },
            ),
    {
        let most: i64 = match limit {
            Some(l) => l,
            None => 50,
        };
        let ghost pred = unsynced();
        let mut out: Vec<ProgressBatch> = Vec::new();
        let mut i: usize = 0;
        proof {
            lemma_take_ends(self.batches@, pred);
            lemma_first_rows_push(Seq::<ProgressBatch>::empty(), self.batches@[0], most);
        }
        while i < self.batches.len()
            invariant
                i <= self.batches.len(),
                pred == unsynced(),
                out@ == first_rows(self.batches@.take(i as int).filter(pred), most),
                out@.len() <= i,
            decreases self.batches.len() - i,
        {
            let row = &self.batches[i];
            proof {
                lemma_take_next(self.batches@, i as int);
                self.batches@.take(i as int).lemma_filter_push(self.batches@[i as int], pred);
                lemma_first_rows_push(
                    self.batches@.take(i as int).filter(pred),
                    self.batches@[i as int],
                    most,
                );
            }
            if !row.synced && (most < 0 || (out.len() as u64) < (most as u64)) {
                out.push(row.duplicate());
            }
            i += 1;
        }
        proof {
            lemma_take_ends(self.batches@, pred);
        }
        out
    }

    /// Notes at `now` that the batch number `batch_id` was handed over, and
    /// says whether the store has that batch.
    pub fn mark_batch_as_synced(&mut self, batch_id: i64, now: i64) -> (r: bool)
        requires
            old(self).wf(),
        ensures
            final(self).wf(),
            r == holds_key(old(self)@.batches, batch_id),
            final(self)@ == match index_of(old(self)@.batches, batch_id) {
                Some(i) => OfflineState {
                    batches: old(self)@.batches.update(i, handed_over(old(self)@.batches[i], now)),
                    ..old(self)@
                },
                None => old(self)@,
            },
    {
        let i = match self.find_batch(batch_id) {
            Some(i) => i,
            None => {
                return false;
            },
        };
        let mut row = self.batches[i].duplicate();
        row.synced = true;
        row.synced_at = Some(now);
        self.batches.set(i, row);
        proof {
            let before = old(self).batches@;
            let after = self.batches@;
            assert forall|a: int, b: int| 0 <= a < b < after.len() implies #[trigger] recorded_before(
                after[a],
                after[b],
            ) by {
                assert(recorded_before(before[a], before[b]));
            }
            assert forall|a: int| 0 <= a < after.len() implies (#[trigger] after[a]).id
                < self.next_batch_id by {
                assert(before[a].id < self.next_batch_id);
            }
        }
        true
    }

    /// Removes the batches that were handed over more than `days_old` days
    /// before `now`, and returns how many were removed. A batch that was not
    /// handed over is never removed; a negative `days_old` removes nothing.
    pub fn delete_synced_progress_batches(&mut self, days_old: i64, now: i64) -> (r: usize)
        requires
            old(self).wf(),
        ensures
            final(self).wf(),
            final(self)@ == (OfflineState {
                batches: old(self)@.batches.filter(is_fresh(days_old, now)),
                ..old(self)@
            }),
            r == old(self)@.batches.len() - final(self)@.batches.len(),
    {
        let ghost pred = is_fresh(days_old, now);
        let mut left: Vec<ProgressBatch> = Vec::new();
        let mut removed: usize = 0;
        let mut i: usize = 0;
        proof {
            lemma_take_ends(self.batches@, pred);
        }
        while i < self.batches.len()
            invariant
                i <= self.batches.len(),
                pred == is_fresh(days_old, now),
                left@ == self.batches@.take(i as int).filter(pred),
                removed + left@.len() == i,
            decreases self.batches.len() - i,
        {
            let row = &self.batches[i];
            let stale = days_old >= 0 && row.synced && match row.synced_at {
                Some(at) => (at as i128) < (now as i128) - (days_old as i128) * (
                SECONDS_PER_DAY as i128),
                None => false,
            };
            proof {
                lemma_take_next(self.batches@, i as int);
                self.batches@.take(i as int).lemma_filter_push(self.batches@[i as int], pred);
                assert(stale == is_stale(self.batches@[i as int], days_old, now));
            }
            if stale {
                removed += 1;
            } else {
                left.push(row.duplicate());
            }
            i += 1;
        }
        proof {
            lemma_take_ends(self.batches@, pred);
            let order = |a: ProgressBatch, b: ProgressBatch| recorded_before(a, b);
            assert forall|a: int, b: int| 0 <= a < b < self.batches@.len() implies #[trigger] order(
                self.batches@[a],
                self.batches@[b],
            ) by {
                assert(recorded_before(self.batches@[a], self.batches@[b]));
            }
            lemma_filter_keeps_order(self.batches@, pred, order);
            assert forall|a: int, b: int| 0 <= a < b < left@.len() implies #[trigger] recorded_before(
                left@[a],
                left@[b],
            ) by {
                assert(order(left@[a], left@[b]));
            }
            assert forall|j: int| 0 <= j < left@.len() implies (#[trigger] left@[j]).id
                < self.next_batch_id by {
                assert(self.batches@.contains(left@[j]));
            }
        }
        self.batches = left;
        removed
    }

    /// The numbers of sessions, media entries and batches at `now`.
    pub fn get_offline_session_statistics(&self, now: i64) -> (r: OfflineStatistics)
        ensures
            r.total_sessions == self@.sessions.filter(kept()).len(),
            r.active_sessions == self@.sessions.filter(active(None, now)).len(),
            r.expired_sessions == self@.sessions.filter(lapsed(now)).len(),
            r.total_media_cached == self@.media.len(),
            r.media_downloaded == self@.media.filter(downloaded()).len(),
            r.unsynced_batches == self@.batches.filter(unsynced()).len(),
            r.total_sessions == r.active_sessions + r.expired_sessions,
    {
        let mut total: usize = 0;
        let mut valid: usize = 0;
        let mut gone: usize = 0;
        let mut i: usize = 0;
        proof {
            lemma_take_ends(self.sessions@, kept());
            lemma_take_ends(self.sessions@, active(None, now));
            lemma_take_ends(self.sessions@, lapsed(now));
        }
        while i < self.sessions.len()
            invariant
                i <= self.sessions.len(),
                total <= i,
                total == valid + gone,
                total == self.sessions@.take(i as int).filter(kept()).len(),
                valid == self.sessions@.take(i as int).filter(active(None, now)).len(),
                gone == self.sessions@.take(i as int).filter(lapsed(now)).len(),
            decreases self.sessions.len() - i,
        {
            let row = &self.sessions[i];
            proof {
                let x = self.sessions@[i as int];
                lemma_take_next(self.sessions@, i as int);
                self.sessions@.take(i as int).lemma_filter_push(x, kept());
                self.sessions@.take(i as int).lemma_filter_push(x, active(None, now));
                self.sessions@.take(i as int).lemma_filter_push(x, lapsed(now));
            }
            if !row.is_deleted {
                total += 1;
                if row.is_expired(now) {
                    gone += 1;
                } else {
                    valid += 1;
                }
            }
            i += 1;
        }
        let mut fetched: usize = 0;
        let mut j: usize = 0;
        proof {
            lemma_take_ends(self.media@, downloaded());
        }
        while j < self.media.len()
            invariant
                j <= self.media.len(),
                fetched <= j,
                fetched == self.media@.take(j as int).filter(downloaded()).len(),
            decreases self.media.len() - j,
        {
            proof {
                lemma_take_next(self.media@, j as int);
                self.media@.take(j as int).lemma_filter_push(self.media@[j as int], downloaded());
            }
            if self.media[j].is_downloaded {
                fetched += 1;
            }
            j += 1;
        }
        let mut waiting: usize = 0;
        let mut k: usize = 0;
        proof {
            lemma_take_ends(self.batches@, unsynced());
        }
        while k < self.batches.len()
            invariant
                k <= self.batches.len(),
                waiting <= k,
                waiting == self.batches@.take(k as int).filter(unsynced()).len(),
            decreases self.batches.len() - k,
        {
            proof {
                lemma_take_next(self.batches@, k as int);
                self.batches@.take(k as int).lemma_filter_push(self.batches@[k as int], unsynced());
            }
            if !self.batches[k].synced {
                waiting += 1;
            }
            k += 1;
        }
        OfflineStatistics {
            total_sessions: total,
            active_sessions: valid,
            expired_sessions: gone,
            total_media_cached: self.media.len(),
            media_downloaded: fetched,
            unsynced_batches: waiting,
        }
    }
}

impl OfflineStore {
    /// A store that holds the given rows, as they were kept elsewhere, and
    /// gives `next_batch_id` to the next batch. Rows that break the invariant
    /// of the store (two sessions or media entries under one key, a progress
    /// that is no percentage, batches that are not in the order of their
    /// numbers and times or under a number that was not given out yet) are
    /// refused with `ConstraintViolation`.
    pub fn restore(
        sessions: Vec<OfflineSession>,
        media: Vec<MediaCacheEntry>,
        batches: Vec<ProgressBatch>,
        next_batch_id: i64,
    ) -> (r: Result<OfflineStore, StoreError>)
        ensures
            ({
                let state = OfflineState {
                    sessions: sessions@,
                    media: media@,
                    batches: batches@,
                    next_batch_id,
                };
                match r {
                    Ok(store) => state.wf() && store@ == state,
                    Err(e) => !state.wf() && e == StoreError::ConstraintViolation,
                }
            }),
    {
        if !has_unique_keys(&sessions) || !has_unique_keys(&media) {
            return Err(StoreError::ConstraintViolation);
        }
        let mut i: usize = 0;
        while i < media.len()
            invariant
                i <= media.len(),
                forall|j: int| 0 <= j < i ==> (#[trigger] media@[j]).progress_ok(),
            decreases media.len() - i,
        {
            if media[i].download_progress < 0 || media[i].download_progress > 100 {
                assert(!media@[i as int].progress_ok());
                return Err(StoreError::ConstraintViolation);
            }
            i += 1;
        }
        let mut k: usize = 0;
        while k < batches.len()
            invariant
                k <= batches.len(),
                forall|a: int, b: int|
                    0 <= a < b < k ==> #[trigger] recorded_before(batches@[a], batches@[b]),
                forall|j: int| 0 <= j < k ==> (#[trigger] batches@[j]).id < next_batch_id,
            decreases batches.len() - k,
        {
            if batches[k].id >= next_batch_id {
                assert(!(batches@[k as int].id < next_batch_id));
                return Err(StoreError::ConstraintViolation);
            }
            if k > 0 && (batches[k - 1].id >= batches[k].id || batches[k - 1].created_at
                > batches[k].created_at) {
                assert(!recorded_before(batches@[k - 1], batches@[k as int]));
                return Err(StoreError::ConstraintViolation);
            }
            assert forall|a: int, b: int| 0 <= a < b < k + 1 implies #[trigger] recorded_before(
                batches@[a],
                batches@[b],
            ) by {
                if b == k && a < k - 1 {
                    assert(recorded_before(batches@[a], batches@[k - 1]));
                }
            }
            k += 1;
        }
        Ok(OfflineStore { sessions, media, batches, next_batch_id })
    }

    /// The number that the next batch will get.
    pub fn next_batch_id(&self) -> (r: i64)
        ensures
            r == self@.next_batch_id,
    {
        self.next_batch_id
    }
}

/// A session whose expiry lies before `now` and that is not deleted is
/// expired at `now`, and is not valid.
pub proof fn law_expired_session_is_invalid(session: OfflineSession, now: i64)
    requires
        session.expires_at < now,
        !session.is_deleted,
    ensures
        session.expired_at(now),
        !session.valid_at(now),
{
}

/// Soft deletion takes effect at once and for good: whenever a session is
/// soft-deleted, and however valid it was, it is valid at no time.
pub proof fn law_soft_delete_invalidates(session: OfflineSession, deleted_at: i64, now: i64)
    ensures
        !soft_deleted(session, deleted_at).valid_at(now),
        soft_deleted(session, deleted_at).expired_at(now) == session.expired_at(now),
{
}

/// A download only moves forward: whether an entry is stored or a progress
/// noted, the entry of a media file that has one shows afterwards no less
/// progress than before, and a finished download is still finished.
pub proof fn law_download_only_moves_forward(
    s: OfflineState,
    entry: MediaCacheEntry,
    noted_for: Seq<char>,
    progress: i64,
    is_downloaded: bool,
    media_id: Seq<char>,
    i: int,
)
    requires
        s.wf(),
        index_of(s.media, media_id) == Some(i),
    ensures
        s.media_saved(entry) matches Ok(after) ==> {
            &&& index_of(after.media, media_id) == Some(i)
            &&& s.media[i].download_progress <= after.media[i].download_progress
            &&& s.media[i].is_downloaded ==> after.media[i].is_downloaded
        },
        s.progress_update(noted_for, progress, is_downloaded) matches Ok(after) ==> {
            &&& index_of(after.media, media_id) == Some(i)
            &&& s.media[i].download_progress <= after.media[i].download_progress
            &&& s.media[i].is_downloaded ==> after.media[i].is_downloaded
        },
{
    lemma_index_of(s.media, media_id);
    lemma_index_of(s.media, entry.media_id@);
    lemma_index_of(s.media, noted_for);
    match index_of(s.media, entry.media_id@) {
        Some(at) => {
            lemma_update_same_key(s.media, at, entry);
        },
        None => {
            lemma_push_fresh(s.media, entry);
        },
    }
    match index_of(s.media, noted_for) {
        Some(at) => {
            lemma_update_same_key(
                s.media,
                at,
                MediaCacheEntry { download_progress: progress, is_downloaded, ..s.media[at] },
            );
        },
        None => {},
    }
}

/// The purge never removes a session that is merely expired: every session
/// that is not deleted is still in the store after the purge, whatever the
/// retention.
pub proof fn law_purge_spares_undeleted(s: OfflineState, days_old: i64, now: i64, i: int)
    requires
        0 <= i < s.sessions.len(),
        !s.sessions[i].is_deleted,
    ensures
        s.sessions.filter(survives(days_old, now)).contains(s.sessions[i]),
{
    let pred = survives(days_old, now);
    assert(pred(s.sessions[i]));
    s.sessions.lemma_filter_contains_rev(pred, s.sessions[i]);
}

} // verus!
