use offline_learning::error::{Entity, StoreError};
use offline_learning::offline::{
    MediaCacheEntry, OfflineSession, OfflineStatistics, OfflineStore, ProgressBatch,
};

const DAY: i64 = 86_400;

fn session(id: &str, student: &str, course: &str, downloaded_at: i64, expires_at: i64) -> OfflineSession {
    OfflineSession::with_defaults(
        id.to_string(),
        student.to_string(),
        course.to_string(),
        downloaded_at,
        expires_at,
        None,
        None,
        None,
        None,
        None,
        downloaded_at,
        downloaded_at,
    )
}

fn media(media_id: &str, course: &str, downloaded_at: Option<i64>, progress: i64) -> MediaCacheEntry {
    MediaCacheEntry {
        media_id: media_id.to_string(),
        course_id: course.to_string(),
        filename: Some(format!("{}.mp4", media_id)),
        media_type: Some("video".to_string()),
        local_file_path: None,
        size_bytes: Some(1024),
        downloaded_at,
        presigned_url: None,
        presigned_url_expires_at: None,
        is_downloaded: progress == 100,
        download_progress: progress,
    }
}

fn ids(sessions: &[OfflineSession]) -> Vec<&str> {
    sessions.iter().map(|s| s.id.as_str()).collect()
}

#[test]
fn a_session_gets_the_defaults_a_client_left_out() {
    let s = session("o1", "s1", "c1", 10, 20);
    assert_eq!(s.package_version, "v1");
    assert_eq!(s.presigned_url_expiry_days, 7);
    assert_eq!(s.sync_count, 0);
    assert!(!s.is_deleted);
    assert_eq!(s.last_synced_at, None);
    let t = OfflineSession::with_defaults(
        "o2".to_string(),
        "s1".to_string(),
        "c1".to_string(),
        1,
        2,
        Some("v3".to_string()),
        Some(14),
        Some(5),
        Some(9),
        Some(true),
        3,
        4,
    );
    assert_eq!(t.package_version, "v3");
    assert_eq!(t.presigned_url_expiry_days, 14);
    assert_eq!(t.sync_count, 9);
    assert!(t.is_deleted);
    assert_eq!(t.last_synced_at, Some(5));
    assert_eq!((t.created_at, t.updated_at), (3, 4));
}

#[test]
fn an_expired_session_is_not_valid() {
    let s = session("o1", "s1", "c1", 10, 1000);
    assert!(s.is_expired(1001));
    assert!(!s.is_valid(1001));
    // at the moment of expiry it is still valid
    assert!(!s.is_expired(1000));
    assert!(s.is_valid(1000));
    assert!(s.is_valid(999));
}

#[test]
fn soft_deletion_invalidates_at_once() {
    let mut store = OfflineStore::new();
    store.save_offline_session(session("o1", "s1", "c1", 10, 1000));
    assert!(store.get_offline_session_by_id("o1").unwrap().is_valid(500));
    assert!(store.delete_offline_session("o1", 500));
    let s = store.get_offline_session_by_id("o1").unwrap();
    assert!(s.is_deleted);
    assert!(!s.is_valid(500));
    assert!(!s.is_valid(0));
    assert!(!s.is_expired(500));
    assert_eq!(s.updated_at, 500);
    // deleting again, or deleting what is not there, is no error
    assert!(store.delete_offline_session("o1", 600));
    assert!(!store.delete_offline_session("nope", 600));
    // storing the session anew brings it back
    store.save_offline_session(session("o1", "s1", "c1", 10, 1000));
    assert!(store.get_offline_session_by_id("o1").unwrap().is_valid(500));
    assert_eq!(store.sessions().len(), 1);
}

#[test]
fn reading_a_session_that_is_not_there_fails() {
    let mut store = OfflineStore::new();
    assert_eq!(
        store.get_offline_session_by_id("o1"),
        Err(StoreError::NotFound(Entity::Session))
    );
    store.save_offline_session(session("o1", "s1", "c1", 10, 1000));
    assert!(store.hard_delete_offline_session("o1"));
    assert!(!store.hard_delete_offline_session("o1"));
    assert_eq!(
        store.get_offline_session_by_id("o1"),
        Err(StoreError::NotFound(Entity::Session))
    );
    assert!(store.sessions().is_empty());
}

#[test]
fn sessions_are_listed_latest_download_first() {
    let mut store = OfflineStore::new();
    store.save_offline_session(session("old", "s1", "c1", 10, 5000));
    store.save_offline_session(session("new", "s1", "c1", 30, 5000));
    store.save_offline_session(session("mid", "s1", "c2", 20, 5000));
    store.save_offline_session(session("expired", "s1", "c1", 40, 100));
    store.save_offline_session(session("deleted", "s1", "c1", 50, 5000));
    store.save_offline_session(session("foreign", "s2", "c1", 60, 5000));
    store.delete_offline_session("deleted", 70);

    assert_eq!(
        ids(&store.get_student_offline_sessions("s1", None, false, 1000)),
        vec!["expired", "new", "mid", "old"]
    );
    assert_eq!(
        ids(&store.get_student_offline_sessions("s1", None, true, 1000)),
        vec!["new", "mid", "old"]
    );
    assert_eq!(
        ids(&store.get_student_offline_sessions("s1", Some("c1"), false, 1000)),
        vec!["expired", "new", "old"]
    );
    assert_eq!(
        ids(&store.get_student_offline_sessions("s1", Some("c1"), true, 1000)),
        vec!["new", "old"]
    );
    assert!(store.get_student_offline_sessions("s3", None, false, 1000).is_empty());

    assert_eq!(store.count_active_offline_sessions(Some("s1"), 1000), 3);
    assert_eq!(store.count_active_offline_sessions(None, 1000), 4);
    assert_eq!(store.count_active_offline_sessions(None, 6000), 0);
    assert_eq!(store.count_active_offline_sessions(Some("s3"), 1000), 0);
}

#[test]
fn a_synchronisation_is_counted() {
    let mut store = OfflineStore::new();
    store.save_offline_session(session("o1", "s1", "c1", 10, 1000));
    assert!(store.update_offline_session_sync_info("o1", 50));
    assert!(store.update_offline_session_sync_info("o1", 60));
    assert!(!store.update_offline_session_sync_info("o2", 60));
    let s = store.get_offline_session_by_id("o1").unwrap();
    assert_eq!(s.sync_count, 2);
    assert_eq!(s.last_synced_at, Some(60));
    assert_eq!(s.updated_at, 60);

    let mut full = session("o9", "s1", "c1", 10, 1000);
    full.sync_count = u64::MAX;
    store.save_offline_session(full);
    assert!(store.update_offline_session_sync_info("o9", 70));
    assert_eq!(store.get_offline_session_by_id("o9").unwrap().sync_count, u64::MAX);
}

#[test]
fn the_purge_removes_only_what_was_deleted_long_ago() {
    let now = 100 * DAY;
    let mut store = OfflineStore::new();
    store.save_offline_session(session("expired-long-ago", "s1", "c1", 0, 10 * DAY));
    store.save_offline_session(session("deleted-long-ago", "s1", "c1", 0, 10 * DAY));
    store.save_offline_session(session("deleted-recently", "s1", "c1", 0, 95 * DAY));
    store.save_offline_session(session("deleted-on-the-edge", "s1", "c1", 0, 70 * DAY));
    store.save_offline_session(session("active", "s1", "c1", 0, 200 * DAY));
    store.delete_offline_session("deleted-long-ago", now);
    store.delete_offline_session("deleted-recently", now);
    store.delete_offline_session("deleted-on-the-edge", now);

    assert_eq!(store.delete_expired_offline_sessions(-1, now), 0);
    assert_eq!(store.sessions().len(), 5);
    assert_eq!(store.delete_expired_offline_sessions(30, now), 1);
    let left: Vec<&str> = store.sessions().iter().map(|s| s.id.as_str()).collect();
    assert_eq!(
        left,
        vec!["expired-long-ago", "deleted-recently", "deleted-on-the-edge", "active"]
    );
    assert_eq!(store.delete_expired_offline_sessions(0, now), 2);
    let left: Vec<&str> = store.sessions().iter().map(|s| s.id.as_str()).collect();
    assert_eq!(left, vec!["expired-long-ago", "active"]);
    assert_eq!(store.delete_expired_offline_sessions(i64::MAX, i64::MIN), 0);
}

#[test]
fn download_progress_only_grows() {
    let mut store = OfflineStore::new();
    store.save_media_cache(media("v1", "c1", Some(5), 10)).unwrap();
    assert_eq!(store.update_media_download_progress("v1", 40, false), Ok(true));
    assert_eq!(store.update_media_download_progress("v1", 40, false), Ok(true));
    assert_eq!(
        store.update_media_download_progress("v1", 39, false),
        Err(StoreError::InvalidInput)
    );
    assert_eq!(
        store.update_media_download_progress("v1", 101, true),
        Err(StoreError::InvalidInput)
    );
    assert_eq!(
        store.update_media_download_progress("v1", -1, false),
        Err(StoreError::InvalidInput)
    );
    assert_eq!(store.get_media_cache_by_media_id("v1").unwrap().download_progress, 40);
    assert_eq!(store.update_media_download_progress("v1", 100, true), Ok(true));
    assert_eq!(
        store.update_media_download_progress("v1", 100, false),
        Err(StoreError::InvalidInput)
    );
    let entry = store.get_media_cache_by_media_id("v1").unwrap();
    assert!(entry.is_downloaded);
    assert_eq!(entry.download_progress, 100);
    assert_eq!(store.update_media_download_progress("v9", 50, false), Ok(false));
    assert_eq!(
        store.update_media_download_progress("v9", 500, false),
        Err(StoreError::InvalidInput)
    );
}

#[test]
fn media_entries_are_kept_by_media_file() {
    let mut store = OfflineStore::new();
    assert_eq!(
        store.get_media_cache_by_media_id("v1"),
        Err(StoreError::NotFound(Entity::Media))
    );
    assert_eq!(
        store.save_media_cache(media("v1", "c1", None, 150)),
        Err(StoreError::InvalidInput)
    );
    store.save_media_cache(media("v1", "c1", Some(10), 0)).unwrap();
    store.save_media_cache(media("v2", "c1", None, 0)).unwrap();
    store.save_media_cache(media("v3", "c1", Some(30), 100)).unwrap();
    store.save_media_cache(media("w1", "c2", Some(20), 0)).unwrap();
    store.save_media_cache(media("v1", "c1", Some(15), 50)).unwrap();
    assert_eq!(store.media().len(), 4);
    // an entry stored anew does not take a download back
    assert_eq!(
        store.save_media_cache(media("v1", "c1", Some(16), 49)),
        Err(StoreError::InvalidInput)
    );
    assert_eq!(
        store.save_media_cache(media("v3", "c1", Some(31), 100)).map(|_| store.media()[2].downloaded_at),
        Ok(Some(31))
    );
    let mut unfinished = media("v3", "c1", Some(32), 100);
    unfinished.is_downloaded = false;
    assert_eq!(store.save_media_cache(unfinished), Err(StoreError::InvalidInput));
    store.save_media_cache(media("v3", "c1", Some(30), 100)).unwrap();
    let listed = store.get_media_cache_by_course("c1");
    let names: Vec<&str> = listed.iter().map(|m| m.media_id.as_str()).collect();
    assert_eq!(names, vec!["v3", "v1", "v2"]);
    assert_eq!(store.delete_media_cache_by_course("c1"), 3);
    assert_eq!(store.delete_media_cache_by_course("c1"), 0);
    assert_eq!(store.media().len(), 1);
    assert_eq!(store.media()[0].media_id, "w1");
}

#[test]
fn batches_wait_until_they_are_handed_over() {
    let mut store = OfflineStore::new();
    for i in 0..3 {
        let id = store
            .save_offline_progress_batch(
                "o1".to_string(),
                "c1".to_string(),
                format!("{{\"n\":{}}}", i),
                100 + i,
            )
            .unwrap();
        assert_eq!(id, i + 1);
    }
    let waiting: Vec<i64> = store.get_unsynced_progress_batches(None).iter().map(|b| b.id).collect();
    assert_eq!(waiting, vec![1, 2, 3]);
    let waiting: Vec<i64> =
        store.get_unsynced_progress_batches(Some(2)).iter().map(|b| b.id).collect();
    assert_eq!(waiting, vec![1, 2]);
    assert!(store.get_unsynced_progress_batches(Some(0)).is_empty());
    assert_eq!(store.get_unsynced_progress_batches(Some(-1)).len(), 3);

    assert!(store.mark_batch_as_synced(2, 10 * DAY));
    assert!(!store.mark_batch_as_synced(7, 10 * DAY));
    let waiting: Vec<i64> =
        store.get_unsynced_progress_batches(Some(2)).iter().map(|b| b.id).collect();
    assert_eq!(waiting, vec![1, 3]);
    assert_eq!(store.batches()[1].synced_at, Some(10 * DAY));
    assert_eq!(store.batches()[1].batch_data, "{\"n\":1}");

    // a batch that was handed over is removed once it is old enough
    assert_eq!(store.delete_synced_progress_batches(5, 15 * DAY), 0);
    assert_eq!(store.delete_synced_progress_batches(-5, 99 * DAY), 0);
    assert_eq!(store.delete_synced_progress_batches(5, 15 * DAY + 1), 1);
    let left: Vec<i64> = store.batches().iter().map(|b| b.id).collect();
    assert_eq!(left, vec![1, 3]);
    // numbers are not given out twice
    assert_eq!(
        store.save_offline_progress_batch("o1".into(), "c1".into(), "{}".into(), 1),
        Ok(4)
    );
}

#[test]
fn the_fifty_first_batch_is_not_handed_out_by_default() {
    let mut store = OfflineStore::new();
    for i in 0..60 {
        store
            .save_offline_progress_batch("o1".into(), "c1".into(), "{}".into(), i)
            .unwrap();
    }
    assert_eq!(store.get_unsynced_progress_batches(None).len(), 50);
    assert_eq!(store.get_unsynced_progress_batches(Some(1000)).len(), 60);
}

#[test]
fn the_statistics_count_what_is_there() {
    let mut store = OfflineStore::new();
    store.save_offline_session(session("a", "s1", "c1", 1, 5000));
    store.save_offline_session(session("b", "s1", "c1", 1, 10));
    store.save_offline_session(session("c", "s2", "c1", 1, 5000));
    store.save_offline_session(session("d", "s2", "c1", 1, 5000));
    store.delete_offline_session("d", 2);
    store.save_media_cache(media("v1", "c1", None, 100)).unwrap();
    store.save_media_cache(media("v2", "c1", None, 30)).unwrap();
    store.save_offline_progress_batch("a".into(), "c1".into(), "{}".into(), 1).unwrap();
    store.save_offline_progress_batch("a".into(), "c1".into(), "{}".into(), 2).unwrap();
    store.mark_batch_as_synced(1, 3);
    assert_eq!(
        store.get_offline_session_statistics(1000),
        OfflineStatistics {
            total_sessions: 3,
            active_sessions: 2,
            expired_sessions: 1,
            total_media_cached: 2,
            media_downloaded: 1,
            unsynced_batches: 1,
        }
    );
    assert_eq!(
        OfflineStore::new().get_offline_session_statistics(0),
        OfflineStatistics {
            total_sessions: 0,
            active_sessions: 0,
            expired_sessions: 0,
            total_media_cached: 0,
            media_downloaded: 0,
            unsynced_batches: 0,
        }
    );
}

#[test]
fn sessions_downloaded_together_keep_their_order() {
    let mut store = OfflineStore::new();
    for id in ["a", "b", "c", "d"] {
        store.save_offline_session(session(id, "s1", "c1", 10, 5000));
    }
    store.save_offline_session(session("late", "s1", "c1", 20, 5000));
    assert_eq!(
        ids(&store.get_student_offline_sessions("s1", None, false, 1000)),
        vec!["late", "a", "b", "c", "d"]
    );
}

#[test]
fn an_offline_store_is_restored_only_from_sound_rows() {
    let batch = |id: i64| ProgressBatch {
        id,
        session_id: "o1".to_string(),
        course_id: "c1".to_string(),
        batch_data: "{}".to_string(),
        created_at: 1,
        synced: false,
        synced_at: None,
    };
    let mut store = OfflineStore::restore(
        vec![session("o1", "s1", "c1", 1, 2)],
        vec![media("v1", "c1", None, 40)],
        vec![batch(3), batch(8)],
        9,
    )
    .unwrap();
    assert_eq!(store.next_batch_id(), 9);
    assert_eq!(
        store.save_offline_progress_batch("o1".into(), "c1".into(), "{}".into(), 5),
        Ok(9)
    );
    assert_eq!(store.next_batch_id(), 10);

    assert!(matches!(
        OfflineStore::restore(vec![], vec![], vec![batch(3)], 3),
        Err(StoreError::ConstraintViolation)
    ));
    assert!(matches!(
        OfflineStore::restore(vec![], vec![media("v1", "c1", None, 101)], vec![], 1),
        Err(StoreError::ConstraintViolation)
    ));
    assert!(matches!(
        OfflineStore::restore(
            vec![session("o1", "s1", "c1", 1, 2), session("o1", "s1", "c1", 3, 4)],
            vec![],
            vec![],
            1
        ),
        Err(StoreError::ConstraintViolation)
    ));
    let mut full = OfflineStore::restore(vec![], vec![], vec![], i64::MAX).unwrap();
    assert_eq!(
        full.save_offline_progress_batch("o1".into(), "c1".into(), "{}".into(), 5),
        Err(StoreError::ConstraintViolation)
    );
    assert!(full.batches().is_empty());
}

#[test]
fn the_times_of_the_batches_never_run_backwards() {
    let mut store = OfflineStore::new();
    for now in [50, 20, 70] {
        store.save_offline_progress_batch("o1".into(), "c1".into(), "{}".into(), now).unwrap();
    }
    let times: Vec<i64> = store.batches().iter().map(|b| b.created_at).collect();
    assert_eq!(times, vec![50, 50, 70]);
    let mut kept: Vec<ProgressBatch> = store.batches().clone();
    kept.swap(0, 2);
    assert!(matches!(
        OfflineStore::restore(vec![], vec![], kept, 9),
        Err(StoreError::ConstraintViolation)
    ));
}
