use offline_learning::error::StoreError;
use offline_learning::outbox::{SyncOutbox, SyncQueueItem};

fn queue(outbox: &mut SyncOutbox, record: &str, now: i64) -> i64 {
    outbox
        .add_to_sync_queue(
            "update".to_string(),
            "content_progress".to_string(),
            record.to_string(),
            format!("{{\"id\":\"{}\"}}", record),
            now,
        )
        .unwrap()
}

fn records(items: &[SyncQueueItem]) -> Vec<&str> {
    items.iter().map(|i| i.record_id.as_str()).collect()
}

#[test]
fn the_outbox_hands_out_the_oldest_first() {
    let mut outbox = SyncOutbox::new();
    let a = queue(&mut outbox, "A", 10);
    let _b = queue(&mut outbox, "B", 10);
    let _c = queue(&mut outbox, "C", 5);
    assert_eq!(records(&outbox.get_sync_queue(Some(2))), vec!["A", "B"]);
    // handing out removes nothing
    assert_eq!(outbox.get_sync_queue_count(), 3);
    assert!(outbox.remove_from_sync_queue(a));
    assert_eq!(records(&outbox.get_sync_queue(Some(2))), vec!["B", "C"]);
    assert_eq!(outbox.get_sync_queue_count(), 2);
}

#[test]
fn a_queued_change_starts_without_tries() {
    let mut outbox = SyncOutbox::new();
    let id = queue(&mut outbox, "A", 42);
    assert_eq!(id, 1);
    assert_eq!(
        outbox.items()[0],
        SyncQueueItem {
            id: 1,
            operation_type: "update".to_string(),
            table_name: "content_progress".to_string(),
            record_id: "A".to_string(),
            data: "{\"id\":\"A\"}".to_string(),
            created_at: 42,
            retry_count: 0,
            last_retry_at: None,
            error_message: None,
        }
    );
}

#[test]
fn the_same_change_queued_twice_is_queued_twice() {
    let mut outbox = SyncOutbox::new();
    let first = queue(&mut outbox, "A", 1);
    let second = queue(&mut outbox, "A", 1);
    assert_ne!(first, second);
    assert_eq!(outbox.get_sync_queue_count(), 2);
    assert_eq!(records(&outbox.get_sync_queue(None)), vec!["A", "A"]);
}

#[test]
fn a_failed_sending_is_counted_and_the_item_stays() {
    let mut outbox = SyncOutbox::new();
    let a = queue(&mut outbox, "A", 1);
    let b = queue(&mut outbox, "B", 2);
    assert!(outbox.update_sync_queue_retry(a, Some("timeout".to_string()), 50));
    assert!(outbox.update_sync_queue_retry(a, Some("refused".to_string()), 60));
    assert!(!outbox.update_sync_queue_retry(99, Some("x".to_string()), 60));
    let items = outbox.get_sync_queue(None);
    assert_eq!(records(&items), vec!["A", "B"]);
    assert_eq!(items[0].retry_count, 2);
    assert_eq!(items[0].last_retry_at, Some(60));
    assert_eq!(items[0].error_message, Some("refused".to_string()));
    assert_eq!(items[1].retry_count, 0);
    assert_eq!(items[1].id, b);
    // a failure without a message clears the message
    assert!(outbox.update_sync_queue_retry(a, None, 70));
    assert_eq!(outbox.items()[0].error_message, None);
    assert_eq!(outbox.items()[0].retry_count, 3);
}

#[test]
fn confirming_what_is_not_queued_changes_nothing() {
    let mut outbox = SyncOutbox::new();
    queue(&mut outbox, "A", 1);
    assert!(!outbox.remove_from_sync_queue(17));
    assert_eq!(outbox.get_sync_queue_count(), 1);
    assert!(outbox.remove_from_sync_queue(1));
    assert!(!outbox.remove_from_sync_queue(1));
    assert_eq!(outbox.get_sync_queue_count(), 0);
}

#[test]
fn numbers_are_never_given_out_again() {
    let mut outbox = SyncOutbox::new();
    let a = queue(&mut outbox, "A", 1);
    let b = queue(&mut outbox, "B", 1);
    outbox.remove_from_sync_queue(b);
    outbox.clear_sync_queue();
    assert_eq!(outbox.get_sync_queue_count(), 0);
    let c = queue(&mut outbox, "C", 1);
    assert_eq!((a, b, c), (1, 2, 3));
}

#[test]
fn several_items_are_confirmed_at_once() {
    let mut outbox = SyncOutbox::new();
    for r in ["A", "B", "C", "D", "E"] {
        queue(&mut outbox, r, 1);
    }
    // 9 is not queued, 2 is named twice: all four are counted
    assert_eq!(outbox.remove_multiple_from_sync_queue("[4, 2, 9, 2]"), Ok(4));
    assert_eq!(records(&outbox.get_sync_queue(None)), vec!["A", "C", "E"]);
    assert_eq!(outbox.remove_multiple_from_sync_queue("[]"), Ok(0));
    assert_eq!(outbox.get_sync_queue_count(), 3);
    assert_eq!(outbox.remove_all_from_sync_queue(&vec![5, 5]), 2);
    assert_eq!(records(&outbox.get_sync_queue(None)), vec!["A", "C"]);
    assert_eq!(outbox.remove_all_from_sync_queue(&vec![]), 0);
}

#[test]
fn a_list_of_numbers_must_be_a_json_list_of_whole_numbers() {
    let mut outbox = SyncOutbox::new();
    queue(&mut outbox, "A", 1);
    for bad in ["", "1", "[1,", "[\"1\"]", "[1.5]", "{\"ids\":[1]}", "[1, null]", "[99999999999999999999]"] {
        assert_eq!(outbox.remove_multiple_from_sync_queue(bad), Err(StoreError::InvalidInput));
    }
    assert_eq!(outbox.get_sync_queue_count(), 1);
    assert_eq!(outbox.remove_multiple_from_sync_queue(" [ 1 ,-3 ] "), Ok(2));
    assert_eq!(outbox.get_sync_queue_count(), 0);
}

#[test]
fn the_limit_of_a_batch() {
    let mut outbox = SyncOutbox::new();
    for i in 0..120 {
        queue(&mut outbox, &format!("r{}", i), i);
    }
    assert_eq!(outbox.get_sync_queue(None).len(), 100);
    assert_eq!(outbox.get_sync_queue(Some(0)).len(), 0);
    assert_eq!(outbox.get_sync_queue(Some(-1)).len(), 120);
    assert_eq!(outbox.get_sync_queue(Some(500)).len(), 120);
    let three = outbox.get_sync_queue(Some(3));
    assert_eq!(records(&three), vec!["r0", "r1", "r2"]);
}

#[test]
fn items_are_found_by_table() {
    let mut outbox = SyncOutbox::new();
    queue(&mut outbox, "A", 1);
    outbox
        .add_to_sync_queue(
            "insert".to_string(),
            "quiz_attempts".to_string(),
            "Q".to_string(),
            "{}".to_string(),
            2,
        )
        .unwrap();
    queue(&mut outbox, "B", 3);
    assert_eq!(records(&outbox.get_sync_queue_by_table("content_progress")), vec!["A", "B"]);
    assert_eq!(records(&outbox.get_sync_queue_by_table("quiz_attempts")), vec!["Q"]);
    assert!(outbox.get_sync_queue_by_table("modules").is_empty());
    assert_eq!(outbox.find_item(2), Some(1));
    assert_eq!(outbox.find_item(5), None);
}

#[test]
fn an_outbox_is_restored_only_in_the_order_of_its_numbers() {
    let mut first = SyncOutbox::new();
    queue(&mut first, "A", 1);
    queue(&mut first, "B", 2);
    queue(&mut first, "C", 3);
    first.remove_from_sync_queue(2);
    let kept: Vec<SyncQueueItem> = first.items().clone();

    let mut again = SyncOutbox::restore(kept.clone(), first.next_id()).unwrap();
    assert_eq!(again.next_id(), 4);
    assert_eq!(records(again.items()), vec!["A", "C"]);
    assert_eq!(queue(&mut again, "D", 4), 4);

    let mut turned = kept.clone();
    turned.reverse();
    assert!(matches!(SyncOutbox::restore(turned, 4), Err(StoreError::ConstraintViolation)));
    assert!(matches!(SyncOutbox::restore(kept.clone(), 3), Err(StoreError::ConstraintViolation)));
    let mut doubled = kept.clone();
    doubled.push(kept[1].clone());
    assert!(matches!(SyncOutbox::restore(doubled, 9), Err(StoreError::ConstraintViolation)));

    let mut full = SyncOutbox::restore(vec![], i64::MAX).unwrap();
    assert_eq!(
        full.add_to_sync_queue("u".into(), "t".into(), "r".into(), "{}".into(), 1),
        Err(StoreError::ConstraintViolation)
    );
    assert_eq!(full.get_sync_queue_count(), 0);
}

#[test]
fn the_times_of_the_queue_never_run_backwards() {
    let mut outbox = SyncOutbox::new();
    queue(&mut outbox, "A", 100);
    queue(&mut outbox, "B", 40);
    queue(&mut outbox, "C", 100);
    queue(&mut outbox, "D", 250);
    let times: Vec<i64> = outbox.items().iter().map(|i| i.created_at).collect();
    assert_eq!(times, vec![100, 100, 100, 250]);
    outbox.remove_from_sync_queue(4);
    queue(&mut outbox, "E", 0);
    assert_eq!(outbox.items()[3].created_at, 100);

    let mut kept: Vec<SyncQueueItem> = outbox.items().clone();
    kept[1].created_at = 99;
    assert!(matches!(SyncOutbox::restore(kept, 9), Err(StoreError::ConstraintViolation)));
}
