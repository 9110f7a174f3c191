use offline_learning::auth::{
    check_token_expired, display_name, expired_at, token_expired_at, AuthToken, TokenStore,
};
use offline_learning::clock::{
    current_instant, current_timestamp, format_instant, parse_instant, parse_timestamp, Instant,
    SECONDS_PER_DAY,
};
use offline_learning::error::StoreError;
use offline_learning::metadata::{AppMetadata, MetadataStore};
use offline_learning::progress::ProgressStore;
use offline_learning::records::{
    content_progress_id, course_image_id, order_of, AttemptStatus, ModuleStatus, Student,
};

#[test]
fn rfc3339_text_is_read_as_an_instant() {
    assert_eq!(parse_timestamp("1970-01-01T00:00:00Z"), Ok(0));
    assert_eq!(parse_timestamp("1996-12-19T16:39:57-08:00"), Ok(851_042_397));
    assert_eq!(
        parse_instant("2015-05-15T00:00:00.250+00:00"),
        Ok(Instant { seconds: 1_431_648_000, nanos: 250_000_000 })
    );
    assert_eq!(parse_timestamp("1969-12-31T23:59:59Z"), Ok(-1));
    assert_eq!(parse_timestamp("yesterday"), Err(StoreError::InvalidInput));
    assert_eq!(parse_timestamp(""), Err(StoreError::InvalidInput));
    assert_eq!(parse_instant("2015-05-15"), Err(StoreError::InvalidInput));
    assert_eq!(SECONDS_PER_DAY, 24 * 60 * 60);
}

#[test]
fn an_instant_is_written_as_rfc3339_text() {
    assert_eq!(
        format_instant(Instant { seconds: 0, nanos: 0 }),
        Ok("1970-01-01T00:00:00+00:00".to_string())
    );
    assert_eq!(
        format_instant(Instant { seconds: 1_431_648_000, nanos: 500_000_000 }),
        Ok("2015-05-15T00:00:00.500+00:00".to_string())
    );
    assert_eq!(
        format_instant(Instant { seconds: i64::MAX, nanos: 0 }),
        Err(StoreError::InvalidInput)
    );
    let written = format_instant(Instant { seconds: 851_042_397, nanos: 0 }).unwrap();
    assert_eq!(parse_timestamp(&written), Ok(851_042_397));
}

#[test]
fn a_token_expires_once_its_time_has_passed() {
    let at = |seconds, nanos| Instant { seconds, nanos };
    assert!(expired_at(at(10, 0), at(11, 0)));
    assert!(expired_at(at(10, 5), at(10, 6)));
    assert!(!expired_at(at(10, 5), at(10, 5)));
    assert!(!expired_at(at(10, 5), at(9, 999_999_999)));
    assert_eq!(token_expired_at("1970-01-01T00:00:10Z", at(10, 1)), Ok(true));
    assert_eq!(token_expired_at("1970-01-01T00:00:10Z", at(10, 0)), Ok(false));
    assert_eq!(token_expired_at("1970-01-01T01:00:10+01:00", at(11, 0)), Ok(true));
    assert_eq!(token_expired_at("soon", at(11, 0)), Err(StoreError::InvalidInput));
}

#[test]
fn the_clock_decides_whether_a_token_has_expired() {
    assert_eq!(check_token_expired("2000-01-01T00:00:00Z"), Ok(true));
    assert_eq!(check_token_expired("9000-01-01T00:00:00Z"), Ok(false));
    assert_eq!(check_token_expired("not a date"), Err(StoreError::InvalidInput));
    let now = current_instant();
    // the clock stands after the year 2020
    assert!(now.seconds > 1_577_836_800);
    assert!(current_timestamp() >= now.seconds);
}

#[test]
fn the_tokens_of_a_sign_in_replace_the_old_ones() {
    let mut tokens = TokenStore::new();
    assert_eq!(tokens.get_auth_tokens(), (None, None));
    tokens.save_auth_tokens(
        "acc1".to_string(),
        "2030-01-01T00:00:00Z".to_string(),
        "ref1".to_string(),
        "2031-01-01T00:00:00Z".to_string(),
        "2026-01-01 10:00:00",
    );
    tokens.save_auth_tokens(
        "acc2".to_string(),
        "2030-02-01T00:00:00Z".to_string(),
        "ref2".to_string(),
        "2031-02-01T00:00:00Z".to_string(),
        "2026-01-02 10:00:00",
    );
    let (access, refresh) = tokens.get_auth_tokens();
    assert_eq!(
        access,
        Some(AuthToken {
            token: "acc2".to_string(),
            token_type: "Bearer".to_string(),
            expires_at: "2030-02-01T00:00:00Z".to_string(),
            created_at: "2026-01-02 10:00:00".to_string(),
            is_refresh_token: false,
        })
    );
    assert_eq!(
        refresh,
        Some(AuthToken {
            token: "ref2".to_string(),
            token_type: "Bearer".to_string(),
            expires_at: "2031-02-01T00:00:00Z".to_string(),
            created_at: "2026-01-02 10:00:00".to_string(),
            is_refresh_token: true,
        })
    );
}

#[test]
fn signing_out_drops_the_tokens_and_the_students() {
    let mut tokens = TokenStore::new();
    let mut store = ProgressStore::new();
    store.save_student(Student { id: "s1".to_string() });
    tokens.save_auth_tokens("a".into(), "x".into(), "r".into(), "y".into(), "z");
    tokens.clear_auth_tokens(&mut store);
    assert_eq!(tokens.get_auth_tokens(), (None, None));
    assert!(store.students().is_empty());
}

#[test]
fn a_user_is_shown_by_full_name_or_by_first_and_last() {
    assert_eq!(display_name(Some("Ada L."), Some("Ada"), None), Ok("Ada L.".to_string()));
    assert_eq!(display_name(None, Some("Ada"), Some("Lovelace")), Ok("Ada Lovelace".to_string()));
    assert_eq!(
        display_name(None, Some("  Ada"), Some("Lovelace\t ")),
        Ok("Ada Lovelace".to_string())
    );
    assert_eq!(display_name(None, Some(""), Some("Lovelace")), Ok("Lovelace".to_string()));
    assert_eq!(display_name(None, Some("Ada"), None), Err(StoreError::InvalidInput));
    assert_eq!(display_name(None, None, Some("Lovelace")), Err(StoreError::InvalidInput));
    assert_eq!(display_name(None, None, None), Err(StoreError::InvalidInput));
}

#[test]
fn settings_are_kept_under_their_keys() {
    let mut settings = MetadataStore::new();
    assert_eq!(settings.get_app_metadata("theme"), None);
    settings.set_app_metadata("theme".to_string(), "dark".to_string(), 5);
    settings.set_app_metadata("lang".to_string(), "en".to_string(), 6);
    settings.set_app_metadata("theme".to_string(), "light".to_string(), 7);
    assert_eq!(settings.get_app_metadata("theme"), Some("light".to_string()));
    assert_eq!(settings.get_app_metadata("lang"), Some("en".to_string()));
    assert_eq!(
        settings.get_all_app_metadata(),
        vec![
            AppMetadata { key: "theme".to_string(), value: "light".to_string(), updated_at: 7 },
            AppMetadata { key: "lang".to_string(), value: "en".to_string(), updated_at: 6 },
        ]
    );
}

#[test]
fn the_offline_mode_is_read_back() {
    let mut settings = MetadataStore::new();
    assert!(!settings.is_offline_mode());
    settings.set_offline_mode(true, 1);
    assert!(settings.is_offline_mode());
    assert_eq!(settings.get_app_metadata("is_offline_mode"), Some("true".to_string()));
    settings.set_offline_mode(false, 2);
    assert!(!settings.is_offline_mode());
    assert_eq!(settings.get_app_metadata("is_offline_mode"), Some("false".to_string()));
    settings.set_app_metadata("is_offline_mode".to_string(), "TRUE".to_string(), 3);
    assert!(!settings.is_offline_mode());
}

#[test]
fn the_time_of_the_last_synchronisation_is_kept_as_text() {
    let mut settings = MetadataStore::new();
    assert_eq!(settings.get_last_sync_time(), None);
    assert_eq!(settings.set_last_sync_time(Instant { seconds: 1_431_648_000, nanos: 0 }), Ok(()));
    assert_eq!(settings.get_last_sync_time(), Some("2015-05-15T00:00:00+00:00".to_string()));
    assert_eq!(
        settings.get_app_metadata("last_full_sync"),
        Some("2015-05-15T00:00:00+00:00".to_string())
    );
    assert_eq!(settings.get_all_app_metadata()[0].updated_at, 1_431_648_000);
    assert_eq!(
        settings.set_last_sync_time(Instant { seconds: i64::MIN, nanos: 0 }),
        Err(StoreError::InvalidInput)
    );
    assert_eq!(settings.get_last_sync_time(), Some("2015-05-15T00:00:00+00:00".to_string()));
}

#[test]
fn statuses_have_names() {
    assert_eq!(ModuleStatus::parse("not_started"), Some(ModuleStatus::NotStarted));
    assert_eq!(ModuleStatus::parse("in_progress"), Some(ModuleStatus::InProgress));
    assert_eq!(ModuleStatus::parse("completed"), Some(ModuleStatus::Completed));
    assert_eq!(ModuleStatus::parse("Completed"), None);
    assert_eq!(ModuleStatus::parse(""), None);
    for s in [ModuleStatus::NotStarted, ModuleStatus::InProgress, ModuleStatus::Completed] {
        assert_eq!(ModuleStatus::parse(s.as_text()), Some(s));
    }
    assert_eq!(AttemptStatus::parse("in_progress"), Some(AttemptStatus::InProgress));
    assert_eq!(AttemptStatus::parse("completed"), Some(AttemptStatus::Completed));
    assert_eq!(AttemptStatus::parse("not_started"), None);
    for s in [AttemptStatus::InProgress, AttemptStatus::Completed] {
        assert_eq!(AttemptStatus::parse(s.as_text()), Some(s));
    }
    assert!(ModuleStatus::Completed.regresses_to(&ModuleStatus::InProgress));
    assert!(ModuleStatus::InProgress.regresses_to(&ModuleStatus::NotStarted));
    assert!(!ModuleStatus::InProgress.regresses_to(&ModuleStatus::InProgress));
    assert!(!ModuleStatus::NotStarted.regresses_to(&ModuleStatus::Completed));
}

#[test]
fn small_rules_of_the_records() {
    assert_eq!(content_progress_id("e1", "b7"), "cp_e1_b7");
    assert_eq!(content_progress_id("", ""), "cp__");
    assert_eq!(order_of(Some(3), Some(9)), Some(3));
    assert_eq!(order_of(None, Some(9)), Some(9));
    assert_eq!(order_of(None, None), None);
    assert_eq!(
        course_image_id(true, Some("img".to_string()), Some("other".to_string())),
        Some("img".to_string())
    );
    assert_eq!(course_image_id(true, None, Some("other".to_string())), None);
    assert_eq!(
        course_image_id(false, Some("img".to_string()), Some("other".to_string())),
        Some("other".to_string())
    );
}
