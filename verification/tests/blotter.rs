use finstack_blotter::ingest::{authorize_ingest, IngestRejection, INGEST_ACCEPTED_STATUS};
use finstack_blotter::metrics::{is_stale, is_stale_at, BookClock, UtcInstant};
use finstack_blotter::state::{plan_state, storage_dir_for, ApiError, StatePlan};
use finstack_blotter::types::{KillSwitch, Risk};
use finstack_blotter::AppStateConfig;

fn default_risk() -> Risk {
    Risk {
        max_inventory_shares_per_token: 50,
        max_quote_size: 10,
        max_open_markets: 3,
        max_notional_usd: 200,
        stale_after_seconds: 900,
        kill_on: vec![
            "surprise_warning".to_string(),
            "stale_price".to_string(),
            "inventory_limit".to_string(),
            "lost_data".to_string(),
        ],
    }
}

fn default_clock() -> BookClock {
    BookClock {
        as_of: "2026-08-24T22:15:43Z".to_string(),
        last_pricer_sheet: None,
        risk: default_risk(),
    }
}

fn instant(s: &str) -> UtcInstant {
    UtcInstant::parse_rfc3339(s).unwrap()
}

#[test]
fn test_stale_flag_math() {
    let mut b = default_clock();
    // stale_after_seconds = 900 (15 min)
    let now = instant("2026-08-24T22:31:00Z"); // 917s after as_of -> stale
    assert!(is_stale(&b, &now));

    // fresh: within 5 minutes
    let fresh_now = instant("2026-08-24T22:19:00Z");
    assert!(!is_stale(&b, &fresh_now));

    // fresh as_of but pricer sheet too old
    b.as_of = "2026-08-24T22:19:00Z".to_string();
    b.last_pricer_sheet = Some("2026-08-24T22:00:00Z".to_string());
    let now2 = instant("2026-08-24T22:20:01Z");
    assert!(is_stale(&b, &now2)); // sheet older than 15 min
}

#[test]
fn stale_exactly_at_limit_is_fresh() {
    let b = default_clock();
    // 900 s after as_of: not more than the limit
    assert!(!is_stale(&b, &instant("2026-08-24T22:30:43Z")));
    // one nanosecond more is stale
    assert!(is_stale(&b, &instant("2026-08-24T22:30:43.000000001Z")));
}

#[test]
fn unparsable_stamps_never_make_the_book_stale() {
    let mut b = default_clock();
    b.as_of = "not a date".to_string();
    b.last_pricer_sheet = Some("yesterday".to_string());
    assert!(!is_stale(&b, &instant("2030-01-01T00:00:00Z")));
}

#[test]
fn stamps_with_offsets_are_taken_to_utc() {
    let mut b = default_clock();
    // 22:15:43Z written in UTC-02:00
    b.as_of = "2026-08-24T20:15:43-02:00".to_string();
    assert!(!is_stale(&b, &instant("2026-08-24T22:19:00Z")));
    assert!(is_stale(&b, &instant("2026-08-24T22:31:00Z")));
}

#[test]
fn stale_at_takes_read_instants() {
    let as_of = UtcInstant::from_timestamp(1_000, 0);
    let now = UtcInstant::from_timestamp(1_901, 0).unwrap();
    assert!(is_stale_at(as_of, None, 900, &now));
    assert!(!is_stale_at(as_of, None, 901, &now));
    assert!(!is_stale_at(None, None, 0, &now));
    let sheet = UtcInstant::from_timestamp(0, 0);
    assert!(is_stale_at(UtcInstant::from_timestamp(1_900, 0), sheet, 900, &now));
}

#[test]
fn instants_read_back_their_timestamps() {
    let t = instant("2026-08-24T22:15:43Z");
    assert_eq!(t.timestamp(), 1_787_609_743);
    assert_eq!(t.subsec_nanos(), 0);
    let u = UtcInstant::from_timestamp(1_787_609_743, 500).unwrap();
    assert_eq!(u.timestamp(), 1_787_609_743);
    assert_eq!(u.subsec_nanos(), 500);
    assert!(UtcInstant::from_timestamp(i64::MAX, 0).is_none());
    assert!(UtcInstant::from_timestamp(0, 2_000_000_000).is_none());
    assert!(UtcInstant::parse_rfc3339("2026-13-01T00:00:00Z").is_none());
}

#[test]
fn ingest_requires_bearer_token() {
    let token = Some("secret-token");
    assert_eq!(
        authorize_ingest(token, None),
        Err(IngestRejection::MissingAuthorization)
    );
    assert_eq!(
        authorize_ingest(token, Some("Bearer wrong")),
        Err(IngestRejection::InvalidToken)
    );
    assert_eq!(authorize_ingest(token, Some("Bearer secret-token")), Ok(()));
    assert_eq!(INGEST_ACCEPTED_STATUS, 204);
}

#[test]
fn ingest_rejections_and_their_answers() {
    let r = authorize_ingest(None, Some("Bearer anything")).unwrap_err();
    assert_eq!(r, IngestRejection::Disabled);
    assert_eq!(r.status_code(), 400);
    assert_eq!(
        r.message(),
        "ingest disabled: BOOK_INGEST_TOKEN not configured"
    );

    let r = authorize_ingest(Some("t"), Some("Basic t")).unwrap_err();
    assert_eq!(r, IngestRejection::InvalidScheme);
    assert_eq!(r.status_code(), 401);
    assert_eq!(r.message(), "invalid Authorization scheme");

    let r = authorize_ingest(Some("t"), Some("bearer t")).unwrap_err();
    assert_eq!(r, IngestRejection::InvalidScheme);

    let r = authorize_ingest(Some("t"), None).unwrap_err();
    assert_eq!(r.status_code(), 401);
    assert_eq!(r.message(), "missing Authorization");

    let r = authorize_ingest(Some("t"), Some("Bearer t ")).unwrap_err();
    assert_eq!(r, IngestRejection::InvalidToken);
    assert_eq!(r.status_code(), 403);
    assert_eq!(r.message(), "invalid token");

    // an empty configured token accepts exactly "Bearer "
    assert_eq!(authorize_ingest(Some(""), Some("Bearer ")), Ok(()));
    assert_eq!(
        authorize_ingest(Some(""), Some("Bearer")),
        Err(IngestRejection::InvalidScheme)
    );
}

#[test]
fn state_plan_defaults() {
    let plan: StatePlan = plan_state(AppStateConfig::default(), None);
    assert_eq!(plan.storage_path, "apps/blotter/data/book.json");
    assert_eq!(plan.storage_dir, "apps/blotter/data");
    assert_eq!(plan.demo_path, None);
    assert_eq!(plan.ingest_token, None);
}

#[test]
fn state_plan_from_config_and_environment() {
    let config = AppStateConfig {
        storage_path: Some("/tmp/blotter/book.json".to_string()),
        demo_path: Some("fixtures/demo.json".to_string()),
        ingest_token: None,
    };
    let plan = plan_state(config.clone(), Some("env-token".to_string()));
    assert_eq!(plan.storage_path, "/tmp/blotter/book.json");
    assert_eq!(plan.storage_dir, "/tmp/blotter");
    let other = AppStateConfig {
        storage_path: Some("/var/lib/x/book.json".to_string()),
        demo_path: None,
        ingest_token: None,
    };
    assert_eq!(plan_state(other, None).storage_dir, "/var/lib/x");
    let other = AppStateConfig {
        storage_path: Some("data/books/../book.json".to_string()),
        demo_path: None,
        ingest_token: None,
    };
    assert_eq!(plan_state(other, None).storage_dir, "data/books/..");
    assert_eq!(plan.demo_path, Some("fixtures/demo.json".to_string()));
    assert_eq!(plan.ingest_token, Some("env-token".to_string()));

    let mut config = config;
    config.ingest_token = Some("config-token".to_string());
    let plan = plan_state(config, Some("env-token".to_string()));
    assert_eq!(plan.ingest_token, Some("config-token".to_string()));
}

#[test]
fn state_plan_storage_dir_without_parent() {
    let config = AppStateConfig {
        storage_path: Some("/".to_string()),
        demo_path: None,
        ingest_token: None,
    };
    let plan = plan_state(config, None);
    assert_eq!(plan.storage_dir, "apps/blotter/data");
    let config = AppStateConfig {
        storage_path: Some("book.json".to_string()),
        demo_path: None,
        ingest_token: None,
    };
    let plan = plan_state(config, None);
    assert_eq!(plan.storage_dir, "");
    for one in [".", "..", "book"] {
        let config = AppStateConfig {
            storage_path: Some(one.to_string()),
            demo_path: None,
            ingest_token: None,
        };
        assert_eq!(plan_state(config, None).storage_dir, "");
    }
    assert_eq!(storage_dir_for(None), "apps/blotter/data");
    assert_eq!(storage_dir_for(Some("x/y".to_string())), "x/y");
}

#[test]
fn api_errors_answer_bad_request() {
    let e = ApiError::new("parsing failed".to_string());
    assert_eq!(e.message(), "parsing failed");
    assert_eq!(e.status_code(), 400);
}

#[test]
fn kill_switch_and_risk_records() {
    let k = KillSwitch {
        armed: true,
        tripped: false,
        reason: None,
        tripped_at: None,
    };
    let k2 = k.clone();
    assert!(k2.armed && !k2.tripped);
    let r = default_risk();
    assert_eq!(r.clone().kill_on.len(), 4);
    assert_eq!(r.stale_after_seconds, 900);
}

#[test]
fn instants_cover_chrono_range_and_leap_seconds() {
    assert!(UtcInstant::from_timestamp(0, 0).is_some());
    assert!(UtcInstant::from_timestamp(-8_334_601_228_800, 0).is_some());
    assert!(UtcInstant::from_timestamp(-8_334_601_228_801, 999_999_999).is_none());
    assert!(UtcInstant::from_timestamp(8_210_266_876_799, 999_999_999).is_some());
    assert!(UtcInstant::from_timestamp(8_210_266_876_800, 0).is_none());
    // a leap second: only in the last second of a minute
    assert!(UtcInstant::from_timestamp(59, 1_500_000_000).is_some());
    assert!(UtcInstant::from_timestamp(58, 1_500_000_000).is_none());
    assert!(UtcInstant::from_timestamp(59, 2_000_000_000).is_none());
    assert!(UtcInstant::from_timestamp(-1, 1_000_000_000).is_some());
}

#[test]
fn stale_books_stay_stale() {
    let b = default_clock();
    let mut stale_seen = false;
    for minute in 0..40 {
        let now = UtcInstant::from_timestamp(1_787_609_743 + minute * 60, 0).unwrap();
        let stale = is_stale(&b, &now);
        assert!(!stale_seen || stale);
        stale_seen = stale;
    }
    assert!(stale_seen);
}

#[test]
fn leap_seconds_follow_chrono_counting() {
    let mut b = default_clock();
    b.as_of = "2026-08-24T10:00:00Z".to_string();
    b.risk.stale_after_seconds = 50_400;
    let in_leap = instant("2026-08-24T23:59:60.5Z");
    assert_eq!(in_leap.timestamp() % 60, 59);
    assert_eq!(in_leap.subsec_nanos(), 1_500_000_000);
    // 50 400.5 s by chrono's count: stale
    assert!(is_stale(&b, &in_leap));
    // the next midnight is 50 400 s after as_of: not stale
    assert!(!is_stale(&b, &instant("2026-08-25T00:00:00Z")));
    // a leap-second as-of counts one second more when now is later in the day
    b.as_of = "2026-08-24T00:00:60.5Z".to_string();
    b.risk.stale_after_seconds = 10;
    let later = UtcInstant::from_timestamp(1_787_529_600 + 70, 0).unwrap();
    // plain difference 70 - 60.5 = 9.5 s, plus chrono's correction of 1 s
    assert!(is_stale(&b, &later));
}
