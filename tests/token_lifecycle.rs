use dataset_refresher::lifecycle::{obtain_start, obtain_step, ObtainAction, ObtainError, ObtainEvent, ObtainState};
use dataset_refresher::token::{expiry_timestamp, validate_token, TokenResponse, MAX_UTC_TIMESTAMP, MIN_UTC_TIMESTAMP};

fn token(expires_on: &str, access: &str) -> TokenResponse {
    TokenResponse {
        token_type: "Bearer".to_string(),
        expires_on: expires_on.to_string(),
        access_token: access.to_string(),
    }
}

fn same(a: &TokenResponse, b: &TokenResponse) -> bool {
    a.token_type == b.token_type && a.expires_on == b.expires_on && a.access_token == b.access_token
}

/// Drives one whole run against a fixed cache content and acquirer answer,
/// returning the actions in order.
fn run(cached: Option<TokenResponse>, acquired: Result<TokenResponse, String>, now: i64) -> Vec<ObtainAction> {
    let mut cached = Some(cached);
    let mut acquired = Some(acquired);
    let (mut state, mut action) = obtain_start();
    let mut actions = Vec::new();
    loop {
        let event = match &action {
            ObtainAction::ReadCache => ObtainEvent::CacheRead(cached.take().unwrap()),
            ObtainAction::Acquire => ObtainEvent::Acquired(acquired.take().unwrap()),
            ObtainAction::StoreCache(_) => ObtainEvent::Stored,
            ObtainAction::Deliver(_) | ObtainAction::Abort(_) => {
                actions.push(action);
                return actions;
            }
        };
        actions.push(action);
        assert!(state.accepts(&event));
        let next = obtain_step(state, event, now);
        state = next.0;
        action = next.1;
    }
}

#[test]
fn past_expiry_is_invalid() {
    assert!(!validate_token(&token("1000", "a"), 1000));
    assert!(!validate_token(&token("1000", "a"), 5000));
}

#[test]
fn future_expiry_is_valid() {
    assert!(validate_token(&token("1000", "a"), 999));
    assert!(validate_token(&token("1700000000", "a"), 0));
}

#[test]
fn unparsable_expiry_fails_closed() {
    for text in ["", "abc", "12a", "1.5", "+", "-", "9223372036854775808"] {
        assert!(!validate_token(&token(text, "a"), -1_000_000));
    }
}

#[test]
fn expiry_is_trimmed_and_signed() {
    assert_eq!(expiry_timestamp(" 123 "), Some(123));
    assert_eq!(expiry_timestamp("\t42\n"), Some(42));
    assert_eq!(expiry_timestamp("+7"), Some(7));
    assert_eq!(expiry_timestamp("-7"), Some(-7));
    assert_eq!(expiry_timestamp("1 2"), None);
}

#[test]
fn expiry_outside_calendar_range_is_rejected() {
    assert_eq!(expiry_timestamp("9000000000000000"), None);
    assert_eq!(expiry_timestamp("-9000000000000000"), None);
    assert_eq!(expiry_timestamp("8210266876799"), Some(8210266876799));
    assert!(!validate_token(&token("9000000000000000", "a"), 0));
}

#[test]
fn clock_check_uses_current_time() {
    let now = chrono::Utc::now().timestamp();
    assert!(!validate_token(&token("1", "a"), now));
    assert!(validate_token(&token("99999999999", "a"), now));
    assert!(!validate_token(&token("soon", "a"), now));
}

#[test]
fn calendar_range_bounds() {
    assert_eq!(expiry_timestamp("-8334601228800"), Some(MIN_UTC_TIMESTAMP));
    assert_eq!(expiry_timestamp("-8334601228801"), None);
    assert_eq!(expiry_timestamp("8210266876799"), Some(MAX_UTC_TIMESTAMP));
    assert_eq!(expiry_timestamp("8210266876800"), None);
}

#[test]
fn unicode_white_space_is_trimmed() {
    assert_eq!(expiry_timestamp("\u{a0}12\u{3000}"), Some(12));
    assert_eq!(expiry_timestamp("\u{2003}\u{85}-3 "), Some(-3));
    assert_eq!(expiry_timestamp("\u{200b}12"), None);
}

#[test]
fn default_token_is_empty() {
    let t = TokenResponse::default();
    assert!(t.token_type.is_empty() && t.expires_on.is_empty() && t.access_token.is_empty());
    assert!(!validate_token(&t, 0));
}

#[test]
fn live_cache_skips_acquisition() {
    let cached = token("2000", "cached");
    let actions = run(Some(token("2000", "cached")), Ok(token("3000", "fresh")), 1500);
    assert_eq!(actions.len(), 2);
    assert!(matches!(actions[0], ObtainAction::ReadCache));
    assert!(!actions.iter().any(|a| matches!(a, ObtainAction::Acquire)));
    match &actions[1] {
        ObtainAction::Deliver(t) => assert!(same(t, &cached)),
        _ => panic!("expected the cached token"),
    }
}

#[test]
fn absent_cache_acquires_and_stores() {
    let fresh = token("3000", "fresh");
    let actions = run(None, Ok(token("3000", "fresh")), 1500);
    assert_eq!(actions.len(), 4);
    assert!(matches!(actions[1], ObtainAction::Acquire));
    match (&actions[2], &actions[3]) {
        (ObtainAction::StoreCache(s), ObtainAction::Deliver(d)) => {
            assert!(same(s, &fresh));
            assert!(same(d, &fresh));
        }
        _ => panic!("expected store then deliver"),
    }
}

#[test]
fn expired_cache_acquires_and_stores() {
    let fresh = token("3000", "fresh");
    let actions = run(Some(token("1000", "old")), Ok(token("3000", "fresh")), 1500);
    assert_eq!(actions.len(), 4);
    match &actions[2] {
        ObtainAction::StoreCache(s) => assert!(same(s, &fresh)),
        _ => panic!("expected a cache write"),
    }
}

#[test]
fn failed_acquisition_is_unrecoverable_without_write() {
    let actions = run(None, Err("invalid_grant".to_string()), 1500);
    assert_eq!(actions.len(), 3);
    assert!(!actions.iter().any(|a| matches!(a, ObtainAction::StoreCache(_))));
    match &actions[2] {
        ObtainAction::Abort(ObtainError::Unrecoverable(msg)) => assert_eq!(msg, "invalid_grant"),
        _ => panic!("expected Unrecoverable"),
    }
}

#[test]
fn reuse_twice_gives_identical_tokens() {
    let first = run(Some(token("5000", "same")), Err("unused".to_string()), 100);
    let second = run(Some(token("5000", "same")), Ok(token("9000", "other")), 4999);
    match (&first[1], &second[1]) {
        (ObtainAction::Deliver(a), ObtainAction::Deliver(b)) => {
            assert!(same(a, b));
            assert_eq!(a.access_token, "same");
        }
        _ => panic!("expected two deliveries"),
    }
}

#[test]
fn finished_state_accepts_nothing() {
    let (state, _) = obtain_step(ObtainState::AwaitingCache, ObtainEvent::CacheRead(Some(token("10", "x"))), 0);
    assert!(matches!(state, ObtainState::Finished));
    assert!(!state.accepts(&ObtainEvent::Stored));
    assert!(!ObtainState::AwaitingCache.accepts(&ObtainEvent::Stored));
}
