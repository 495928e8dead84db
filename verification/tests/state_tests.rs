use starify::state::{issue, issue_now, text_eq, validate, StateCheck, LOGIN_STATE_TTL_SECS};

#[test]
fn issued_state_is_its_time_in_decimal() {
    let state = issue(1700000000);
    assert_eq!(state.value, "1700000000");
    assert_eq!(state.number, 1700000000);
    assert_eq!(state.issued_at, 1700000000);
    assert_eq!(state.ttl, 3600);
    assert_eq!(LOGIN_STATE_TTL_SECS, 3600);
}

#[test]
fn own_state_is_valid_through_its_last_second() {
    let state = issue(1000);
    assert_eq!(validate("1000", &state, 1000), StateCheck::Valid);
    assert_eq!(validate("1000", &state, 4599), StateCheck::Valid);
    assert_eq!(validate("1000", &state, 4600), StateCheck::Valid);
}

#[test]
fn own_state_expires_after_its_lifetime() {
    let state = issue(1000);
    assert_eq!(validate("1000", &state, 4601), StateCheck::Expired);
    assert_eq!(validate("1000", &state, i64::MAX), StateCheck::Expired);
}

#[test]
fn other_state_is_a_mismatch_at_any_time() {
    let state = issue(1000);
    assert_eq!(validate("1001", &state, 1000), StateCheck::Mismatched);
    assert_eq!(validate("", &state, 1000), StateCheck::Mismatched);
    assert_eq!(validate("1001", &state, 99999), StateCheck::Mismatched);
}

#[test]
fn expiry_does_not_overflow_at_the_end_of_time() {
    let state = issue(i64::MAX);
    assert!(!state.is_expired(i64::MAX));
    assert_eq!(validate("9223372036854775807", &state, i64::MAX), StateCheck::Valid);
}

#[test]
fn state_issued_now_carries_the_clock() {
    let before = std::time::SystemTime::now()
        .duration_since(std::time::UNIX_EPOCH)
        .unwrap()
        .as_secs() as i64;
    let state = issue_now();
    assert!(state.issued_at >= before - 1 && state.issued_at <= before + 5);
    assert_eq!(state.value, state.issued_at.to_string());
    assert_eq!(state.ttl, 3600);
}

#[test]
fn texts_compare_by_content() {
    assert!(text_eq("abc", "abc"));
    assert!(!text_eq("abc", "abd"));
    assert!(!text_eq("abc", "ab"));
}

#[test]
fn cloned_state_is_the_same() {
    let state = issue(5);
    let copy = state.clone();
    assert_eq!(copy.value, "5");
    assert_eq!(copy.number, 5);
    assert_eq!(copy.issued_at, 5);
    assert_eq!(copy.ttl, 3600);
}

#[test]
fn state_names_its_last_second() {
    assert_eq!(issue(1000).expires_at(), 4600);
    assert_eq!(issue(-3600).expires_at(), 0);
    assert_eq!(issue(i64::MAX - 10).expires_at(), i64::MAX);
}

#[test]
fn numbered_state_keeps_its_number_apart_from_its_time() {
    let state = starify::state::issue_numbered(1001, 1000);
    assert_eq!(state.value, "1001");
    assert_eq!(state.number, 1001);
    assert_eq!(state.issued_at, 1000);
    assert_eq!(validate("1001", &state, 4600), StateCheck::Valid);
    assert_eq!(validate("1001", &state, 4601), StateCheck::Expired);
    assert_eq!(validate("1000", &state, 1000), StateCheck::Mismatched);
}
