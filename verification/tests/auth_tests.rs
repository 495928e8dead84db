use std::collections::HashSet;

use rspotify::{AuthCodeSpotify, Credentials as ClientCredentials, OAuth};
use starify::auth::{
    classify_exchange_failure, renewed_user, FailureCause, Backend, UserLookup,
    REFRESH_WAIT_MILLIS, REFRESH_WAIT_TRIES, CallbackQuery, Error, ExchangeFailure, ExchangeOutcome,
    SessionOutcome,
};
use starify::client::{PackedClient, Token};
use starify::store::{CredentialStore, DurableStore};

fn client() -> AuthCodeSpotify {
    let mut scopes = HashSet::new();
    scopes.insert("user-top-read".to_string());
    AuthCodeSpotify::new(
        ClientCredentials::new("my-client", "my-secret"),
        OAuth {
            redirect_uri: "http://127.0.0.1:3000/authorize".to_string(),
            scopes,
            ..Default::default()
        },
    )
}

fn backend() -> Backend {
    Backend::new(client(), CredentialStore::memory())
}

fn cred(user: &str, token: &str, expires_at: i64) -> PackedClient {
    PackedClient {
        client_id: "my-client".to_string(),
        client_secret: "my-secret".to_string(),
        user_id: user.to_string(),
        redirect_uri: "http://127.0.0.1:3000/authorize".to_string(),
        scopes: vec!["user-top-read".to_string()],
        token: Token {
            access_token: token.to_string(),
            refresh_token: Some("refresh".to_string()),
            expires_in: 3600,
            expires_at: Some(expires_at),
            scopes: vec!["user-top-read".to_string()],
        },
    }
}

fn query(code: Option<&str>, state: i64) -> CallbackQuery {
    CallbackQuery { code: code.map(|c| c.to_string()), state }
}

#[test]
fn authorize_url_carries_the_state_and_the_client() {
    let backend = backend();
    let url = backend.authorize_url("1700000000".to_string()).unwrap();
    assert!(url.starts_with("https://accounts.spotify.com/authorize?"));
    assert!(url.contains("state=1700000000"));
    assert!(url.contains("response_type=code"));
    assert!(url.contains("client_id=my-client"));
    assert!(url.contains("scope=user-top-read"));
    assert!(url.contains("redirect_uri=http%3A%2F%2F127.0.0.1%3A3000%2Fauthorize"));
    assert!(url.contains("show_dialog=true"));
}

fn carries(url: &str, wanted: &str) -> bool {
    url.match_indices(wanted).any(|(from, _)| {
        let to = from + wanted.len();
        let before = url.as_bytes()[from - 1];
        let after = url.as_bytes().get(to).copied();
        (before == b'?' || before == b'&')
            && (after.is_none() || after == Some(b'&') || after == Some(b'#'))
    })
}

#[test]
fn authorize_url_holds_the_state_as_a_whole_parameter() {
    let backend = backend();
    for state in ["7", "-42", "1700000000", ""] {
        let url = backend.authorize_url(state.to_string()).unwrap();
        assert!(carries(&url, &format!("state={}", state)), "{}", url);
        assert!(carries(&url, "response_type=code"), "{}", url);
        assert!(carries(&url, "show_dialog=true"), "{}", url);
    }
}

#[test]
fn authorize_url_asks_for_a_code_whatever_the_state() {
    let backend = backend();
    for state in ["a b&c=d", "ü", "#"] {
        let url = backend.authorize_url(state.to_string()).unwrap();
        assert!(carries(&url, "response_type=code"), "{}", url);
        assert!(carries(&url, "show_dialog=true"), "{}", url);
    }
}

#[test]
fn login_within_ttl_authenticates_and_stores_the_credential() {
    let mut backend = backend();
    let issued = backend.begin_login(1000).unwrap();
    assert_eq!(issued.value, "1000");
    let accepted = backend.handle_callback(&query(Some("C1"), 1000), Some("1000"), 1500).unwrap();
    assert_eq!(accepted.code, "C1");
    let user = backend
        .authenticate(1000, ExchangeOutcome::Granted(cred("U", "AT", 99999)), 1002)
        .unwrap()
        .unwrap();
    assert_eq!(user.user_id, "U");
    assert_eq!(user.client, cred("U", "AT", 99999));
    assert_eq!(backend.credential("U").unwrap().unwrap(), cred("U", "AT", 99999));
}

#[test]
fn callback_after_ttl_is_expired_and_stores_nothing() {
    let mut backend = backend();
    backend.begin_login(1000).unwrap();
    let refused = backend.handle_callback(&query(Some("C1"), 1000), Some("1000"), 4601);
    assert_eq!(refused.unwrap_err(), Error::StateExpired);
    assert!(backend.credential("U").unwrap().is_none());
    assert_eq!(
        backend.authenticate(1000, ExchangeOutcome::Granted(cred("U", "AT", 9)), 1002).unwrap_err(),
        Error::AlreadyConsumed
    );
    assert!(backend.credential("U").unwrap().is_none());
}

#[test]
fn exchange_that_outlives_the_state_is_expired_and_stores_nothing() {
    let mut backend = backend();
    backend.begin_login(1000).unwrap();
    backend.handle_callback(&query(Some("C1"), 1000), Some("1000"), 4600).unwrap();
    assert_eq!(
        backend
            .authenticate(1000, ExchangeOutcome::Granted(cred("U", "AT", 99999)), 4601)
            .unwrap_err(),
        Error::StateExpired
    );
    assert!(backend.credential("U").unwrap().is_none());
    assert_eq!(
        backend
            .authenticate(1000, ExchangeOutcome::Granted(cred("U", "AT", 99999)), 4000)
            .unwrap_err(),
        Error::AlreadyConsumed
    );
}

#[test]
fn exchange_that_ends_at_the_last_second_is_stored() {
    let mut backend = backend();
    backend.begin_login(1000).unwrap();
    backend.handle_callback(&query(Some("C1"), 1000), Some("1000"), 1001).unwrap();
    assert!(backend
        .authenticate(1000, ExchangeOutcome::Granted(cred("U", "AT", 99999)), 4600)
        .is_ok());
    assert!(backend.credential("U").unwrap().is_some());
}

#[test]
fn lifetime_counts_from_the_start_of_the_login_not_from_the_number() {
    let mut backend = backend();
    let first = backend.begin_login(1000).unwrap();
    let second = backend.begin_login(1000).unwrap();
    assert_eq!((first.number, first.issued_at), (1000, 1000));
    assert_eq!((second.number, second.issued_at), (1001, 1000));
    assert_eq!(second.value, "1001");
    assert_eq!(second.expires_at(), 4600);
    // one second after the lifetime of both
    assert_eq!(
        backend.handle_callback(&query(Some("C2"), 1001), Some("1001"), 4601).unwrap_err(),
        Error::StateExpired
    );
    assert_eq!(
        backend
            .authenticate(1001, ExchangeOutcome::Granted(cred("U", "AT", 99999)), 4601)
            .unwrap_err(),
        Error::AlreadyConsumed
    );
    assert!(backend.credential("U").unwrap().is_none());
    // the last second of both
    let mut backend = self::backend();
    backend.begin_login(1000).unwrap();
    backend.begin_login(1000).unwrap();
    assert!(backend.handle_callback(&query(Some("C2"), 1001), Some("1001"), 4600).is_ok());
    assert_eq!(
        backend
            .authenticate(1001, ExchangeOutcome::Granted(cred("U", "AT", 99999)), 4601)
            .unwrap_err(),
        Error::StateExpired
    );
    assert!(backend.credential("U").unwrap().is_none());
}

#[test]
fn state_never_issued_is_a_mismatch_without_a_held_state_too() {
    let mut backend = backend();
    backend.begin_login(1000).unwrap();
    assert_eq!(
        backend.handle_callback(&query(Some("C1"), 777), None, 1001).unwrap_err(),
        Error::StateMismatch
    );
    assert_eq!(
        backend.handle_callback(&query(Some("C1"), 777), Some("1000"), 1001).unwrap_err(),
        Error::StateMismatch
    );
    assert_eq!(
        backend.handle_callback(&query(None, 777), None, 99999).unwrap_err(),
        Error::StateMismatch
    );
    assert!(backend.credential("U").unwrap().is_none());
}

#[test]
fn callback_at_the_last_second_is_accepted() {
    let mut backend = backend();
    backend.begin_login(1000).unwrap();
    assert!(backend.handle_callback(&query(Some("C1"), 1000), Some("1000"), 4600).is_ok());
}

#[test]
fn callback_without_a_held_state_is_missing() {
    let mut backend = backend();
    backend.begin_login(1000).unwrap();
    assert_eq!(
        backend.handle_callback(&query(Some("C1"), 1000), None, 1001).unwrap_err(),
        Error::StateMissing
    );
    // the attempt is still open for the browser that holds the state
    assert!(backend.handle_callback(&query(Some("C1"), 1000), Some("1000"), 1002).is_ok());
}

#[test]
fn state_never_issued_is_a_mismatch() {
    let mut backend = backend();
    backend.begin_login(1000).unwrap();
    assert_eq!(
        backend.handle_callback(&query(Some("C1"), 777), Some("777"), 1001).unwrap_err(),
        Error::StateMismatch
    );
    assert_eq!(
        backend.authenticate(777, ExchangeOutcome::Granted(cred("U", "AT", 9)), 1002).unwrap_err(),
        Error::StateMismatch
    );
    assert!(backend.credential("U").unwrap().is_none());
}

#[test]
fn state_of_another_login_is_a_mismatch() {
    let mut backend = backend();
    backend.begin_login(1000).unwrap();
    backend.begin_login(2000).unwrap();
    assert_eq!(
        backend.handle_callback(&query(Some("C1"), 2000), Some("1000"), 2001).unwrap_err(),
        Error::StateMismatch
    );
    assert_eq!(
        backend.authenticate(2000, ExchangeOutcome::Granted(cred("U", "AT", 9)), 2002).unwrap_err(),
        Error::StateMismatch
    );
    // both attempts are still open, each for its own browser
    assert!(backend.handle_callback(&query(Some("C1"), 1000), Some("1000"), 2002).is_ok());
    assert!(backend.handle_callback(&query(Some("C2"), 2000), Some("2000"), 2002).is_ok());
}

#[test]
fn replay_is_refused_and_writes_nothing() {
    let mut backend = backend();
    backend.begin_login(1000).unwrap();
    backend.handle_callback(&query(Some("C1"), 1000), Some("1000"), 1001).unwrap();
    // a replay while the exchange is under way
    assert_eq!(
        backend.handle_callback(&query(Some("C1"), 1000), Some("1000"), 1002).unwrap_err(),
        Error::AlreadyConsumed
    );
    backend.authenticate(1000, ExchangeOutcome::Granted(cred("U", "first", 99999)), 1002).unwrap();
    // a replay after it, twice: the same answer
    for now in [1003, 1004, 99999] {
        assert_eq!(
            backend.handle_callback(&query(Some("C1"), 1000), Some("1000"), now).unwrap_err(),
            Error::AlreadyConsumed
        );
    }
    assert_eq!(
        backend
            .authenticate(1000, ExchangeOutcome::Granted(cred("U", "second", 99999)), 1002)
            .unwrap_err(),
        Error::AlreadyConsumed
    );
    assert_eq!(backend.credential("U").unwrap().unwrap(), cred("U", "first", 99999));
}

#[test]
fn callback_without_a_code_uses_the_state_up() {
    let mut backend = backend();
    backend.begin_login(1000).unwrap();
    assert_eq!(
        backend.handle_callback(&query(None, 1000), Some("1000"), 1001).unwrap_err(),
        Error::CodeMissing
    );
    assert_eq!(
        backend.handle_callback(&query(Some("C1"), 1000), Some("1000"), 1002).unwrap_err(),
        Error::AlreadyConsumed
    );
}

#[test]
fn failed_exchange_ends_the_attempt_and_stores_nothing() {
    for (outcome, error) in [
        (
            ExchangeOutcome::Failed(ExchangeFailure::Terminal),
            Error::ExchangeFailed(ExchangeFailure::Terminal),
        ),
        (
            ExchangeOutcome::Failed(ExchangeFailure::Transient),
            Error::ExchangeFailed(ExchangeFailure::Transient),
        ),
        (ExchangeOutcome::ProfileFailed, Error::ProfileFetchFailed),
    ] {
        let mut backend = backend();
        backend.begin_login(1000).unwrap();
        backend.handle_callback(&query(Some("C1"), 1000), Some("1000"), 1001).unwrap();
        assert_eq!(backend.authenticate(1000, outcome, 1002).unwrap_err(), error);
        assert!(backend.credential("U").unwrap().is_none());
        assert_eq!(
            backend.handle_callback(&query(Some("C1"), 1000), Some("1000"), 1002).unwrap_err(),
            Error::AlreadyConsumed
        );
    }
}

#[test]
fn logins_of_the_same_second_get_different_states() {
    let mut backend = backend();
    let a = backend.begin_login(1000).unwrap();
    let b = backend.begin_login(1000).unwrap();
    let c = backend.begin_login(999).unwrap();
    let d = backend.begin_login(5000).unwrap();
    assert_eq!(a.value, "1000");
    assert_eq!(b.value, "1001");
    assert_eq!(c.value, "1002");
    assert_eq!(d.value, "5000");
}

#[test]
fn no_state_is_issued_past_the_end_of_time() {
    let mut backend = backend();
    assert_eq!(backend.begin_login(i64::MAX).unwrap().issued_at, i64::MAX);
    assert!(backend.begin_login(i64::MAX).is_none());
    assert!(backend.begin_login(5).is_none());
}

#[test]
fn session_without_a_credential_is_anonymous() {
    let mut backend = backend();
    assert!(matches!(backend.resolve_session("nobody", 10), Ok(SessionOutcome::Anonymous)));
    assert!(backend.session_principal(Some("nobody"), 10).is_none());
    assert!(backend.session_principal(None, 10).is_none());
}

fn logged_in(user: &str, expires_at: i64) -> Backend {
    let mut backend = backend();
    backend.begin_login(1000).unwrap();
    backend.handle_callback(&query(Some("C1"), 1000), Some("1000"), 1001).unwrap();
    backend.authenticate(1000, ExchangeOutcome::Granted(cred(user, "AT", expires_at)), 1002).unwrap();
    backend
}

#[test]
fn session_with_a_good_token_is_authenticated() {
    let mut backend = logged_in("U", 5000);
    match backend.resolve_session("U", 4999) {
        Ok(SessionOutcome::Authenticated(user)) => {
            assert_eq!(user.user_id, "U");
            assert_eq!(user.client, cred("U", "AT", 5000));
        }
        other => panic!("{:?}", other),
    }
    assert_eq!(backend.session_principal(Some("U"), 4999).unwrap().id(), "U");
    // a token that is due is not handed out
    assert!(backend.session_principal(Some("U"), 5000).is_none());
}

#[test]
fn concurrent_resolves_ask_for_one_refresh() {
    let mut backend = logged_in("U", 5000);
    let mut exchanges = 0;
    let mut waiting = 0;
    for now in [5000, 5000, 5001, 6000] {
        match backend.resolve_session("U", now) {
            Ok(SessionOutcome::Refresh(user)) => {
                assert_eq!(user.client, cred("U", "AT", 5000));
                exchanges += 1;
            }
            Ok(SessionOutcome::RefreshPending) => waiting += 1,
            other => panic!("{:?}", other),
        }
    }
    assert_eq!(exchanges, 1);
    assert_eq!(waiting, 3);
    // another user is not held up
    assert!(matches!(backend.resolve_session("V", 5000), Ok(SessionOutcome::Anonymous)));
    let renewed = cred("U", "AT2", 9000);
    backend.complete_refresh("U", ExchangeOutcome::Granted(renewed)).unwrap();
    match backend.resolve_session("U", 6001) {
        Ok(SessionOutcome::Authenticated(user)) => assert_eq!(user.client, cred("U", "AT2", 9000)),
        other => panic!("{:?}", other),
    }
}

#[test]
fn refresh_that_failed_in_passing_is_asked_for_again() {
    let mut backend = logged_in("U", 5000);
    assert!(matches!(backend.resolve_session("U", 5000), Ok(SessionOutcome::Refresh(_))));
    assert_eq!(
        backend
            .complete_refresh("U", ExchangeOutcome::Failed(ExchangeFailure::Transient))
            .unwrap_err(),
        Error::ExchangeFailed(ExchangeFailure::Transient)
    );
    assert!(matches!(backend.resolve_session("U", 5001), Ok(SessionOutcome::Refresh(_))));
}

#[test]
fn refresh_that_was_refused_logs_the_user_out() {
    let mut backend = logged_in("U", 5000);
    assert!(matches!(backend.resolve_session("U", 5000), Ok(SessionOutcome::Refresh(_))));
    assert_eq!(
        backend
            .complete_refresh("U", ExchangeOutcome::Failed(ExchangeFailure::Terminal))
            .unwrap_err(),
        Error::ExchangeFailed(ExchangeFailure::Terminal)
    );
    assert!(matches!(backend.resolve_session("U", 5001), Ok(SessionOutcome::Anonymous)));
}

#[test]
fn completing_a_refresh_that_is_not_under_way_changes_nothing() {
    let mut backend = logged_in("U", 5000);
    assert_eq!(
        backend.complete_refresh("U", ExchangeOutcome::Granted(cred("U", "X", 1))).unwrap_err(),
        Error::AlreadyConsumed
    );
    assert_eq!(backend.credential("U").unwrap().unwrap(), cred("U", "AT", 5000));
}

#[test]
fn logout_then_resolve_is_anonymous() {
    let mut backend = logged_in("U", 5000);
    assert_eq!(backend.logout("U"), Ok(()));
    assert!(matches!(backend.resolve_session("U", 10), Ok(SessionOutcome::Anonymous)));
    assert!(matches!(backend.resolve_session("U", 99999), Ok(SessionOutcome::Anonymous)));
    assert!(backend.credential("U").unwrap().is_none());
    // logging out twice is fine
    assert_eq!(backend.logout("U"), Ok(()));
}

#[test]
fn logout_drops_a_refresh_under_way() {
    let mut backend = logged_in("U", 5000);
    assert!(matches!(backend.resolve_session("U", 5000), Ok(SessionOutcome::Refresh(_))));
    backend.logout("U").unwrap();
    assert_eq!(
        backend.complete_refresh("U", ExchangeOutcome::Granted(cred("U", "X", 1))).unwrap_err(),
        Error::AlreadyConsumed
    );
    assert!(backend.credential("U").unwrap().is_none());
}

#[test]
fn store_out_of_reach_is_an_error_not_anonymous() {
    let mut backend =
        Backend::new(client(), CredentialStore::Durable(DurableStore::unavailable()));
    assert_eq!(backend.credential("U").unwrap_err(), Error::CacheUnavailable);
    assert_eq!(backend.resolve_session("U", 1).unwrap_err(), Error::CacheUnavailable);
    assert_eq!(backend.logout("U").unwrap_err(), Error::CacheUnavailable);
    // for the request pipeline it is no user
    assert!(backend.session_principal(Some("U"), 1).is_none());
    backend.begin_login(1000).unwrap();
    backend.handle_callback(&query(Some("C1"), 1000), Some("1000"), 1001).unwrap();
    assert_eq!(
        backend.authenticate(1000, ExchangeOutcome::Granted(cred("U", "AT", 9)), 1002).unwrap_err(),
        Error::CacheUnavailable
    );
}

#[test]
fn damaged_credential_is_an_error_not_anonymous() {
    let mut store = DurableStore::new();
    store.put_raw("U", vec![9, 9, 9]);
    let mut backend = Backend::new(client(), CredentialStore::Durable(store));
    assert_eq!(backend.credential("U").unwrap_err(), Error::CacheCorrupt);
    assert_eq!(backend.resolve_session("U", 1).unwrap_err(), Error::CacheCorrupt);
    assert!(backend.session_principal(Some("U"), 1).is_none());
    assert!(matches!(backend.resolve_session("V", 1), Ok(SessionOutcome::Anonymous)));
}

#[test]
fn user_is_bound_to_the_bytes_of_its_id() {
    let backend = logged_in("U-é", 5000);
    let user = backend.session_principal(Some("U-é"), 10).unwrap();
    assert_eq!(user.id(), "U-é");
    assert_eq!(user.session_auth_hash(), "U-é".as_bytes().to_vec());
}

#[test]
fn failures_are_sorted_by_cause() {
    assert_eq!(classify_exchange_failure(FailureCause::NoAnswer), ExchangeFailure::Transient);
    for code in [500, 503, 599] {
        assert_eq!(
            classify_exchange_failure(FailureCause::Status(code)),
            ExchangeFailure::Transient
        );
    }
    for code in [0, 200, 400, 403, 499, 600, u16::MAX] {
        assert_eq!(
            classify_exchange_failure(FailureCause::Status(code)),
            ExchangeFailure::Terminal
        );
    }
    assert_eq!(classify_exchange_failure(FailureCause::Other), ExchangeFailure::Terminal);
}

#[test]
fn lookup_finds_a_user_with_a_good_token() {
    let mut backend = logged_in("U", 5000);
    match backend.get_user("U", 4999, 0) {
        Ok(UserLookup::Found(Some(user))) => {
            assert_eq!(user.user_id, "U");
            assert_eq!(user.client, cred("U", "AT", 5000));
        }
        other => panic!("{:?}", other),
    }
    assert!(matches!(backend.get_user("V", 4999, 0), Ok(UserLookup::Found(None))));
}

#[test]
fn lookup_asks_one_caller_to_renew_and_the_others_to_wait() {
    let mut backend = logged_in("U", 5000);
    match backend.get_user("U", 5000, 0) {
        Ok(UserLookup::Renew(user)) => assert_eq!(user.client, cred("U", "AT", 5000)),
        other => panic!("{:?}", other),
    }
    for waited in [0, 1, 49] {
        assert!(matches!(backend.get_user("U", 5000, waited), Ok(UserLookup::Wait)));
    }
    // after the last wait there is no user
    for waited in [50, 51, u32::MAX] {
        assert!(matches!(backend.get_user("U", 5000, waited), Ok(UserLookup::Found(None))));
    }
    let renewed = backend.complete_refresh("U", ExchangeOutcome::Granted(cred("U", "AT2", 9000)));
    assert_eq!(renewed_user(renewed).unwrap().unwrap().client, cred("U", "AT2", 9000));
    assert!(matches!(backend.get_user("U", 5000, 50), Ok(UserLookup::Found(Some(_)))));
    assert_eq!(REFRESH_WAIT_TRIES, 50);
    assert_eq!(REFRESH_WAIT_MILLIS, 100);
}

#[test]
fn lookup_passes_store_errors_on() {
    let mut backend =
        Backend::new(client(), CredentialStore::Durable(DurableStore::unavailable()));
    assert_eq!(backend.get_user("U", 1, 0).unwrap_err(), Error::CacheUnavailable);
}

#[test]
fn failed_renewal_ends_the_lookup_without_a_user() {
    assert!(renewed_user(Err(Error::ExchangeFailed(ExchangeFailure::Terminal)))
        .unwrap()
        .is_none());
    assert!(renewed_user(Err(Error::ExchangeFailed(ExchangeFailure::Transient)))
        .unwrap()
        .is_none());
    assert!(renewed_user(Err(Error::ProfileFetchFailed)).unwrap().is_none());
    assert_eq!(renewed_user(Err(Error::CacheUnavailable)).unwrap_err(), Error::CacheUnavailable);
    assert_eq!(renewed_user(Err(Error::AlreadyConsumed)).unwrap_err(), Error::AlreadyConsumed);
    assert!(renewed_user(Ok(None)).unwrap().is_none());
}

#[test]
fn stored_credential_has_its_scopes_as_sets() {
    let mut backend = backend();
    backend.begin_login(1000).unwrap();
    backend.handle_callback(&query(Some("C1"), 1000), Some("1000"), 1001).unwrap();
    let mut granted = cred("U", "AT", 99999);
    granted.scopes.push("user-top-read".to_string());
    granted.token.scopes.push("user-top-read".to_string());
    let user = backend
        .authenticate(1000, ExchangeOutcome::Granted(granted), 1002)
        .unwrap()
        .unwrap();
    assert_eq!(user.client, cred("U", "AT", 99999));
    assert_eq!(backend.credential("U").unwrap().unwrap(), cred("U", "AT", 99999));
}
