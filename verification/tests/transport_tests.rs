use starify::auth::{Error, ExchangeFailure};
use starify::state::issue;
use starify::transport::{
    callback_response, state_cookie, CallbackResponse, CallbackResult, ANONYMOUS_ROUTE,
    DASHBOARD_ROUTE,
};
use starify::{CALLBACK_ENDPOINT, LOGIN_STATE_KEY};

#[test]
fn state_cookie_has_every_attribute() {
    let state = issue(1000);
    assert_eq!(
        state_cookie(&state, "127.0.0.1"),
        "login_state=1000; SameSite=None; Secure; Path=/; Domain=127.0.0.1; Max-Age=3600"
    );
}

#[test]
fn state_cookie_drops_the_leading_dot_of_the_domain() {
    let state = issue(42);
    assert_eq!(
        state_cookie(&state, ".example.com"),
        "login_state=42; SameSite=None; Secure; Path=/; Domain=example.com; Max-Age=3600"
    );
}

#[test]
fn state_cookie_of_a_negative_time() {
    let state = issue(-7);
    assert_eq!(
        state_cookie(&state, "h"),
        "login_state=-7; SameSite=None; Secure; Path=/; Domain=h; Max-Age=3600"
    );
}

#[test]
fn login_redirects_to_the_dashboard() {
    assert_eq!(
        callback_response(CallbackResult::LoggedIn),
        CallbackResponse { status: 303, location: Some("/dashboard"), clear_state_cookie: true }
    );
}

#[test]
fn refusal_redirects_to_the_landing_page() {
    for e in [
        Error::StateMissing,
        Error::StateMismatch,
        Error::StateExpired,
        Error::AlreadyConsumed,
        Error::CodeMissing,
        Error::ExchangeFailed(ExchangeFailure::Terminal),
        Error::ProfileFetchFailed,
    ] {
        assert_eq!(
            callback_response(CallbackResult::Refused(e)),
            CallbackResponse { status: 303, location: Some("/"), clear_state_cookie: true }
        );
    }
}

#[test]
fn failed_session_is_a_server_error() {
    assert_eq!(
        callback_response(CallbackResult::SessionFailed),
        CallbackResponse { status: 500, location: None, clear_state_cookie: false }
    );
}

#[test]
fn routes_and_names_are_fixed() {
    assert_eq!(CALLBACK_ENDPOINT, "/authorize");
    assert_eq!(LOGIN_STATE_KEY, "login_state");
    assert_eq!(ANONYMOUS_ROUTE, "/");
    assert_eq!(DASHBOARD_ROUTE, "/dashboard");
}
