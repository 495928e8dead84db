//! What goes over the wire around a login: the cookie that carries the
//! state to the browser, and the response that answers the callback.

use vstd::prelude::*;
use vstd::string::*;
use axum_extra::extract::cookie::Cookie;
use crate::auth::Error;
use crate::decimal::spec_decimal;
use crate::state::LoginState;
use crate::LOGIN_STATE_KEY;

verus! {

/// The landing route of a visitor who is not logged in.
pub const ANONYMOUS_ROUTE: &'static str = "/";

/// The landing route of a user who has just logged in.
pub const DASHBOARD_ROUTE: &'static str = "/dashboard";

/// When a browser sends a cookie along with requests that come from another
/// site.
#[derive(Clone, Copy, Debug, PartialEq, Eq, Structural)]
pub enum SameSite {
    /// Never.
    Strict,
    /// Only when the visitor follows a link.
    Lax,
    /// Always.
    CrossSite,
}

/// The attribute text of a same-site rule. A cookie that is sent along from
/// every site is marked secure as well.
pub open spec fn spec_same_site_text(rule: SameSite) -> Seq<char> {
    match rule {
        SameSite::Strict => "; SameSite=Strict"@,
        SameSite::Lax => "; SameSite=Lax"@,
        SameSite::CrossSite => "; SameSite=None; Secure"@,
    }
}

/// A domain without the dot it may start with.
pub open spec fn spec_bare_domain(domain: Seq<char>) -> Seq<char> {
    if domain.len() > 0 && domain[0] == '.' {
        domain.skip(1)
    } else {
        domain
    }
}

/// The value of a `Set-Cookie` header for a cookie with a same-site rule, a
/// path, a domain and a lifetime in seconds.
pub open spec fn spec_cookie_text(
    name: Seq<char>,
    value: Seq<char>,
    rule: SameSite,
    path: Seq<char>,
    domain: Seq<char>,
    max_age: i64,
) -> Seq<char> {
    name + "="@ + value + spec_same_site_text(rule) + "; Path="@ + path + "; Domain="@
        + spec_bare_domain(domain) + "; Max-Age="@ + spec_decimal(max_age as int)
}

/// Writes a cookie as the value of a `Set-Cookie` header, with
/// `Cookie::build`, the builder's `max_age`, `path`, `same_site` and
/// `domain`, and the cookie's `to_string`. The text is the name, `=` and the
/// value as they are, then the attributes in the order same-site rule, path,
/// domain, lifetime; the rule that sends the cookie from every site brings `Secure` with it, and a dot at
/// the start of the domain is left out.
#[verifier::external_body]
fn cookie_text(
    name: &str,
    value: &str,
    rule: SameSite,
    path: &str,
    domain: &str,
    max_age: i64,
) -> (text: String)
    ensures
        text@ == spec_cookie_text(name@, value@, rule, path@, domain@, max_age),
{
    let rule = match rule {
        SameSite::Strict => axum_extra::extract::cookie::SameSite::Strict,
        SameSite::Lax => axum_extra::extract::cookie::SameSite::Lax,
        SameSite::CrossSite => axum_extra::extract::cookie::SameSite::None,
    };
    let age = time::Duration::seconds(max_age);
    Cookie::build(name, value).max_age(age).path(path).same_site(rule).domain(domain).finish()
        .to_string()
}

/// The `Set-Cookie` header value that hands a login state to the browser:
/// under the fixed name, for every path of `domain`, sent along from other
/// sites too, and kept for as long as the state lives.
pub fn state_cookie(state: &LoginState, domain: &str) -> (header: String)
    ensures
        header@ == spec_cookie_text(
            LOGIN_STATE_KEY@,
            state.value@,
            SameSite::CrossSite,
            "/"@,
            domain@,
            state.ttl,
        ),
{
    cookie_text(LOGIN_STATE_KEY, state.value.as_str(), SameSite::CrossSite, "/", domain, state.ttl)
}

/// How a callback ended.
#[derive(Clone, Copy, Debug, PartialEq, Eq, Structural)]
pub enum CallbackResult {
    /// The user is logged in.
    LoggedIn,
    /// The callback was refused, or the exchange failed.
    Refused(Error),
    /// The login went through, but the session could not be set up.
    SessionFailed,
}

/// The response to a callback, as far as the backend decides it.
#[derive(Clone, Copy, Debug, PartialEq, Eq)]
pub struct CallbackResponse {
    /// The HTTP status.
    pub status: u16,
    /// Where the browser is sent, if anywhere.
    pub location: Option<&'static str>,
    /// Whether the state cookie is cleared.
    pub clear_state_cookie: bool,
}

/// The response that answers a callback. A login and a refusal both
/// redirect with 303 and clear the state cookie, the one to the dashboard,
/// the other to the anonymous landing page, which tells the visitor nothing
/// of why. A session that could not be set up is a 500.
pub fn callback_response(result: CallbackResult) -> (response: CallbackResponse)
    ensures
        match result {
            CallbackResult::LoggedIn => response.status == 303 && response.location == Some(
                DASHBOARD_ROUTE,
            ) && response.clear_state_cookie,
            CallbackResult::Refused(_) => response.status == 303 && response.location == Some(
                ANONYMOUS_ROUTE,
            ) && response.clear_state_cookie,
            CallbackResult::SessionFailed => response.status == 500 && response.location is None
                && !response.clear_state_cookie,
        },
{
    match result {
        CallbackResult::LoggedIn => CallbackResponse {
            status: 303,
            location: Some(DASHBOARD_ROUTE),
            clear_state_cookie: true,
        },
        CallbackResult::Refused(_) => CallbackResponse {
            status: 303,
            location: Some(ANONYMOUS_ROUTE),
            clear_state_cookie: true,
        },
        CallbackResult::SessionFailed => CallbackResponse {
            status: 500,
            location: None,
            clear_state_cookie: false,
        },
    }
}

} // verus!
