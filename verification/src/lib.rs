//! Authentication and session backend for an OAuth login flow.

use vstd::prelude::*;

pub mod auth;
pub mod client;
pub mod codec;
pub mod decimal;
pub mod errors;
pub mod inflight;
pub mod ledger;
pub mod login;
pub mod state;
pub mod store;
pub mod table;
pub mod transport;

verus! {

/// Path of the endpoint that receives the provider's redirect.
pub const CALLBACK_ENDPOINT: &'static str = "/authorize";

/// Name of the cookie that carries the login state to the browser and back.
pub const LOGIN_STATE_KEY: &'static str = "login_state";

/// The scopes that a login asks the provider for.
pub const SPOTIFY_SCOPES: [&'static str; 2] = ["user-top-read", "user-follow-read"];

} // verus!
