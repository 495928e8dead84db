//! The authentication backend: it issues login states, checks callbacks,
//! keeps each user's credential, and resolves a session to its user.
//!
//! The backend does no network call. Where one is due it says so in what it
//! returns; the caller makes the call and hands the outcome back.

use vstd::prelude::*;
use vstd::string::*;
use rspotify::AuthCodeSpotify;
use crate::client::{PackedClient, PackedClientView};
use crate::decimal::{
    lemma_decimal_injective,
    lemma_decimal_is_plain,
    spec_decimal,
    spec_plain_number_text,
};
use crate::inflight::InFlight;
use crate::ledger::{
    spec_next_state,
    spec_state_expired,
    spec_unexpired,
    state_expired,
    Attempt,
    Ledger,
    Phase,
};
use crate::state::{
    issue_numbered,
    unix_now,
    validate,
    LoginState,
    StateCheck,
    LOGIN_STATE_TTL_SECS,
};
use crate::store::{CredentialStore, StoreError};
use crate::transport::{spec_cookie_text, state_cookie, SameSite};
use crate::LOGIN_STATE_KEY;

verus! {

/// The provider's client type. The backend carries one and never looks
/// inside.
#[verifier::external_type_specification]
#[verifier::external_body]
pub struct ExAuthCodeSpotify(rspotify::AuthCodeSpotify);

/// The query of the callback request.
#[derive(Debug)]
pub struct CallbackQuery {
    pub code: Option<String>,
    pub state: i64,
}

/// What a login is completed with: the authorization code.
#[derive(Debug)]
pub struct Credentials {
    pub code: String,
}

/// Whether a failed exchange is worth trying again.
#[derive(Clone, Copy, Debug, PartialEq, Eq, Structural)]
pub enum ExchangeFailure {
    /// The network failed or the provider had a fault of its own.
    Transient,
    /// The provider refused.
    Terminal,
}

/// Why the backend refused.
#[derive(Clone, Copy, Debug, PartialEq, Eq, Structural)]
pub enum Error {
    /// The callback came without the state that the browser should hold.
    StateMissing,
    /// The presented state is not the one held, or was never issued.
    StateMismatch,
    /// The presented state has outlived its lifetime.
    StateExpired,
    /// The presented state was used before.
    AlreadyConsumed,
    /// The callback came without a code.
    CodeMissing,
    /// Exchanging the code, or renewing the token, failed.
    ExchangeFailed(ExchangeFailure),
    /// The provider did not give the user's profile.
    ProfileFetchFailed,
    /// What the store holds for the user is not a credential.
    CacheCorrupt,
    /// The store cannot be reached.
    CacheUnavailable,
}

/// The error of the backend that stands for an error of the store.
pub open spec fn spec_store_error(e: StoreError) -> Error {
    match e {
        StoreError::CacheCorrupt => Error::CacheCorrupt,
        StoreError::CacheUnavailable => Error::CacheUnavailable,
    }
}

/// The error of the backend that stands for an error of the store.
pub fn store_error(e: StoreError) -> (error: Error)
    ensures
        error == spec_store_error(e),
{
    match e {
        StoreError::CacheCorrupt => Error::CacheCorrupt,
        StoreError::CacheUnavailable => Error::CacheUnavailable,
    }
}

/// What lies behind a failed exchange.
#[derive(Clone, Copy, Debug, PartialEq, Eq, Structural)]
pub enum FailureCause {
    /// The provider gave no answer: the network failed.
    NoAnswer,
    /// The provider answered with this HTTP status.
    Status(u16),
    /// Anything else: the answer could not be read, or the request could
    /// not be made.
    Other,
}

/// Whether a failure with this cause may pass: one without an answer, or
/// with a status from 500 to 599, may; any other is final.
pub open spec fn spec_exchange_failure(cause: FailureCause) -> ExchangeFailure {
    match cause {
        FailureCause::NoAnswer => ExchangeFailure::Transient,
        FailureCause::Status(code) => if 500 <= code <= 599 {
            ExchangeFailure::Transient
        } else {
            ExchangeFailure::Terminal
        },
        FailureCause::Other => ExchangeFailure::Terminal,
    }
}

/// Sorts a failed exchange by its cause.
pub fn classify_exchange_failure(cause: FailureCause) -> (kind: ExchangeFailure)
    ensures
        kind == spec_exchange_failure(cause),
{
    match cause {
        FailureCause::NoAnswer => ExchangeFailure::Transient,
        FailureCause::Status(code) => if 500 <= code && code <= 599 {
            ExchangeFailure::Transient
        } else {
            ExchangeFailure::Terminal
        },
        FailureCause::Other => ExchangeFailure::Terminal,
    }
}

/// Why a callback is refused, or `None` where it is accepted. The checks
/// come in this order: the presented state must have been issued; a state
/// must be held; the held one must be the text of the presented one; the
/// presented one must not have been used; it must not have outlived its
/// lifetime, counted from the second its login was started; and a code must
/// have come with it.
pub open spec fn spec_callback_refusal(
    attempts: Map<i64, Attempt>,
    code_present: bool,
    state: i64,
    stored: Option<Seq<char>>,
    now: i64,
) -> Option<Error> {
    if !attempts.contains_key(state) {
        Some(Error::StateMismatch)
    } else {
        match stored {
            None => Some(Error::StateMissing),
            Some(text) => if text != spec_decimal(state as int) {
                Some(Error::StateMismatch)
            } else if attempts[state].phase != Phase::Issued {
                Some(Error::AlreadyConsumed)
            } else if spec_state_expired(attempts[state].issued_at, now) {
                Some(Error::StateExpired)
            } else if !code_present {
                Some(Error::CodeMissing)
            } else {
                None
            },
        }
    }
}

/// The attempts with the one under `state` moved to `phase`.
pub open spec fn spec_moved(attempts: Map<i64, Attempt>, state: i64, phase: Phase) -> Map<
    i64,
    Attempt,
> {
    attempts.insert(state, Attempt { issued_at: attempts[state].issued_at, phase })
}

/// The attempts after a callback: an accepted one is pending, one that came
/// too late or without a code is used up, and any other refusal changes
/// nothing.
pub open spec fn spec_callback_attempts(
    attempts: Map<i64, Attempt>,
    state: i64,
    refusal: Option<Error>,
) -> Map<i64, Attempt> {
    match refusal {
        None => spec_moved(attempts, state, Phase::Pending),
        Some(Error::StateExpired) => spec_moved(attempts, state, Phase::Done),
        Some(Error::CodeMissing) => spec_moved(attempts, state, Phase::Done),
        Some(_) => attempts,
    }
}

/// The authentication backend.
pub struct Backend {
    client: AuthCodeSpotify,
    store: CredentialStore,
    ledger: Ledger,
    refreshing: InFlight,
}

impl Backend {
    /// The backend's invariant: those of its parts.
    pub closed spec fn wf(&self) -> bool {
        &&& self.store.wf()
        &&& self.ledger.wf()
        &&& self.refreshing.wf()
    }

    /// The credential store.
    pub closed spec fn store(&self) -> CredentialStore {
        self.store
    }

    /// The login attempts that the backend knows of, each under the number
    /// of its state.
    pub closed spec fn attempts(&self) -> Map<i64, Attempt> {
        self.ledger@
    }

    /// The last number that a state was issued under, if any was.
    pub closed spec fn high_water(&self) -> Option<i64> {
        self.ledger.high_water()
    }

    /// The users whose token is being renewed.
    pub closed spec fn refreshing(&self) -> Set<Seq<char>> {
        self.refreshing@
    }

    /// Whether the sessions are as in `before`: the store is the same, to
    /// the last stored byte, and the same renewals are under way.
    pub open spec fn same_sessions(&self, before: &Backend) -> bool {
        &&& self.store() == before.store()
        &&& self.refreshing() == before.refreshing()
    }

    /// Whether the login attempts are as in `before`.
    pub open spec fn same_attempts(&self, before: &Backend) -> bool {
        &&& self.attempts() == before.attempts()
        &&& self.high_water() == before.high_water()
    }

    /// A backend over `store` that knows of no login attempt.
    pub fn new(client: AuthCodeSpotify, store: CredentialStore) -> (backend: Backend)
        requires
            store.wf(),
        ensures
            backend.wf(),
            backend.store() == store,
            backend.attempts() == Map::<i64, Attempt>::empty(),
            backend.high_water() is None,
            backend.refreshing() == Set::<Seq<char>>::empty(),
    {
        Backend { client, store, ledger: Ledger::new(), refreshing: InFlight::new() }
    }

    /// The URL that sends the browser to the provider for a login that
    /// carries `state`; `None` where the client could not build one. A URL
    /// that is built asks for a code and for the consent dialog, and carries
    /// the state as its `state` parameter; the last is stated for states made
    /// of digits and minus signs, which go into a URL as they are.
    pub fn authorize_url(&self, state: String) -> (url: Option<String>)
        ensures
            url matches Some(u) ==> spec_authorize_url(u@, state@),
    {
        client_authorize_url(&self.client, state)
    }

    /// Starts a login at second `now`: issues a state under a number that
    /// no login had before and records the attempt with the second it was
    /// started at. `None`, and no change, when no number is left.
    pub fn begin_login(&mut self, now: i64) -> (issued: Option<LoginState>)
        requires
            old(self).wf(),
        ensures
            final(self).wf(),
            final(self).same_sessions(old(self)),
            match spec_next_state(old(self).high_water(), now) {
                Some(at) => {
                    &&& issued is Some
                    &&& issued->0.number == at
                    &&& issued->0.issued_at == now
                    &&& issued->0.value@ == spec_decimal(at as int)
                    &&& issued->0.ttl == LOGIN_STATE_TTL_SECS
                    &&& !old(self).attempts().contains_key(at)
                    &&& final(self).attempts() == old(self).attempts().insert(
                        at,
                        Attempt { issued_at: now, phase: Phase::Issued },
                    )
                    &&& final(self).high_water() == Some(at)
                },
                None => issued is None && final(self).same_attempts(old(self)),
            },
    {
        match self.ledger.issue(now) {
            Some(at) => Some(issue_numbered(at, now)),
            None => None,
        }
    }

    /// Starts a login at second `now` for a browser at `domain`: issues the
    /// state as `begin_login` does, and gives with it the cookie that hands
    /// the state to the browser and the URL that sends the browser to the
    /// provider, if the client could build one.
    pub fn start_login(&mut self, now: i64, domain: &str) -> (started: Option<LoginStart>)
        requires
            old(self).wf(),
        ensures
            final(self).wf(),
            final(self).same_sessions(old(self)),
            match spec_next_state(old(self).high_water(), now) {
                Some(at) => {
                    &&& started is Some
                    &&& started->0.state.number == at
                    &&& started->0.state.issued_at == now
                    &&& started->0.state.value@ == spec_decimal(at as int)
                    &&& started->0.state.ttl == LOGIN_STATE_TTL_SECS
                    &&& started->0.cookie@ == spec_cookie_text(
                        LOGIN_STATE_KEY@,
                        spec_decimal(at as int),
                        SameSite::CrossSite,
                        "/"@,
                        domain@,
                        LOGIN_STATE_TTL_SECS,
                    )
                    &&& started->0.url matches Some(u) ==> spec_authorize_url(
                        u@,
                        spec_decimal(at as int),
                    ) && spec_carries_state(u@, spec_decimal(at as int))
                    &&& !old(self).attempts().contains_key(at)
                    &&& final(self).attempts() == old(self).attempts().insert(
                        at,
                        Attempt { issued_at: now, phase: Phase::Issued },
                    )
                    &&& final(self).high_water() == Some(at)
                },
                None => started is None && final(self).same_attempts(old(self)),
            },
    {
        let state = match self.begin_login(now) {
            Some(state) => state,
            None => { return None; },
        };
        let cookie = state_cookie(&state, domain);
        proof {
            lemma_decimal_is_plain(state.number as int);
        }
        let url = self.authorize_url(state.value.clone());
        Some(LoginStart { state, cookie, url })
    }

    /// Starts a login now, by the system clock, for a browser at `domain`.
    /// The attempt is recorded with the second that the clock gave; the
    /// state's number is that second, or the number after the last that was
    /// issued where that is not smaller.
    pub fn start_login_now(&mut self, domain: &str) -> (started: Option<LoginStart>)
        requires
            old(self).wf(),
        ensures
            final(self).wf(),
            final(self).same_sessions(old(self)),
            match started {
                Some(login) => {
                    &&& login.state.wf()
                    &&& login.state.ttl == LOGIN_STATE_TTL_SECS
                    &&& login.cookie@ == spec_cookie_text(
                        LOGIN_STATE_KEY@,
                        login.state.value@,
                        SameSite::CrossSite,
                        "/"@,
                        domain@,
                        LOGIN_STATE_TTL_SECS,
                    )
                    &&& login.url matches Some(u) ==> spec_authorize_url(u@, login.state.value@)
                        && spec_carries_state(u@, login.state.value@)
                    &&& Some(login.state.number) == spec_next_state(
                        old(self).high_water(),
                        login.state.issued_at,
                    )
                    &&& !old(self).attempts().contains_key(login.state.number)
                    &&& final(self).attempts() == old(self).attempts().insert(
                        login.state.number,
                        Attempt { issued_at: login.state.issued_at, phase: Phase::Issued },
                    )
                    &&& final(self).high_water() == Some(login.state.number)
                },
                None => old(self).high_water() == Some(i64::MAX) && final(self).same_attempts(
                    old(self),
                ),
            },
    {
        self.start_login(unix_now(), domain)
    }

    /// The bytes that belong on disk under `user_id`, if any: whoever owns
    /// the disk writes them through after each call that changes the store.
    pub fn stored(&self, user_id: &str) -> (bytes: Option<Vec<u8>>)
        requires
            self.wf(),
        ensures
            bytes.deep_view() == self.store().spec_stored(user_id@),
    {
        self.store.stored(user_id)
    }

    /// Marks the store as out of reach, or as within reach again.
    pub fn set_store_available(&mut self, available: bool)
        requires
            old(self).wf(),
        ensures
            final(self).wf(),
            final(self).same_attempts(old(self)),
            final(self).refreshing() == old(self).refreshing(),
            final(self).store().same_kind(&old(self).store()),
            final(self).store().is_available() == (available || old(self).store() is Memory),
            forall|k: Seq<char>| #[trigger]
                final(self).store().spec_stored(k) == old(self).store().spec_stored(k),
            final(self).store().is_available() == old(self).store().is_available()
                ==> final(self).store().reads_as(&old(self).store()),
    {
        self.store.set_available(available);
    }

    /// Forgets every login attempt whose state has outlived its lifetime at
    /// second `now`. A state that was forgotten is unknown from then on.
    pub fn forget_expired(&mut self, now: i64)
        requires
            old(self).wf(),
        ensures
            final(self).wf(),
            final(self).same_sessions(old(self)),
            final(self).high_water() == old(self).high_water(),
            final(self).attempts() == spec_unexpired(old(self).attempts(), now),
    {
        self.ledger.forget_expired(now);
    }

    /// Checks a callback at second `now` against the state that the browser
    /// holds, `stored_state`, and against the attempts on record. An accepted
    /// callback gives the code to exchange, and its attempt is pending from
    /// then on, so that no second callback is accepted for it.
    pub fn handle_callback(
        &mut self,
        query: &CallbackQuery,
        stored_state: Option<&str>,
        now: i64,
    ) -> (accepted: Result<Credentials, Error>)
        requires
            old(self).wf(),
        ensures
            final(self).wf(),
            final(self).same_sessions(old(self)),
            final(self).high_water() == old(self).high_water(),
            ({
                let refusal = spec_callback_refusal(
                    old(self).attempts(),
                    query.code is Some,
                    query.state,
                    stored_view(stored_state),
                    now,
                );
                &&& final(self).attempts() == spec_callback_attempts(
                    old(self).attempts(),
                    query.state,
                    refusal,
                )
                &&& match accepted {
                    Ok(credentials) => refusal is None && query.code is Some && credentials.code@
                        == query.code->0@,
                    Err(e) => refusal == Some(e),
                }
            }),
    {
        let attempt = match self.ledger.attempt(query.state) {
            Some(attempt) => attempt,
            None => { return Err(Error::StateMismatch); },
        };
        let held = match stored_state {
            Some(text) => text,
            None => { return Err(Error::StateMissing); },
        };
        let presented = issue_numbered(query.state, attempt.issued_at);
        let check = validate(held, &presented, now);
        if check == StateCheck::Mismatched {
            return Err(Error::StateMismatch);
        }
        match attempt.phase {
            Phase::Issued => {},
            _ => { return Err(Error::AlreadyConsumed); },
        }
        if check == StateCheck::Expired {
            self.ledger.advance(query.state, Phase::Done);
            return Err(Error::StateExpired);
        }
        match &query.code {
            Some(code) => {
                self.ledger.advance(query.state, Phase::Pending);
                Ok(Credentials { code: code.clone() })
            },
            None => {
                self.ledger.advance(query.state, Phase::Done);
                Err(Error::CodeMissing)
            },
        }
    }

    /// Completes, at second `now`, the login whose callback was accepted
    /// under `state`, with what the exchange of its code gave. A granted
    /// credential is stored under its user, with its scopes as sets, and the
    /// user returned. An exchange
    /// that took longer than the state lives counts as expired: nothing is
    /// stored. The attempt is used up either way. Where no callback is
    /// pending under `state`, nothing is stored and nothing changes.
    pub fn authenticate(&mut self, state: i64, outcome: ExchangeOutcome, now: i64) -> (user: Result<
        Option<User>,
        Error,
    >)
        requires
            old(self).wf(),
        ensures
            final(self).wf(),
            final(self).high_water() == old(self).high_water(),
            final(self).refreshing() == old(self).refreshing(),
            final(self).store().same_kind(&old(self).store()),
            final(self).store().is_available() == old(self).store().is_available(),
            match spec_authenticate_refusal(old(self).attempts(), state, now) {
                Some(e) => {
                    &&& user == Err::<Option<User>, Error>(e)
                    &&& final(self).same_sessions(old(self))
                    &&& final(self).attempts() == (if e == Error::StateExpired {
                        spec_moved(old(self).attempts(), state, Phase::Done)
                    } else {
                        old(self).attempts()
                    })
                },
                None => {
                    &&& final(self).attempts() == spec_moved(
                        old(self).attempts(),
                        state,
                        Phase::Done,
                    )
                    &&& match outcome {
                        ExchangeOutcome::Granted(client) => if old(self).store().is_available() {
                            &&& user is Ok
                            &&& user->Ok_0 is Some
                            &&& user->Ok_0->0@ == (UserView {
                                user_id: client.user_id@,
                                client: client@.normalized(),
                            })
                            &&& final(self).store().read(client.user_id@) == Ok::<
                                Option<PackedClientView>,
                                StoreError,
                            >(Some(client@.normalized()))
                            &&& client@.normalized().wf()
                            &&& client@.wf() ==> client@.normalized() == client@
                            &&& final(self).store().reads_as_but(
                                &old(self).store(),
                                client.user_id@,
                            )
                        } else {
                            &&& user == Err::<Option<User>, Error>(Error::CacheUnavailable)
                            &&& final(self).same_sessions(old(self))
                        },
                        ExchangeOutcome::Failed(kind) => {
                            &&& user == Err::<Option<User>, Error>(Error::ExchangeFailed(kind))
                            &&& final(self).same_sessions(old(self))
                        },
                        ExchangeOutcome::ProfileFailed => {
                            &&& user == Err::<Option<User>, Error>(Error::ProfileFetchFailed)
                            &&& final(self).same_sessions(old(self))
                        },
                    }
                },
            },
    {
        let attempt = match self.ledger.attempt(state) {
            Some(attempt) => attempt,
            None => { return Err(Error::StateMismatch); },
        };
        match attempt.phase {
            Phase::Pending => {},
            Phase::Done => { return Err(Error::AlreadyConsumed); },
            Phase::Issued => { return Err(Error::StateMismatch); },
        }
        self.ledger.advance(state, Phase::Done);
        if state_expired(attempt.issued_at, now) {
            return Err(Error::StateExpired);
        }
        match outcome {
            ExchangeOutcome::Granted(client) => {
                let client = client.normalized();
                let user = User { user_id: client.user_id.clone(), client: client.clone() };
                match self.store.put(user.user_id.as_str(), client) {
                    Ok(()) => Ok(Some(user)),
                    Err(e) => Err(store_error(e)),
                }
            },
            ExchangeOutcome::Failed(kind) => Err(Error::ExchangeFailed(kind)),
            ExchangeOutcome::ProfileFailed => Err(Error::ProfileFetchFailed),
        }
    }

    /// The credential that the store holds for `user_id`, as it is stored:
    /// a plain read of the store, which renews nothing and says nothing of
    /// whether the token is still good.
    pub fn credential(&self, user_id: &str) -> (found: Result<Option<PackedClient>, Error>)
        requires
            self.wf(),
        ensures
            match self.store().read(user_id@) {
                Ok(Some(client)) => found matches Ok(Some(held)) && held@ == client,
                Ok(None) => found matches Ok(None),
                Err(e) => found matches Err(refusal) && refusal == spec_store_error(e),
            },
    {
        match self.store.get(user_id) {
            Ok(found) => Ok(found),
            Err(e) => Err(store_error(e)),
        }
    }

    /// Looks up the user of the session `user_id` at second `now`, for a
    /// caller that has waited `waited` times for a renewal already. The
    /// session is resolved as `resolve_session` does. A user with a good
    /// token is found; a session without a credential has no user. Where
    /// the token is due, the caller is told to renew it, or, while another
    /// caller is at it, to wait and ask again; once it has waited as often
    /// as is allowed, the session has no user.
    pub fn get_user(&mut self, user_id: &str, now: i64, waited: u32) -> (found: Result<
        UserLookup,
        Error,
    >)
        requires
            old(self).wf(),
        ensures
            final(self).wf(),
            final(self).same_attempts(old(self)),
            final(self).store() == old(self).store(),
            lookup_kind(found) == spec_lookup(
                spec_resolution(
                    old(self).store().read(user_id@),
                    old(self).refreshing().contains(user_id@),
                    now,
                ),
                waited,
            ),
            final(self).refreshing() == (if lookup_kind(found) == Ok::<LookupKind, Error>(
                LookupKind::Renew,
            ) {
                old(self).refreshing().insert(user_id@)
            } else {
                old(self).refreshing()
            }),
            lookup_user(found) matches Some(user) ==> old(self).store().read(user_id@) == Ok::<
                Option<PackedClientView>,
                StoreError,
            >(Some(user.client)) && user.user_id == user_id@,
    {
        match self.resolve_session(user_id, now) {
            Ok(SessionOutcome::Anonymous) => Ok(UserLookup::Found(None)),
            Ok(SessionOutcome::Authenticated(user)) => Ok(UserLookup::Found(Some(user))),
            Ok(SessionOutcome::Refresh(user)) => Ok(UserLookup::Renew(user)),
            Ok(SessionOutcome::RefreshPending) => if waited < REFRESH_WAIT_TRIES {
                Ok(UserLookup::Wait)
            } else {
                Ok(UserLookup::Found(None))
            },
            Err(e) => Err(e),
        }
    }

    /// Resolves the session `user_id` at second `now`. A session without a
    /// credential is anonymous. One whose token is due for renewal asks the
    /// caller to renew it, unless a renewal is under way already: from the
    /// first such answer until the renewal is completed, every other caller
    /// is told to wait.
    pub fn resolve_session(&mut self, user_id: &str, now: i64) -> (outcome: Result<
        SessionOutcome,
        Error,
    >)
        requires
            old(self).wf(),
        ensures
            final(self).wf(),
            final(self).same_attempts(old(self)),
            final(self).store() == old(self).store(),
            outcome_kind(outcome) == spec_resolution(
                old(self).store().read(user_id@),
                old(self).refreshing().contains(user_id@),
                now,
            ),
            final(self).refreshing() == (if outcome_kind(outcome) == Ok::<Resolution, Error>(
                Resolution::Refresh,
            ) {
                old(self).refreshing().insert(user_id@)
            } else {
                old(self).refreshing()
            }),
            outcome_user(outcome) matches Some(user) ==> old(self).store().read(user_id@) == Ok::<
                Option<PackedClientView>,
                StoreError,
            >(Some(user.client)) && user.user_id == user_id@,
    {
        let client = match self.store.get(user_id) {
            Ok(Some(client)) => client,
            Ok(None) => { return Ok(SessionOutcome::Anonymous); },
            Err(e) => { return Err(store_error(e)); },
        };
        let user_id_owned = user_id.to_owned();
        if !client.token.is_expired(now) {
            Ok(SessionOutcome::Authenticated(User { user_id: user_id_owned, client }))
        } else if self.refreshing.contains(user_id) {
            Ok(SessionOutcome::RefreshPending)
        } else {
            self.refreshing.insert(user_id);
            Ok(SessionOutcome::Refresh(User { user_id: user_id_owned, client }))
        }
    }

    /// Completes the renewal that `resolve_session` asked for, with what it
    /// gave. A renewed credential takes the place of the old one. A renewal
    /// that the provider refused for good takes the credential out; one that
    /// failed in passing leaves it, to be tried again at the next use. Where
    /// no renewal is under way for `user_id`, nothing changes.
    pub fn complete_refresh(&mut self, user_id: &str, outcome: ExchangeOutcome) -> (user: Result<
        Option<User>,
        Error,
    >)
        requires
            old(self).wf(),
        ensures
            final(self).wf(),
            final(self).same_attempts(old(self)),
            final(self).store().same_kind(&old(self).store()),
            final(self).store().is_available() == old(self).store().is_available(),
            final(self).refreshing() == old(self).refreshing().remove(user_id@),
            final(self).store().reads_as_but(&old(self).store(), user_id@),
            !old(self).refreshing().contains(user_id@) ==> user == Err::<Option<User>, Error>(
                Error::AlreadyConsumed,
            ) && final(self).store().reads_as(&old(self).store()),
            old(self).refreshing().contains(user_id@) ==> match outcome {
                ExchangeOutcome::Granted(client) => if old(self).store().is_available() {
                    &&& user is Ok
                    &&& user->Ok_0 is Some
                    &&& user->Ok_0->0@ == (UserView {
                        user_id: user_id@,
                        client: client@.normalized(),
                    })
                    &&& final(self).store().read(user_id@) == Ok::<
                        Option<PackedClientView>,
                        StoreError,
                    >(Some(client@.normalized()))
                    &&& client@.normalized().wf()
                    &&& client@.wf() ==> client@.normalized() == client@
                } else {
                    &&& user == Err::<Option<User>, Error>(Error::CacheUnavailable)
                    &&& final(self).store().reads_as(&old(self).store())
                },
                ExchangeOutcome::Failed(ExchangeFailure::Terminal) => {
                    &&& user == Err::<Option<User>, Error>(
                        Error::ExchangeFailed(ExchangeFailure::Terminal),
                    )
                    &&& if old(self).store().is_available() {
                        final(self).store().read(user_id@) == Ok::<
                            Option<PackedClientView>,
                            StoreError,
                        >(None)
                    } else {
                        final(self).store().reads_as(&old(self).store())
                    }
                },
                ExchangeOutcome::Failed(ExchangeFailure::Transient) => {
                    &&& user == Err::<Option<User>, Error>(
                        Error::ExchangeFailed(ExchangeFailure::Transient),
                    )
                    &&& final(self).store().reads_as(&old(self).store())
                },
                ExchangeOutcome::ProfileFailed => {
                    &&& user == Err::<Option<User>, Error>(Error::ProfileFetchFailed)
                    &&& final(self).store().reads_as(&old(self).store())
                },
            },
    {
        if !self.refreshing.contains(user_id) {
            proof {
                assert(self.refreshing@.remove(user_id@) =~= self.refreshing@);
            }
            return Err(Error::AlreadyConsumed);
        }
        self.refreshing.remove(user_id);
        match outcome {
            ExchangeOutcome::Granted(client) => {
                let client = client.normalized();
                let user = User { user_id: user_id.to_owned(), client: client.clone() };
                match self.store.put(user_id, client) {
                    Ok(()) => Ok(Some(user)),
                    Err(e) => Err(store_error(e)),
                }
            },
            ExchangeOutcome::Failed(ExchangeFailure::Terminal) => {
                let _ = self.store.remove(user_id);
                Err(Error::ExchangeFailed(ExchangeFailure::Terminal))
            },
            ExchangeOutcome::Failed(ExchangeFailure::Transient) => Err(
                Error::ExchangeFailed(ExchangeFailure::Transient),
            ),
            ExchangeOutcome::ProfileFailed => Err(Error::ProfileFetchFailed),
        }
    }

    /// Logs `user_id` out: takes its credential out of the store and drops
    /// any renewal under way for it. Fails, with the credential left in
    /// place, when the store is out of reach.
    pub fn logout(&mut self, user_id: &str) -> (done: Result<(), Error>)
        requires
            old(self).wf(),
        ensures
            final(self).wf(),
            final(self).same_attempts(old(self)),
            final(self).store().same_kind(&old(self).store()),
            final(self).store().is_available() == old(self).store().is_available(),
            final(self).refreshing() == old(self).refreshing().remove(user_id@),
            old(self).store().is_available() ==> done is Ok && final(self).store().read(user_id@)
                == Ok::<Option<PackedClientView>, StoreError>(None)
                && final(self).store().reads_as_but(&old(self).store(), user_id@),
            !old(self).store().is_available() ==> done == Err::<(), Error>(
                Error::CacheUnavailable,
            ) && final(self).store().reads_as(&old(self).store()),
    {
        self.refreshing.remove(user_id);
        match self.store.remove(user_id) {
            Ok(()) => Ok(()),
            Err(e) => Err(store_error(e)),
        }
    }

    /// The user that a request is made for at second `now`, given the
    /// session identifier that came with it: the user whose credential the
    /// store holds under it, if its token is good. There is none where the
    /// request carries no identifier, where the store holds no credential
    /// for it, where the token is due for renewal, or where the store fails.
    pub fn session_principal(&self, session_id: Option<&str>, now: i64) -> (principal: Option<
        User,
    >)
        requires
            self.wf(),
        ensures
            match session_id {
                None => principal is None,
                Some(user_id) => match self.store().read(user_id@) {
                    Ok(Some(client)) => if client.token.expired_at(now as int) {
                        principal is None
                    } else {
                        principal is Some && principal->0@ == (UserView {
                            user_id: user_id@,
                            client,
                        })
                    },
                    _ => principal is None,
                },
            },
    {
        match session_id {
            None => None,
            Some(user_id) => match self.store.get(user_id) {
                Ok(Some(client)) => if client.token.is_expired(now) {
                    None
                } else {
                    Some(User { user_id: user_id.to_owned(), client })
                },
                _ => None,
            },
        }
    }
}

/// What a login starts with.
#[derive(Debug)]
pub struct LoginStart {
    /// The state that was issued.
    pub state: LoginState,
    /// The value of the `Set-Cookie` header that hands the state to the
    /// browser.
    pub cookie: String,
    /// The URL that sends the browser to the provider, if one could be built.
    pub url: Option<String>,
}

/// The user of a session, with the credential to act for it.
#[derive(Debug)]
pub struct User {
    pub client: PackedClient,
    pub user_id: String,
}

/// The mathematical value of a [`User`].
pub struct UserView {
    pub user_id: Seq<char>,
    pub client: PackedClientView,
}

impl View for User {
    type V = UserView;

    open spec fn view(&self) -> UserView {
        UserView { user_id: self.user_id@, client: self.client@ }
    }
}

impl User {
    /// The identifier that the session keeps for this user.
    pub fn id(&self) -> (id: String)
        ensures
            id@ == self.user_id@,
    {
        self.user_id.clone()
    }

    /// The bytes that a session is bound to: those of the user's identifier.
    pub fn session_auth_hash(&self) -> (hash: Vec<u8>)
        ensures
            hash@ == vstd::utf8::encode_utf8(self.user_id@),
    {
        self.user_id.as_str().as_bytes_vec()
    }
}

/// What the exchange of a code, or the renewal of a token, gave.
#[derive(Debug)]
pub enum ExchangeOutcome {
    /// The provider granted a token and gave the user's profile.
    Granted(PackedClient),
    /// The exchange failed.
    Failed(ExchangeFailure),
    /// The token was granted, but the user's profile could not be had.
    ProfileFailed,
}

/// What a session resolved to.
#[derive(Debug)]
pub enum SessionOutcome {
    /// No user: the store holds no credential for the session.
    Anonymous,
    /// The user, with a token that is good.
    Authenticated(User),
    /// The user, with a token that is due for renewal: the caller renews it
    /// and reports with `complete_refresh`.
    Refresh(User),
    /// The token is due for renewal, and another caller is at it.
    RefreshPending,
}

/// The kind of a [`SessionOutcome`].
#[derive(Clone, Copy, Debug, PartialEq, Eq, Structural)]
pub enum Resolution {
    Anonymous,
    Authenticated,
    Refresh,
    RefreshPending,
}

/// What a session resolves to, given what the store reads for it and whether
/// a renewal is under way for it.
pub open spec fn spec_resolution(
    read: Result<Option<PackedClientView>, StoreError>,
    in_flight: bool,
    now: i64,
) -> Result<Resolution, Error> {
    match read {
        Err(e) => Err(spec_store_error(e)),
        Ok(None) => Ok(Resolution::Anonymous),
        Ok(Some(client)) => if !client.token.expired_at(now as int) {
            Ok(Resolution::Authenticated)
        } else if in_flight {
            Ok(Resolution::RefreshPending)
        } else {
            Ok(Resolution::Refresh)
        },
    }
}

/// The kind of what `resolve_session` returned.
pub open spec fn outcome_kind(outcome: Result<SessionOutcome, Error>) -> Result<Resolution, Error> {
    match outcome {
        Ok(SessionOutcome::Anonymous) => Ok(Resolution::Anonymous),
        Ok(SessionOutcome::Authenticated(_)) => Ok(Resolution::Authenticated),
        Ok(SessionOutcome::Refresh(_)) => Ok(Resolution::Refresh),
        Ok(SessionOutcome::RefreshPending) => Ok(Resolution::RefreshPending),
        Err(e) => Err(e),
    }
}

/// The user in what `resolve_session` returned, if there is one.
pub open spec fn outcome_user(outcome: Result<SessionOutcome, Error>) -> Option<UserView> {
    match outcome {
        Ok(SessionOutcome::Authenticated(user)) => Some(user@),
        Ok(SessionOutcome::Refresh(user)) => Some(user@),
        _ => None,
    }
}

/// Why a login cannot be completed under `state` at second `now`, or `None`
/// where a callback is pending under it and no more than the state's
/// lifetime has passed since the login was started.
pub open spec fn spec_authenticate_refusal(attempts: Map<i64, Attempt>, state: i64, now: i64) -> Option<
    Error,
> {
    if !attempts.contains_key(state) {
        Some(Error::StateMismatch)
    } else {
        match attempts[state].phase {
            Phase::Pending => if spec_state_expired(attempts[state].issued_at, now) {
                Some(Error::StateExpired)
            } else {
                None
            },
            Phase::Done => Some(Error::AlreadyConsumed),
            Phase::Issued => Some(Error::StateMismatch),
        }
    }
}

/// How often a caller waits for a renewal that another caller is at, before
/// the session counts as having no user.
pub const REFRESH_WAIT_TRIES: u32 = 50;

/// How long a caller waits each time, in milliseconds.
pub const REFRESH_WAIT_MILLIS: u64 = 100;

/// What looking up a user gave.
#[derive(Debug)]
pub enum UserLookup {
    /// The lookup is over: this is the user, or there is none.
    Found(Option<User>),
    /// The user's token is due: the caller renews it and reports with
    /// `complete_refresh`.
    Renew(User),
    /// Another caller is renewing the token: wait, then look up again.
    Wait,
}

/// The kind of a [`UserLookup`].
#[derive(Clone, Copy, Debug, PartialEq, Eq, Structural)]
pub enum LookupKind {
    Absent,
    Present,
    Renew,
    Wait,
}

/// What a lookup gives for a resolution, after `waited` waits.
pub open spec fn spec_lookup(resolution: Result<Resolution, Error>, waited: u32) -> Result<
    LookupKind,
    Error,
> {
    match resolution {
        Err(e) => Err(e),
        Ok(Resolution::Anonymous) => Ok(LookupKind::Absent),
        Ok(Resolution::Authenticated) => Ok(LookupKind::Present),
        Ok(Resolution::Refresh) => Ok(LookupKind::Renew),
        Ok(Resolution::RefreshPending) => if waited < REFRESH_WAIT_TRIES {
            Ok(LookupKind::Wait)
        } else {
            Ok(LookupKind::Absent)
        },
    }
}

/// The kind of what `get_user` returned.
pub open spec fn lookup_kind(found: Result<UserLookup, Error>) -> Result<LookupKind, Error> {
    match found {
        Ok(UserLookup::Found(None)) => Ok(LookupKind::Absent),
        Ok(UserLookup::Found(Some(_))) => Ok(LookupKind::Present),
        Ok(UserLookup::Renew(_)) => Ok(LookupKind::Renew),
        Ok(UserLookup::Wait) => Ok(LookupKind::Wait),
        Err(e) => Err(e),
    }
}

/// The user in what `get_user` returned, if there is one.
pub open spec fn lookup_user(found: Result<UserLookup, Error>) -> Option<UserView> {
    match found {
        Ok(UserLookup::Found(Some(user))) => Some(user@),
        Ok(UserLookup::Renew(user)) => Some(user@),
        _ => None,
    }
}

/// The user that a lookup ends with once the renewal it asked for is over:
/// the renewed user; none where the provider did not renew the token; and
/// an error where the store failed.
pub fn renewed_user(renewed: Result<Option<User>, Error>) -> (found: Result<Option<User>, Error>)
    ensures
        match renewed {
            Ok(user) => found == Ok::<Option<User>, Error>(user),
            Err(Error::ExchangeFailed(_)) => found == Ok::<Option<User>, Error>(None),
            Err(Error::ProfileFetchFailed) => found == Ok::<Option<User>, Error>(None),
            Err(e) => found == Err::<Option<User>, Error>(e),
        },
{
    match renewed {
        Ok(user) => Ok(user),
        Err(Error::ExchangeFailed(_)) => Ok(None),
        Err(Error::ProfileFetchFailed) => Ok(None),
        Err(e) => Err(e),
    }
}

/// The text of a state that is issued is the text of no state on record:
/// no two login attempts share a state.
pub proof fn lemma_issued_state_is_new(attempts: Map<i64, Attempt>, issued: i64, other: i64)
    requires
        !attempts.contains_key(issued),
        attempts.contains_key(other),
    ensures
        spec_decimal(issued as int) != spec_decimal(other as int),
{
    if spec_decimal(issued as int) == spec_decimal(other as int) {
        lemma_decimal_injective(issued as int, other as int);
    }
}

/// A callback that presents a state which was never issued is refused as a
/// mismatch, whatever the browser holds, at any time and with or without a
/// code; it leaves the attempts as they were, and no login can be completed
/// under that state.
pub proof fn lemma_unissued_state_refused(
    attempts: Map<i64, Attempt>,
    code_present: bool,
    state: i64,
    stored: Option<Seq<char>>,
    now: i64,
)
    requires
        !attempts.contains_key(state),
    ensures
        spec_callback_refusal(attempts, code_present, state, stored, now) == Some(
            Error::StateMismatch,
        ),
        spec_callback_attempts(attempts, state, Some(Error::StateMismatch)) == attempts,
        spec_authenticate_refusal(attempts, state, now) == Some(Error::StateMismatch),
{
}

/// A callback that presents a state which is not the one the browser holds,
/// as when it was issued for another login, is refused as a mismatch, at any
/// time and with or without a code, and leaves the attempts as they were.
pub proof fn lemma_foreign_state_refused(
    attempts: Map<i64, Attempt>,
    code_present: bool,
    state: i64,
    stored: Seq<char>,
    now: i64,
)
    requires
        stored != spec_decimal(state as int),
    ensures
        spec_callback_refusal(attempts, code_present, state, Some(stored), now) == Some(
            Error::StateMismatch,
        ),
        spec_callback_attempts(attempts, state, Some(Error::StateMismatch)) == attempts,
{
}

/// A callback that presents the state of a login, held by the browser and
/// not used before, is refused as expired once more than the state's
/// lifetime has passed since the login was started, whatever number the
/// state was issued under; the refusal uses the state up, and no login can
/// be completed under it.
pub proof fn lemma_late_callback_expired(
    attempts: Map<i64, Attempt>,
    code_present: bool,
    state: i64,
    started: i64,
    now: i64,
)
    requires
        attempts.contains_key(state),
        attempts[state] == (Attempt { issued_at: started, phase: Phase::Issued }),
        now - started > LOGIN_STATE_TTL_SECS,
    ensures
        ({
            let refusal = spec_callback_refusal(
                attempts,
                code_present,
                state,
                Some(spec_decimal(state as int)),
                now,
            );
            let after = spec_callback_attempts(attempts, state, refusal);
            &&& refusal == Some(Error::StateExpired)
            &&& spec_authenticate_refusal(after, state, now) == Some(Error::AlreadyConsumed)
        }),
{
}

/// The same callback with a code is accepted as long as no more than the
/// state's lifetime has passed since the login was started.
pub proof fn lemma_timely_callback_accepted(
    attempts: Map<i64, Attempt>,
    state: i64,
    started: i64,
    now: i64,
)
    requires
        attempts.contains_key(state),
        attempts[state] == (Attempt { issued_at: started, phase: Phase::Issued }),
        now - started <= LOGIN_STATE_TTL_SECS,
    ensures
        spec_callback_refusal(attempts, true, state, Some(spec_decimal(state as int)), now)
            is None,
{
}

/// A login that is started, whose callback presents the state that was
/// issued, held by the browser, with a code, and whose exchange ends, all
/// within the state's lifetime, is accepted and open for completion; what
/// the completion stores is stated by `authenticate`.
pub proof fn lemma_login_in_time_completes(
    attempts: Map<i64, Attempt>,
    state: i64,
    started: i64,
    called: i64,
    ended: i64,
)
    requires
        !attempts.contains_key(state),
        called - started <= LOGIN_STATE_TTL_SECS,
        ended - started <= LOGIN_STATE_TTL_SECS,
    ensures
        ({
            let issued = attempts.insert(
                state,
                Attempt { issued_at: started, phase: Phase::Issued },
            );
            let held = Some(spec_decimal(state as int));
            &&& spec_callback_refusal(issued, true, state, held, called) is None
            &&& spec_authenticate_refusal(
                spec_callback_attempts(issued, state, None),
                state,
                ended,
            ) is None
        }),
{
}

/// An exchange that ends after more than the state's lifetime has passed
/// since the login was started is refused as expired.
pub proof fn lemma_late_exchange_expired(
    attempts: Map<i64, Attempt>,
    state: i64,
    started: i64,
    now: i64,
)
    requires
        attempts.contains_key(state),
        attempts[state] == (Attempt { issued_at: started, phase: Phase::Pending }),
        now - started > LOGIN_STATE_TTL_SECS,
    ensures
        spec_authenticate_refusal(attempts, state, now) == Some(Error::StateExpired),
{
}

/// Once a callback was accepted, the same callback presented again is
/// refused as used, at any later time, before the exchange has ended and
/// after it; the refusal changes nothing, and no login can be completed
/// under the state a second time.
pub proof fn lemma_replay_refused(
    attempts: Map<i64, Attempt>,
    code_present: bool,
    state: i64,
    stored: Option<Seq<char>>,
    now: i64,
    later: i64,
)
    requires
        spec_callback_refusal(attempts, code_present, state, stored, now) is None,
    ensures
        ({
            let pending = spec_callback_attempts(attempts, state, None);
            let done = spec_moved(pending, state, Phase::Done);
            &&& spec_authenticate_refusal(pending, state, now) is None
            &&& spec_callback_refusal(pending, code_present, state, stored, later) == Some(
                Error::AlreadyConsumed,
            )
            &&& spec_callback_attempts(pending, state, Some(Error::AlreadyConsumed)) == pending
            &&& spec_callback_refusal(done, code_present, state, stored, later) == Some(
                Error::AlreadyConsumed,
            )
            &&& spec_callback_attempts(done, state, Some(Error::AlreadyConsumed)) == done
            &&& spec_authenticate_refusal(done, state, later) == Some(Error::AlreadyConsumed)
        }),
{
}

/// How many renewals are asked for when a session is resolved at each of
/// `times` in turn, with no renewal completed in between: each answer that
/// asks for one puts the user in flight for the calls that follow.
pub open spec fn spec_refreshes_asked(
    read: Result<Option<PackedClientView>, StoreError>,
    in_flight: bool,
    times: Seq<i64>,
) -> nat
    decreases times.len(),
{
    if times.len() == 0 {
        0
    } else if spec_resolution(read, in_flight, times[0]) == Ok::<Resolution, Error>(
        Resolution::Refresh,
    ) {
        1 + spec_refreshes_asked(read, true, times.drop_first())
    } else {
        spec_refreshes_asked(read, in_flight, times.drop_first())
    }
}

/// However often a session is resolved before a renewal is completed, at
/// most one of the answers asks for a renewal, and none does while one is
/// under way.
pub proof fn lemma_one_refresh_at_most(
    read: Result<Option<PackedClientView>, StoreError>,
    in_flight: bool,
    times: Seq<i64>,
)
    ensures
        spec_refreshes_asked(read, in_flight, times) <= 1,
        in_flight ==> spec_refreshes_asked(read, in_flight, times) == 0,
    decreases times.len(),
{
    if times.len() > 0 {
        lemma_one_refresh_at_most(read, true, times.drop_first());
        lemma_one_refresh_at_most(read, in_flight, times.drop_first());
    }
}

/// Where no renewal is under way and the token is due at one of the times,
/// exactly one of the answers asks for a renewal.
pub proof fn lemma_one_refresh_exactly(client: PackedClientView, times: Seq<i64>, due: int)
    requires
        0 <= due < times.len(),
        client.token.expired_at(times[due] as int),
    ensures
        spec_refreshes_asked(Ok(Some(client)), false, times) == 1,
    decreases times.len(),
{
    let read = Ok::<Option<PackedClientView>, StoreError>(Some(client));
    if spec_resolution(read, false, times[0]) == Ok::<Resolution, Error>(Resolution::Refresh) {
        lemma_one_refresh_at_most(read, true, times.drop_first());
    } else {
        assert(due > 0);
        assert(times.drop_first()[due - 1] == times[due]);
        lemma_one_refresh_exactly(client, times.drop_first(), due - 1);
    }
}

/// After a logout that went through, the session resolves to anonymous, at
/// any time and whatever renewal was under way: never to an error.
pub proof fn lemma_logged_out_is_anonymous(after: Backend, user_id: Seq<char>, now: i64)
    requires
        after.store().read(user_id) == Ok::<Option<PackedClientView>, StoreError>(None),
    ensures
        spec_resolution(
            after.store().read(user_id),
            after.refreshing().contains(user_id),
            now,
        ) == Ok::<Resolution, Error>(Resolution::Anonymous),
        forall|waited: u32|
            spec_lookup(
                spec_resolution(
                    after.store().read(user_id),
                    after.refreshing().contains(user_id),
                    now,
                ),
                waited,
            ) == Ok::<LookupKind, Error>(LookupKind::Absent),
{
}

/// The text of a held state, if one is held.
pub open spec fn stored_view(stored: Option<&str>) -> Option<Seq<char>> {
    match stored {
        Some(text) => Some(text@),
        None => None,
    }
}

/// Whether a URL holds the parameter `name` with the value `value`, both
/// written as they are: the name, `=` and the value, behind the `?` that
/// starts the parameters or the `&` that parts two of them, and before the
/// next `&`, the `#` of a fragment, or the end.
pub open spec fn spec_carries_param(url: Seq<char>, name: Seq<char>, value: Seq<char>) -> bool {
    exists|from: int, to: int|
        {
            &&& 0 < from <= to <= url.len()
            &&& #[trigger] url.subrange(from, to) == name + "="@ + value
            &&& (url[from - 1] == '?' || url[from - 1] == '&')
            &&& (to == url.len() || url[to] == '&' || url[to] == '#')
        }
}

/// Whether a URL holds the parameter `state` with the value `state`.
pub open spec fn spec_carries_state(url: Seq<char>, state: Seq<char>) -> bool {
    spec_carries_param(url, "state"@, state)
}

/// What holds of every authorization URL that is built for `state`: it asks
/// for a code, asks for the consent dialog, and, where the state is made of
/// digits and minus signs, carries the state.
pub open spec fn spec_authorize_url(url: Seq<char>, state: Seq<char>) -> bool {
    &&& spec_carries_param(url, "response_type"@, "code"@)
    &&& spec_carries_param(url, "show_dialog"@, "true"@)
    &&& spec_plain_number_text(state) ==> spec_carries_state(url, state)
}

/// The provider's authorization URL for a login that carries `state`. This
/// is `AuthCodeSpotify::get_authorize_url`, with the consent dialog asked
/// for, on a copy of `client` whose state is set to `state`. The order of
/// the URL's parameters differs from run to run, so its text is not given.
/// What is claimed: each parameter is written behind `?` or `&` as its name,
/// `=` and its value, and letters, digits, `_` and `-` are written as they
/// are. So the URL holds `response_type=code` and `show_dialog=true`, and a
/// state made of digits and minus signs stands in it as the whole value of
/// the parameter `state`.
#[verifier::external_body]
fn client_authorize_url(client: &AuthCodeSpotify, state: String) -> (url: Option<String>)
    ensures
        url matches Some(u) ==> spec_authorize_url(u@, state@),
{
    let mut client = client.clone();
    client.oauth.state = state;
    client.get_authorize_url(true).ok()
}

} // verus!
