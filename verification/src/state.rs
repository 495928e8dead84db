//! Login state tokens: the value that ties a callback to the login that
//! started it.
//!
//! A token's text is a number in decimal. Issued on its own, a token takes
//! the second at which it was issued as its number. That alone does not keep
//! two logins of the same second apart; the backend that issues tokens gives
//! each a number of its own and keeps the second apart from it.

use vstd::prelude::*;
use vstd::string::*;
use crate::decimal::{render_decimal, spec_decimal};

verus! {

/// How long an issued login state stays valid, in seconds.
pub const LOGIN_STATE_TTL_SECS: i64 = 3600;

/// A login state as issued: its text, the number that the text spells, the
/// second it was issued at, and its lifetime in seconds.
#[derive(Debug)]
pub struct LoginState {
    pub value: String,
    pub number: i64,
    pub issued_at: i64,
    pub ttl: i64,
}

/// What checking a presented state against an issued one found.
#[derive(Clone, Copy, Debug, PartialEq, Eq, Structural)]
pub enum StateCheck {
    /// The texts agree and the state has not outlived its lifetime.
    Valid,
    /// The presented text is not the issued one.
    Mismatched,
    /// The texts agree, but the lifetime is over.
    Expired,
}

/// The check in mathematical terms: equality of the texts first, then
/// `now <= issued_at + ttl`.
pub open spec fn spec_validate(
    candidate: Seq<char>,
    value: Seq<char>,
    issued_at: int,
    ttl: int,
    now: int,
) -> StateCheck {
    if candidate != value {
        StateCheck::Mismatched
    } else if now > issued_at + ttl {
        StateCheck::Expired
    } else {
        StateCheck::Valid
    }
}

impl LoginState {
    /// The token's text is the decimal rendering of its number, and its
    /// lifetime is not negative.
    pub open spec fn wf(&self) -> bool {
        &&& self.value@ == spec_decimal(self.number as int)
        &&& self.ttl >= 0
    }

    /// The last second at which the state is still accepted.
    pub open spec fn deadline(&self) -> int {
        self.issued_at + self.ttl
    }

    /// Whether the lifetime is over at `now`.
    pub fn is_expired(&self, now: i64) -> (expired: bool)
        ensures
            expired == (now > self.deadline()),
    {
        match self.issued_at.checked_add(self.ttl) {
            Some(deadline) => now > deadline,
            None => self.ttl < 0,
        }
    }

    /// The last second at which the state is still accepted, or the last
    /// second there is where the lifetime reaches beyond it.
    pub fn expires_at(&self) -> (at: i64)
        requires
            self.ttl >= 0,
        ensures
            at == (if self.deadline() <= i64::MAX {
                self.deadline()
            } else {
                i64::MAX as int
            }),
    {
        match self.issued_at.checked_add(self.ttl) {
            Some(deadline) => deadline,
            None => i64::MAX,
        }
    }

    pub fn clone(&self) -> (copy: LoginState)
        ensures
            copy == *self,
    {
        LoginState {
            value: self.value.clone(),
            number: self.number,
            issued_at: self.issued_at,
            ttl: self.ttl,
        }
    }
}

/// Whether two texts are the same. Texts of one length are compared byte by
/// byte to the end, whether or not a difference has shown, so that the time
/// taken does not tell how far they agree.
pub fn text_eq(a: &str, b: &str) -> (same: bool)
    ensures
        same == (a@ == b@),
{
    broadcast use {vstd::utf8::encode_utf8_decode_utf8, vstd::utf8::encode_utf8_valid_utf8};

    let left = a.as_bytes();
    let right = b.as_bytes();
    if left.len() != right.len() {
        return false;
    }
    let mut differing: usize = 0;
    let mut i: usize = 0;
    assert(left@.take(0) =~= right@.take(0));
    while i < left.len()
        invariant
            i <= left.len(),
            left.len() == right.len(),
            differing <= i,
            differing == 0 <==> left@.take(i as int) == right@.take(i as int),
        decreases left.len() - i,
    {
        let ghost before = i as int;
        if left[i] != right[i] {
            differing = differing + 1;
        }
        i += 1;
        proof {
            assert(left@.take(before) =~= left@.take(i as int).take(before));
            assert(right@.take(before) =~= right@.take(i as int).take(before));
            if left@.take(before) == right@.take(before) && left[before] == right[before] {
                assert(left@.take(i as int) =~= right@.take(i as int));
            }
            if left[before] != right[before] {
                assert(left@.take(i as int)[before] != right@.take(i as int)[before]);
            }
        }
    }
    proof {
        assert(left@.take(left.len() as int) =~= left@);
        assert(right@.take(right.len() as int) =~= right@);
        assert(vstd::utf8::decode_utf8(vstd::utf8::encode_utf8(a@)) == a@);
        assert(vstd::utf8::decode_utf8(vstd::utf8::encode_utf8(b@)) == b@);
    }
    differing == 0
}

/// Issues the state for a login started at second `now`, under that second
/// as its number.
pub fn issue(now: i64) -> (state: LoginState)
    ensures
        state.value@ == spec_decimal(now as int),
        state.number == now,
        state.issued_at == now,
        state.ttl == LOGIN_STATE_TTL_SECS,
        state.wf(),
{
    issue_numbered(now, now)
}

/// Issues the state for a login started at second `now`, under `number`.
pub fn issue_numbered(number: i64, now: i64) -> (state: LoginState)
    ensures
        state.value@ == spec_decimal(number as int),
        state.number == number,
        state.issued_at == now,
        state.ttl == LOGIN_STATE_TTL_SECS,
        state.wf(),
{
    LoginState {
        value: render_decimal(number),
        number,
        issued_at: now,
        ttl: LOGIN_STATE_TTL_SECS,
    }
}

/// The current time in seconds since the Unix epoch, read with
/// `time::OffsetDateTime::now_utc` and `unix_timestamp`. Nothing is claimed
/// of the value: the clock may give any second.
#[verifier::external_body]
pub(crate) fn unix_now() -> i64 {
    time::OffsetDateTime::now_utc().unix_timestamp()
}

/// Issues a state for a login started now, by the system clock.
pub fn issue_now() -> (state: LoginState)
    ensures
        state.wf(),
        state.number == state.issued_at,
        state.ttl == LOGIN_STATE_TTL_SECS,
{
    issue(unix_now())
}

/// Checks a presented state text against an issued state at second `now`.
pub fn validate(candidate: &str, stored: &LoginState, now: i64) -> (check: StateCheck)
    ensures
        check == spec_validate(
            candidate@,
            stored.value@,
            stored.issued_at as int,
            stored.ttl as int,
            now as int,
        ),
{
    if !text_eq(candidate, stored.value.as_str()) {
        StateCheck::Mismatched
    } else if stored.is_expired(now) {
        StateCheck::Expired
    } else {
        StateCheck::Valid
    }
}

/// An issued state presented as itself is accepted through the last second
/// of its lifetime and refused as expired from the second after it.
pub proof fn lemma_validate_own_state(value: Seq<char>, issued_at: int, ttl: int, now: int)
    ensures
        now - issued_at <= ttl ==> spec_validate(value, value, issued_at, ttl, now)
            == StateCheck::Valid,
        now - issued_at > ttl ==> spec_validate(value, value, issued_at, ttl, now)
            == StateCheck::Expired,
{
}

/// A text other than the issued one is refused as mismatched at every time.
pub proof fn lemma_validate_other_state(
    candidate: Seq<char>,
    value: Seq<char>,
    issued_at: int,
    ttl: int,
    now: int,
)
    requires
        candidate != value,
    ensures
        spec_validate(candidate, value, issued_at, ttl, now) == StateCheck::Mismatched,
{
}

} // verus!
