//! The record of login attempts: which states were issued, and how far each
//! login has come.

use vstd::prelude::*;
use crate::state::LOGIN_STATE_TTL_SECS;
use crate::table::{
    distinct_keys,
    has_key,
    lemma_table_empty,
    lemma_table_entry,
    lemma_table_push,
    lemma_table_update,
    table,
};

verus! {

/// How far a login attempt has come.
#[derive(Clone, Copy, Debug, PartialEq, Eq, Structural)]
pub enum Phase {
    /// The state was issued; no callback has presented it yet.
    Issued,
    /// A callback presented the state and was accepted; the code is being
    /// exchanged.
    Pending,
    /// The exchange has ended, well or badly. The state is used up.
    Done,
}

/// A login attempt on record: when its login was started, and how far it
/// has come.
#[derive(Clone, Copy, Debug, PartialEq, Eq, Structural)]
pub struct Attempt {
    /// The second at which the login was started.
    pub issued_at: i64,
    /// How far the login has come.
    pub phase: Phase,
}

/// The number that the next state is issued under: the present second, unless
/// a state was already issued under it or under a later number; then the
/// number after the last that was issued. `None` when no number is left.
pub open spec fn spec_next_state(high_water: Option<i64>, now: i64) -> Option<i64> {
    match high_water {
        None => Some(now),
        Some(last) => if now > last {
            Some(now)
        } else if last < i64::MAX {
            Some((last + 1) as i64)
        } else {
            None
        },
    }
}

/// Whether a state issued at second `issued_at` has outlived its lifetime
/// at second `now`.
pub open spec fn spec_state_expired(issued_at: i64, now: i64) -> bool {
    now > issued_at + LOGIN_STATE_TTL_SECS
}

/// Whether a state issued at second `issued_at` has outlived its lifetime
/// at second `now`.
pub fn state_expired(issued_at: i64, now: i64) -> (expired: bool)
    ensures
        expired == spec_state_expired(issued_at, now),
{
    match issued_at.checked_add(LOGIN_STATE_TTL_SECS) {
        Some(deadline) => now > deadline,
        None => false,
    }
}

/// The attempts whose state has not outlived its lifetime at second `now`.
pub open spec fn spec_unexpired(attempts: Map<i64, Attempt>, now: i64) -> Map<i64, Attempt> {
    Map::new(
        |state: i64|
            attempts.contains_key(state) && !spec_state_expired(attempts[state].issued_at, now),
        |state: i64| attempts[state],
    )
}

/// The login attempts that a backend knows of, each under the number of its
/// state.
pub struct Ledger {
    states: Vec<i64>,
    attempts: Vec<Attempt>,
    high_water: Option<i64>,
}

impl View for Ledger {
    type V = Map<i64, Attempt>;

    /// Each attempt that is known, under the number of its state.
    closed spec fn view(&self) -> Map<i64, Attempt> {
        table(self.entries())
    }
}

impl Ledger {
    spec fn entries(&self) -> Seq<(i64, Attempt)> {
        Seq::new(self.states.len() as nat, |i: int| (self.states[i], self.attempts[i]))
    }

    /// The ledger's invariant: one phase for each state, no state twice, and
    /// none later than the last that was issued.
    pub closed spec fn wf(&self) -> bool {
        &&& self.states.len() == self.attempts.len()
        &&& distinct_keys(self.entries())
        &&& self.states.len() > 0 ==> self.high_water is Some
        &&& forall|i: int|
            0 <= i < self.states.len() ==> (#[trigger] self.states[i]) <= self.high_water->0
    }

    /// The last number that a state was issued under, if any was.
    pub closed spec fn high_water(&self) -> Option<i64> {
        self.high_water
    }

    /// A ledger without attempts.
    pub fn new() -> (ledger: Ledger)
        ensures
            ledger.wf(),
            ledger@ == Map::<i64, Attempt>::empty(),
            ledger.high_water() is None,
    {
        let ledger = Ledger { states: Vec::new(), attempts: Vec::new(), high_water: None };
        proof {
            assert(ledger.entries() =~= Seq::empty());
            lemma_table_empty::<i64, Attempt>();
        }
        ledger
    }

    fn find(&self, state: i64) -> (found: Option<usize>)
        requires
            self.wf(),
        ensures
            match found {
                Some(i) => i < self.states.len() && self.states[i as int] == state,
                None => !has_key(self.entries(), state),
            },
    {
        let mut i: usize = 0;
        while i < self.states.len()
            invariant
                i <= self.states.len(),
                forall|j: int| 0 <= j < i ==> (#[trigger] self.states[j]) != state,
            decreases self.states.len() - i,
        {
            if self.states[i] == state {
                return Some(i);
            }
            i += 1;
        }
        assert(!has_key(self.entries(), state)) by {
            if has_key(self.entries(), state) {
                let j = choose|j: int|
                    0 <= j < self.entries().len() && (#[trigger] self.entries()[j]).0 == state;
                assert(self.states[j] == state);
            }
        }
        None
    }

    /// The attempt whose state has the number `state`, if the ledger knows
    /// of one.
    pub fn attempt(&self, state: i64) -> (attempt: Option<Attempt>)
        requires
            self.wf(),
        ensures
            attempt == (if self@.contains_key(state) {
                Some(self@[state])
            } else {
                None
            }),
    {
        match self.find(state) {
            Some(i) => {
                proof {
                    lemma_table_entry(self.entries(), i as int);
                }
                Some(self.attempts[i])
            },
            None => None,
        }
    }

    /// Records a login attempt started at second `now` and gives the number
    /// its state is issued under, one that no attempt was recorded under
    /// before. `None`, and no change, when no number is left.
    pub fn issue(&mut self, now: i64) -> (state: Option<i64>)
        requires
            old(self).wf(),
        ensures
            final(self).wf(),
            state == spec_next_state(old(self).high_water(), now),
            match state {
                Some(at) => !old(self)@.contains_key(at) && final(self)@ == old(self)@.insert(
                    at,
                    Attempt { issued_at: now, phase: Phase::Issued },
                ) && final(self).high_water() == Some(at),
                None => final(self)@ == old(self)@ && final(self).high_water() == old(
                    self,
                ).high_water(),
            },
    {
        let at: i64 = match self.high_water {
            None => now,
            Some(last) => if now > last {
                now
            } else if last < i64::MAX {
                last + 1
            } else {
                return None;
            },
        };
        let ghost before = self.entries();
        assert(!has_key(before, at)) by {
            if has_key(before, at) {
                let j = choose|j: int| 0 <= j < before.len() && (#[trigger] before[j]).0 == at;
                assert(self.states[j] == at);
            }
        }
        let fresh = Attempt { issued_at: now, phase: Phase::Issued };
        self.states.push(at);
        self.attempts.push(fresh);
        self.high_water = Some(at);
        proof {
            assert(self.entries() =~= before.push((at, fresh)));
            lemma_table_push(before, at, fresh);
            assert forall|i: int| 0 <= i < self.states.len() implies (#[trigger] self.states[i])
                <= at by {
                if i < old(self).states.len() {
                    assert(self.states[i] == old(self).states[i]);
                }
            }
        }
        Some(at)
    }

    /// Forgets every attempt whose state has outlived its lifetime at second
    /// `now`. A state that was forgotten is unknown from then on, as if it
    /// had never been issued; no state is issued under its number again.
    pub fn forget_expired(&mut self, now: i64)
        requires
            old(self).wf(),
        ensures
            final(self).wf(),
            final(self).high_water() == old(self).high_water(),
            final(self)@ == spec_unexpired(old(self)@, now),
    {
        let ghost before = self.entries();
        let mut states: Vec<i64> = Vec::new();
        let mut attempts: Vec<Attempt> = Vec::new();
        let ghost mut source: Seq<int> = Seq::empty();
        let mut i: usize = 0;
        while i < self.states.len()
            invariant
                i <= self.states.len(),
                self.wf(),
                self.states.len() == self.attempts.len(),
                before == self.entries(),
                states.len() == attempts.len(),
                source.len() == states.len(),
                forall|j: int|
                    0 <= j < source.len() ==> 0 <= #[trigger] source[j] < i && states[j]
                        == self.states[source[j]] && attempts[j] == self.attempts[source[j]]
                        && !spec_state_expired(attempts[j].issued_at, now),
                forall|j: int, k: int|
                    0 <= j < k < source.len() ==> #[trigger] source[j] < #[trigger] source[k],
                forall|k: int|
                    0 <= k < i && !spec_state_expired(self.attempts[k].issued_at, now) ==> exists|
                        j: int,
                    |
                        0 <= j < source.len() && #[trigger] source[j] == k,
            decreases self.states.len() - i,
        {
            let state = self.states[i];
            let attempt = self.attempts[i];
            if !state_expired(attempt.issued_at, now) {
                states.push(state);
                attempts.push(attempt);
                proof {
                    let ghost grown = source.push(i as int);
                    assert forall|k: int|
                        0 <= k < i + 1 && !spec_state_expired(self.attempts[k].issued_at, now) implies exists|
                        j: int,
                    |
                        0 <= j < grown.len() && #[trigger] grown[j] == k by {
                        if k < i {
                            let j = choose|j: int| 0 <= j < source.len() && #[trigger] source[j] == k;
                            assert(grown[j] == k);
                        } else {
                            assert(grown[source.len() as int] == k);
                        }
                    }
                    source = grown;
                }
            }
            i += 1;
        }
        let ghost kept = Seq::new(states.len() as nat, |j: int| (states[j], attempts[j]));
        proof {
            assert forall|j: int| 0 <= j < kept.len() implies #[trigger] kept[j] == before[source[j]] by {}
            assert(distinct_keys(kept)) by {
                assert forall|j: int, k: int| 0 <= j < k < kept.len() implies (#[trigger] kept[j]).0
                    != (#[trigger] kept[k]).0 by {
                    assert(source[j] < source[k]);
                    assert(kept[j] == before[source[j]] && kept[k] == before[source[k]]);
                }
            }
            assert forall|s: i64| has_key(kept, s) <==> (has_key(before, s) && !spec_state_expired(
                table(before)[s].issued_at,
                now,
            )) by {
                if has_key(kept, s) {
                    let j = choose|j: int| 0 <= j < kept.len() && (#[trigger] kept[j]).0 == s;
                    assert(kept[j] == before[source[j]]);
                    assert(before[source[j]].0 == s);
                    lemma_table_entry(before, source[j]);
                }
                if has_key(before, s) && !spec_state_expired(table(before)[s].issued_at, now) {
                    let k = choose|k: int| 0 <= k < before.len() && (#[trigger] before[k]).0 == s;
                    lemma_table_entry(before, k);
                    assert(self.states[k] == s);
                    assert(self.attempts[k] == before[k].1);
                    let j = choose|j: int| 0 <= j < source.len() && #[trigger] source[j] == k;
                    assert(kept[j] == before[k]);
                    assert(kept[j].0 == s);
                }
            }
            assert forall|s: i64| has_key(kept, s) implies #[trigger] table(kept)[s] == table(
                before,
            )[s] by {
                let j = choose|j: int| 0 <= j < kept.len() && (#[trigger] kept[j]).0 == s;
                assert(kept[j] == before[source[j]]);
                lemma_table_entry(kept, j);
                lemma_table_entry(before, source[j]);
            }
            assert(table(kept) =~= spec_unexpired(table(before), now));
        }
        let ghost kept_states = states@;
        let ghost last = self.high_water;
        proof {
            assert forall|j: int| 0 <= j < kept_states.len() implies (#[trigger] kept_states[j])
                <= last->0 by {
                assert(kept_states[j] == self.states[source[j]]);
            }
            if kept_states.len() > 0 {
                assert(kept_states[0] == self.states[source[0]]);
            }
        }
        self.states = states;
        self.attempts = attempts;
        proof {
            assert(self.entries() =~= kept);
            assert(self.states@ == kept_states);
            assert(self.high_water == last);
        }
    }

    /// Moves the attempt under `state` to `phase`. Changes nothing where the
    /// ledger knows of no such attempt.
    pub fn advance(&mut self, state: i64, phase: Phase)
        requires
            old(self).wf(),
        ensures
            final(self).wf(),
            final(self).high_water() == old(self).high_water(),
            old(self)@.contains_key(state) ==> final(self)@ == old(self)@.insert(
                state,
                Attempt { issued_at: old(self)@[state].issued_at, phase },
            ),
            !old(self)@.contains_key(state) ==> final(self)@ == old(self)@,
    {
        match self.find(state) {
            Some(i) => {
                let ghost before = self.entries();
                let moved = Attempt { issued_at: self.attempts[i].issued_at, phase };
                self.attempts.set(i, moved);
                proof {
                    let after = self.entries();
                    lemma_table_entry(before, i as int);
                    assert(after =~= before.update(i as int, (state, moved)));
                    lemma_table_update(before, i as int, moved);
                }
            },
            None => {},
        }
    }
}

} // verus!
