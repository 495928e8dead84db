//! The users for whom a token renewal is under way.

use vstd::prelude::*;
use vstd::string::*;
use crate::table::{
    distinct_keys,
    find_key,
    has_key,
    lemma_table_empty,
    lemma_table_entry,
    lemma_table_push,
    lemma_table_remove,
    table,
};

verus! {

/// A set of user ids.
pub struct InFlight {
    users: Vec<String>,
}

impl View for InFlight {
    type V = Set<Seq<char>>;

    /// The users in the set.
    closed spec fn view(&self) -> Set<Seq<char>> {
        table(self.entries()).dom()
    }
}

impl InFlight {
    spec fn entries(&self) -> Seq<(Seq<char>, ())> {
        Seq::new(self.users.len() as nat, |i: int| (self.users[i]@, ()))
    }

    /// The set's invariant: no user is listed twice.
    pub closed spec fn wf(&self) -> bool {
        distinct_keys(self.entries())
    }

    /// The empty set.
    pub fn new() -> (set: InFlight)
        ensures
            set.wf(),
            set@ == Set::<Seq<char>>::empty(),
    {
        let set = InFlight { users: Vec::new() };
        proof {
            assert(set.entries() =~= Seq::empty());
            lemma_table_empty::<Seq<char>, ()>();
            assert(set@ =~= Set::<Seq<char>>::empty());
        }
        set
    }

    /// Whether `user_id` is in the set.
    pub fn contains(&self, user_id: &str) -> (found: bool)
        requires
            self.wf(),
        ensures
            found == self@.contains(user_id@),
    {
        match find_key(&self.users, user_id) {
            Some(i) => {
                proof {
                    lemma_table_entry(self.entries(), i as int);
                }
                true
            },
            None => {
                assert(!has_key(self.entries(), user_id@));
                false
            },
        }
    }

    /// Puts `user_id` into the set.
    pub fn insert(&mut self, user_id: &str)
        requires
            old(self).wf(),
        ensures
            final(self).wf(),
            final(self)@ == old(self)@.insert(user_id@),
    {
        match find_key(&self.users, user_id) {
            Some(i) => {
                proof {
                    lemma_table_entry(self.entries(), i as int);
                    assert(self@ =~= self@.insert(user_id@));
                }
            },
            None => {
                let ghost before = self.entries();
                assert(!has_key(before, user_id@));
                self.users.push(user_id.to_owned());
                proof {
                    assert(self.entries() =~= before.push((user_id@, ())));
                    lemma_table_push(before, user_id@, ());
                    assert(self@ =~= old(self)@.insert(user_id@));
                }
            },
        }
    }

    /// Takes `user_id` out of the set.
    pub fn remove(&mut self, user_id: &str)
        requires
            old(self).wf(),
        ensures
            final(self).wf(),
            final(self)@ == old(self)@.remove(user_id@),
    {
        match find_key(&self.users, user_id) {
            Some(i) => {
                let ghost before = self.entries();
                self.users.remove(i);
                proof {
                    assert(self.entries() =~= before.remove(i as int));
                    lemma_table_remove(before, i as int);
                    assert(self@ =~= old(self)@.remove(user_id@));
                }
            },
            None => {
                assert(!has_key(self.entries(), user_id@));
                assert(self@ =~= self@.remove(user_id@));
            },
        }
    }
}

} // verus!
