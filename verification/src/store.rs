//! Credential stores: where a user's credential is kept between requests.
//!
//! There are two. The memory store keeps credentials as they are and is lost
//! with the process. The durable store keeps each credential in its stored
//! form, as the bytes that go to disk, so that what was written can be read
//! after the store is opened again.

use vstd::prelude::*;
use vstd::string::*;
use crate::client::{PackedClient, PackedClientView};
use crate::codec::{
    client_fits,
    decode,
    differs_only_at,
    encode,
    lemma_damaged_record_refused,
    lemma_decode_encode,
    spec_decode,
    spec_encode,
};
use crate::table::{
    distinct_keys,
    find_key,
    has_key,
    lemma_table_empty,
    lemma_table_entry,
    lemma_table_push,
    lemma_table_remove,
    table,
};

verus! {

/// Why a store could not answer.
#[derive(Clone, Copy, Debug, PartialEq, Eq, Structural)]
pub enum StoreError {
    /// The key is there, but what is stored under it is not a credential.
    CacheCorrupt,
    /// The store cannot be reached.
    CacheUnavailable,
}

/// The store that lives in memory.
pub struct MemoryStore {
    keys: Vec<String>,
    values: Vec<PackedClient>,
}

impl View for MemoryStore {
    type V = Map<Seq<char>, PackedClientView>;

    /// The credential of each user that has one.
    closed spec fn view(&self) -> Map<Seq<char>, PackedClientView> {
        table(self.entries())
    }
}

impl MemoryStore {
    spec fn entries(&self) -> Seq<(Seq<char>, PackedClientView)> {
        Seq::new(self.keys.len() as nat, |i: int| (self.keys[i]@, self.values[i]@))
    }

    /// The store's invariant: one value for each key, and no key twice.
    /// Every store that this module hands out satisfies it.
    pub closed spec fn wf(&self) -> bool {
        &&& self.keys.len() == self.values.len()
        &&& distinct_keys(self.entries())
    }

    /// A store that holds nothing.
    pub fn new() -> (store: MemoryStore)
        ensures
            store.wf(),
            store@ == Map::<Seq<char>, PackedClientView>::empty(),
    {
        let store = MemoryStore { keys: Vec::new(), values: Vec::new() };
        proof {
            assert(store.entries() =~= Seq::empty());
            lemma_table_empty::<Seq<char>, PackedClientView>();
        }
        store
    }

    /// The credential of `user_id`, if there is one.
    pub fn get(&self, user_id: &str) -> (found: Option<PackedClient>)
        requires
            self.wf(),
        ensures
            match found {
                Some(client) => self@.contains_key(user_id@) && self@[user_id@] == client@,
                None => !self@.contains_key(user_id@),
            },
    {
        match find_key(&self.keys, user_id) {
            Some(i) => {
                proof {
                    lemma_table_entry(self.entries(), i as int);
                }
                Some(self.values[i].clone())
            },
            None => {
                assert(!has_key(self.entries(), user_id@));
                None
            },
        }
    }

    /// Stores `client` as the credential of `user_id`, in place of any that
    /// was there.
    pub fn put(&mut self, user_id: &str, client: PackedClient)
        requires
            old(self).wf(),
        ensures
            final(self).wf(),
            final(self)@ == old(self)@.insert(user_id@, client@),
    {
        self.remove(user_id);
        let ghost before = self.entries();
        assert(!has_key(before, user_id@));
        self.keys.push(user_id.to_owned());
        self.values.push(client);
        proof {
            assert(self.entries() =~= before.push((user_id@, client@)));
            lemma_table_push(before, user_id@, client@);
            assert(old(self)@.remove(user_id@).insert(user_id@, client@) =~= old(self)@.insert(
                user_id@,
                client@,
            ));
        }
    }

    /// Takes the credential of `user_id` out, if there is one.
    pub fn remove(&mut self, user_id: &str)
        requires
            old(self).wf(),
        ensures
            final(self).wf(),
            final(self)@ == old(self)@.remove(user_id@),
            !final(self)@.contains_key(user_id@),
    {
        match find_key(&self.keys, user_id) {
            Some(i) => {
                let ghost before = self.entries();
                self.keys.remove(i);
                self.values.remove(i);
                proof {
                    assert(self.entries() =~= before.remove(i as int));
                    lemma_table_remove(before, i as int);
                }
            },
            None => {
                assert(!has_key(self.entries(), user_id@));
                assert(self@ =~= self@.remove(user_id@));
            },
        }
    }
}

/// A key with the bytes stored under it, as a durable store keeps them.
pub struct Record {
    pub key: String,
    pub value: Vec<u8>,
}

/// The keys and byte strings of a list of records.
pub open spec fn records_view(records: Seq<Record>) -> Seq<(Seq<char>, Seq<u8>)> {
    Seq::new(records.len(), |i: int| (records[i].key@, records[i].value@))
}

/// What a list of records amounts to when they are written one after the
/// other: under each key, the bytes of the last record that has it.
pub open spec fn spec_load(records: Seq<(Seq<char>, Seq<u8>)>) -> Map<Seq<char>, Seq<u8>>
    decreases records.len(),
{
    if records.len() == 0 {
        Map::empty()
    } else {
        spec_load(records.drop_last()).insert(records.last().0, records.last().1)
    }
}

/// What reading a key gives, from the bytes stored under it, if any:
/// nothing where nothing is stored, the credential where the bytes are the
/// stored form of one, and an error where they are not.
pub open spec fn spec_read_raw(raw: Map<Seq<char>, Seq<u8>>, key: Seq<char>) -> Result<
    Option<PackedClientView>,
    StoreError,
> {
    if !raw.contains_key(key) {
        Ok(None)
    } else {
        match spec_decode(raw[key]) {
            Some(client) => Ok(Some(client)),
            None => Err(StoreError::CacheCorrupt),
        }
    }
}

/// Records with keys that are all different amount to the map of their
/// entries.
pub proof fn lemma_load_distinct(records: Seq<(Seq<char>, Seq<u8>)>)
    requires
        distinct_keys(records),
    ensures
        spec_load(records) == table(records),
    decreases records.len(),
{
    if records.len() == 0 {
        assert(records =~= Seq::empty());
        lemma_table_empty::<Seq<char>, Seq<u8>>();
    } else {
        let front = records.drop_last();
        let last = records.last();
        assert(distinct_keys(front)) by {
            assert forall|i: int, j: int| 0 <= i < j < front.len() implies (#[trigger] front[i]).0
                != (#[trigger] front[j]).0 by {
                assert(front[i] == records[i] && front[j] == records[j]);
            }
        }
        assert(!has_key(front, last.0)) by {
            if has_key(front, last.0) {
                let i = choose|i: int| 0 <= i < front.len() && (#[trigger] front[i]).0 == last.0;
                assert(front[i] == records[i]);
                assert(records[i].0 != records[records.len() - 1].0);
            }
        }
        lemma_load_distinct(front);
        lemma_table_push(front, last.0, last.1);
        assert(front.push((last.0, last.1)) =~= records);
    }
}

/// The store that keeps credentials in their stored form.
///
/// It holds in memory what is on disk; whoever owns the disk writes each
/// change through and marks the store unavailable when the disk fails.
pub struct DurableStore {
    keys: Vec<String>,
    values: Vec<Vec<u8>>,
    available: bool,
}

impl DurableStore {
    spec fn entries(&self) -> Seq<(Seq<char>, Seq<u8>)> {
        Seq::new(self.keys.len() as nat, |i: int| (self.keys[i]@, self.values[i]@))
    }

    /// The store's invariant: one value for each key, and no key twice.
    /// Every store that this module hands out satisfies it.
    pub closed spec fn wf(&self) -> bool {
        &&& self.keys.len() == self.values.len()
        &&& distinct_keys(self.entries())
    }

    /// The bytes stored under each key.
    pub closed spec fn raw(&self) -> Map<Seq<char>, Seq<u8>> {
        table(self.entries())
    }

    /// Whether the store can be reached.
    pub closed spec fn is_available(&self) -> bool {
        self.available
    }

    /// What reading `key` gives.
    pub open spec fn read(&self, key: Seq<char>) -> Result<Option<PackedClientView>, StoreError> {
        if !self.is_available() {
            Err(StoreError::CacheUnavailable)
        } else {
            spec_read_raw(self.raw(), key)
        }
    }

    /// A store that holds nothing and can be reached.
    pub fn new() -> (store: DurableStore)
        ensures
            store.wf(),
            store.is_available(),
            store.raw() == Map::<Seq<char>, Seq<u8>>::empty(),
    {
        let store = DurableStore { keys: Vec::new(), values: Vec::new(), available: true };
        proof {
            assert(store.entries() =~= Seq::empty());
            lemma_table_empty::<Seq<char>, Seq<u8>>();
        }
        store
    }

    /// A store that holds nothing and cannot be reached. Should it come
    /// within reach later, it reads as empty.
    pub fn unavailable() -> (store: DurableStore)
        ensures
            store.wf(),
            !store.is_available(),
            store.raw() == Map::<Seq<char>, Seq<u8>>::empty(),
    {
        let store = DurableStore { keys: Vec::new(), values: Vec::new(), available: false };
        proof {
            assert(store.entries() =~= Seq::empty());
            lemma_table_empty::<Seq<char>, Seq<u8>>();
        }
        store
    }

    /// Opens a store on the records that were found on disk.
    pub fn open(records: Vec<Record>) -> (store: DurableStore)
        ensures
            store.wf(),
            store.is_available(),
            store.raw() == spec_load(records_view(records@)),
    {
        let mut store = DurableStore::new();
        let ghost all = records_view(records@);
        let mut i: usize = 0;
        assert(all.take(0) =~= Seq::empty());
        while i < records.len()
            invariant
                i <= records.len(),
                all == records_view(records@),
                store.wf(),
                store.is_available(),
                store.raw() == spec_load(all.take(i as int)),
            decreases records.len() - i,
        {
            let record = &records[i];
            store.put_raw(record.key.as_str(), clone_bytes(&record.value));
            proof {
                assert(all.take(i + 1).drop_last() =~= all.take(i as int));
                assert(all.take(i + 1).last() == (record.key@, record.value@));
            }
            i += 1;
        }
        assert(all.take(records.len() as int) =~= all);
        store
    }

    /// The records that the store holds, one for each key.
    pub fn records(&self) -> (records: Vec<Record>)
        requires
            self.wf(),
        ensures
            spec_load(records_view(records@)) == self.raw(),
    {
        let mut records: Vec<Record> = Vec::new();
        let mut i: usize = 0;
        while i < self.keys.len()
            invariant
                i <= self.keys.len(),
                self.keys.len() == self.values.len(),
                records_view(records@) == self.entries().take(i as int),
            decreases self.keys.len() - i,
        {
            let ghost before = records@;
            let record = Record { key: self.keys[i].clone(), value: clone_bytes(&self.values[i]) };
            records.push(record);
            i += 1;
            proof {
                assert(records@ =~= before.push(record));
                assert(records_view(records@) =~= records_view(before).push(
                    (record.key@, record.value@),
                ));
                assert(self.entries().take(i as int) =~= self.entries().take(i - 1).push(
                    self.entries()[i - 1],
                ));
            }
        }
        proof {
            assert(self.entries().take(self.keys.len() as int) =~= self.entries());
            lemma_load_distinct(self.entries());
        }
        records
    }

    /// Marks the store as out of reach, or as within reach again.
    pub fn set_available(&mut self, available: bool)
        requires
            old(self).wf(),
        ensures
            final(self).wf(),
            final(self).raw() == old(self).raw(),
            final(self).is_available() == available,
    {
        self.available = available;
        assert(self.entries() =~= old(self).entries());
    }

    /// The bytes stored under `key`, if any.
    pub fn raw_value(&self, key: &str) -> (found: Option<Vec<u8>>)
        requires
            self.wf(),
        ensures
            match found {
                Some(bytes) => self.raw().contains_key(key@) && self.raw()[key@] == bytes@,
                None => !self.raw().contains_key(key@),
            },
    {
        match find_key(&self.keys, key) {
            Some(i) => {
                proof {
                    lemma_table_entry(self.entries(), i as int);
                }
                Some(clone_bytes(&self.values[i]))
            },
            None => {
                assert(!has_key(self.entries(), key@));
                None
            },
        }
    }

    /// Stores `bytes` under `key` as they are, in place of any that were
    /// there.
    pub fn put_raw(&mut self, key: &str, bytes: Vec<u8>)
        requires
            old(self).wf(),
        ensures
            final(self).wf(),
            final(self).raw() == old(self).raw().insert(key@, bytes@),
            final(self).is_available() == old(self).is_available(),
    {
        self.remove_raw(key);
        let ghost before = self.entries();
        assert(!has_key(before, key@));
        self.keys.push(key.to_owned());
        self.values.push(bytes);
        proof {
            assert(self.entries() =~= before.push((key@, bytes@)));
            lemma_table_push(before, key@, bytes@);
            assert(old(self).raw().remove(key@).insert(key@, bytes@) =~= old(self).raw().insert(
                key@,
                bytes@,
            ));
        }
    }

    /// Takes out what is stored under `key`, if anything.
    pub fn remove_raw(&mut self, key: &str)
        requires
            old(self).wf(),
        ensures
            final(self).wf(),
            final(self).raw() == old(self).raw().remove(key@),
            !final(self).raw().contains_key(key@),
            final(self).is_available() == old(self).is_available(),
    {
        match find_key(&self.keys, key) {
            Some(i) => {
                let ghost before = self.entries();
                self.keys.remove(i);
                self.values.remove(i);
                proof {
                    assert(self.entries() =~= before.remove(i as int));
                    lemma_table_remove(before, i as int);
                }
            },
            None => {
                assert(!has_key(self.entries(), key@));
                assert(self.raw() =~= self.raw().remove(key@));
            },
        }
    }

    /// The credential of `user_id`: `Ok(None)` where none is stored, and an
    /// error where the store is out of reach or what is stored is damaged.
    pub fn get(&self, user_id: &str) -> (found: Result<Option<PackedClient>, StoreError>)
        requires
            self.wf(),
        ensures
            found_view(found) == self.read(user_id@),
    {
        if !self.available {
            return Err(StoreError::CacheUnavailable);
        }
        match self.raw_value(user_id) {
            Some(bytes) => match decode(bytes.as_slice()) {
                Some(client) => Ok(Some(client)),
                None => Err(StoreError::CacheCorrupt),
            },
            None => Ok(None),
        }
    }

    /// Stores `client` as the credential of `user_id`, in its stored form.
    /// Fails, and changes nothing, when the store is out of reach.
    pub fn put(&mut self, user_id: &str, client: &PackedClient) -> (done: Result<(), StoreError>)
        requires
            old(self).wf(),
        ensures
            final(self).wf(),
            final(self).is_available() == old(self).is_available(),
            old(self).is_available() ==> done is Ok && final(self).raw() == old(self).raw().insert(
                user_id@,
                spec_encode(client@),
            ) && final(self).read(user_id@) == Ok::<Option<PackedClientView>, StoreError>(
                Some(client@),
            ),
            !old(self).is_available() ==> done == Err::<(), StoreError>(
                StoreError::CacheUnavailable,
            ) && *final(self) == *old(self),
            client_fits(client@),
    {
        let bytes = encode(client);
        if !self.available {
            return Err(StoreError::CacheUnavailable);
        }
        self.put_raw(user_id, bytes);
        proof {
            lemma_decode_encode(client@);
        }
        Ok(())
    }

    /// Takes the credential of `user_id` out. Fails, and changes nothing,
    /// when the store is out of reach.
    pub fn remove(&mut self, user_id: &str) -> (done: Result<(), StoreError>)
        requires
            old(self).wf(),
        ensures
            final(self).wf(),
            final(self).is_available() == old(self).is_available(),
            old(self).is_available() ==> done is Ok && final(self).raw() == old(self).raw().remove(
                user_id@,
            ),
            !old(self).is_available() ==> done == Err::<(), StoreError>(
                StoreError::CacheUnavailable,
            ) && *final(self) == *old(self),
    {
        if !self.available {
            return Err(StoreError::CacheUnavailable);
        }
        self.remove_raw(user_id);
        Ok(())
    }
}

/// The mathematical value of what a store's `get` returns.
pub open spec fn found_view(found: Result<Option<PackedClient>, StoreError>) -> Result<
    Option<PackedClientView>,
    StoreError,
> {
    match found {
        Ok(Some(client)) => Ok(Some(client@)),
        Ok(None) => Ok(None),
        Err(e) => Err(e),
    }
}

/// Copies a byte string.
pub fn clone_bytes(bytes: &Vec<u8>) -> (copy: Vec<u8>)
    ensures
        copy@ == bytes@,
{
    let mut copy: Vec<u8> = Vec::new();
    let mut i: usize = 0;
    while i < bytes.len()
        invariant
            i <= bytes.len(),
            copy@ == bytes@.take(i as int),
        decreases bytes.len() - i,
    {
        copy.push(bytes[i]);
        i += 1;
        assert(copy@ =~= bytes@.take(i as int));
    }
    assert(bytes@.take(bytes.len() as int) =~= bytes@);
    copy
}

/// A credential store of either kind, chosen when it is made.
pub enum CredentialStore {
    Memory(MemoryStore),
    Durable(DurableStore),
}

impl CredentialStore {
    /// The invariant of the store inside.
    pub open spec fn wf(&self) -> bool {
        match self {
            CredentialStore::Memory(store) => store.wf(),
            CredentialStore::Durable(store) => store.wf(),
        }
    }

    /// Whether the store can be reached. A memory store always can.
    pub open spec fn is_available(&self) -> bool {
        match self {
            CredentialStore::Memory(_) => true,
            CredentialStore::Durable(store) => store.is_available(),
        }
    }

    /// Whether the store is of the same kind as `other`.
    pub open spec fn same_kind(&self, other: &CredentialStore) -> bool {
        (self is Memory) == (other is Memory)
    }

    /// What reading `key` gives.
    pub open spec fn read(&self, key: Seq<char>) -> Result<Option<PackedClientView>, StoreError> {
        match self {
            CredentialStore::Memory(store) => if store@.contains_key(key) {
                Ok(Some(store@[key]))
            } else {
                Ok(None)
            },
            CredentialStore::Durable(store) => store.read(key),
        }
    }

    /// Whether the store reads as `before` does at every key but `key`.
    pub open spec fn reads_as_but(&self, before: &CredentialStore, key: Seq<char>) -> bool {
        forall|k: Seq<char>| k != key ==> #[trigger] self.read(k) == before.read(k)
    }

    /// Whether the store reads as `before` does at every key.
    pub open spec fn reads_as(&self, before: &CredentialStore) -> bool {
        forall|k: Seq<char>| #[trigger] self.read(k) == before.read(k)
    }

    /// A memory store that holds nothing.
    pub fn memory() -> (store: CredentialStore)
        ensures
            store.wf(),
            store is Memory,
            forall|k: Seq<char>| #[trigger] store.read(k) == Ok::<Option<PackedClientView>, StoreError>(None),
    {
        CredentialStore::Memory(MemoryStore::new())
    }

    /// A durable store opened on the records found on disk.
    pub fn durable(records: Vec<Record>) -> (store: CredentialStore)
        ensures
            store.wf(),
            store is Durable,
            store.is_available(),
            forall|k: Seq<char>| #[trigger] store.read(k) == spec_read_raw(
                spec_load(records_view(records@)),
                k,
            ),
    {
        CredentialStore::Durable(DurableStore::open(records))
    }

    /// The bytes that belong on disk under `user_id`: what a durable store
    /// holds for it, and nothing for a memory store, which has no disk.
    pub open spec fn spec_stored(&self, key: Seq<char>) -> Option<Seq<u8>> {
        match self {
            CredentialStore::Memory(_) => None,
            CredentialStore::Durable(store) => if store.raw().contains_key(key) {
                Some(store.raw()[key])
            } else {
                None
            },
        }
    }

    /// The bytes that belong on disk under `user_id`, if any.
    pub fn stored(&self, user_id: &str) -> (bytes: Option<Vec<u8>>)
        requires
            self.wf(),
        ensures
            bytes.deep_view() == self.spec_stored(user_id@),
    {
        match self {
            CredentialStore::Memory(_) => None,
            CredentialStore::Durable(store) => store.raw_value(user_id),
        }
    }

    /// Marks a durable store as out of reach, or as within reach again. A
    /// memory store is always within reach and stays so.
    pub fn set_available(&mut self, available: bool)
        requires
            old(self).wf(),
        ensures
            final(self).wf(),
            final(self).same_kind(old(self)),
            final(self).is_available() == (available || *old(self) is Memory),
            forall|k: Seq<char>| #[trigger] final(self).spec_stored(k) == old(self).spec_stored(k),
            final(self).is_available() == old(self).is_available() ==> final(self).reads_as(
                old(self),
            ),
            *old(self) is Memory ==> final(self).reads_as(old(self)),
    {
        match self {
            CredentialStore::Memory(_) => {},
            CredentialStore::Durable(store) => {
                store.set_available(available);
            },
        }
    }

    /// The credential of `user_id`: `Ok(None)` where none is stored, and an
    /// error where the store is out of reach or what is stored is damaged.
    pub fn get(&self, user_id: &str) -> (found: Result<Option<PackedClient>, StoreError>)
        requires
            self.wf(),
        ensures
            found_view(found) == self.read(user_id@),
    {
        match self {
            CredentialStore::Memory(store) => Ok(store.get(user_id)),
            CredentialStore::Durable(store) => store.get(user_id),
        }
    }

    /// Stores `client` as the credential of `user_id`, in place of any that
    /// was there. Fails, and changes nothing, when the store is out of reach.
    pub fn put(&mut self, user_id: &str, client: PackedClient) -> (done: Result<(), StoreError>)
        requires
            old(self).wf(),
        ensures
            final(self).wf(),
            final(self).same_kind(old(self)),
            final(self).is_available() == old(self).is_available(),
            old(self).is_available() ==> done is Ok && final(self).read(user_id@) == Ok::<
                Option<PackedClientView>,
                StoreError,
            >(Some(client@)) && final(self).reads_as_but(old(self), user_id@),
            !old(self).is_available() ==> done == Err::<(), StoreError>(
                StoreError::CacheUnavailable,
            ) && *final(self) == *old(self),
    {
        match self {
            CredentialStore::Memory(store) => {
                store.put(user_id, client);
                Ok(())
            },
            CredentialStore::Durable(store) => {
                let done = store.put(user_id, &client);
                proof {
                    lemma_decode_encode(client@);
                }
                done
            },
        }
    }

    /// Takes the credential of `user_id` out. Fails, and changes nothing,
    /// when the store is out of reach.
    pub fn remove(&mut self, user_id: &str) -> (done: Result<(), StoreError>)
        requires
            old(self).wf(),
        ensures
            final(self).wf(),
            final(self).same_kind(old(self)),
            final(self).is_available() == old(self).is_available(),
            old(self).is_available() ==> done is Ok && final(self).read(user_id@) == Ok::<
                Option<PackedClientView>,
                StoreError,
            >(None) && final(self).reads_as_but(old(self), user_id@),
            !old(self).is_available() ==> done == Err::<(), StoreError>(
                StoreError::CacheUnavailable,
            ) && *final(self) == *old(self),
    {
        match self {
            CredentialStore::Memory(store) => {
                store.remove(user_id);
                Ok(())
            },
            CredentialStore::Durable(store) => store.remove(user_id),
        }
    }
}

/// A credential written to a durable store reads back as itself, whatever
/// else the store holds.
pub proof fn lemma_durable_round_trip(
    raw: Map<Seq<char>, Seq<u8>>,
    key: Seq<char>,
    client: PackedClientView,
)
    requires
        client_fits(client),
    ensures
        spec_read_raw(raw.insert(key, spec_encode(client)), key) == Ok::<
            Option<PackedClientView>,
            StoreError,
        >(Some(client)),
{
    lemma_decode_encode(client);
}

/// A credential that was put still reads back as itself after the store was
/// closed and opened again on the records it held.
pub proof fn lemma_round_trip_across_reopen(
    before: DurableStore,
    after: DurableStore,
    records: Seq<Record>,
    reopened: DurableStore,
    key: Seq<char>,
    client: PackedClientView,
)
    requires
        client_fits(client),
        after.raw() == before.raw().insert(key, spec_encode(client)),
        spec_load(records_view(records)) == after.raw(),
        reopened.is_available(),
        reopened.raw() == spec_load(records_view(records)),
    ensures
        reopened.read(key) == Ok::<Option<PackedClientView>, StoreError>(Some(client)),
{
    lemma_decode_encode(client);
}

/// A stored credential of which one byte was changed on disk reads as
/// damaged: not as absent, and not as another credential.
pub proof fn lemma_damage_reads_as_corrupt(
    raw: Map<Seq<char>, Seq<u8>>,
    key: Seq<char>,
    client: PackedClientView,
    damaged: Seq<u8>,
    at: int,
)
    requires
        differs_only_at(spec_encode(client), damaged, at),
    ensures
        spec_read_raw(raw.insert(key, damaged), key) == Err::<Option<PackedClientView>, StoreError>(
            StoreError::CacheCorrupt,
        ),
{
    lemma_damaged_record_refused(client, damaged, at);
}

} // verus!
