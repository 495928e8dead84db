use starify::client::{PackedClient, Token};
use starify::codec::encode;
use starify::store::{CredentialStore, DurableStore, MemoryStore, Record, StoreError};

fn cred(user: &str, token: &str) -> PackedClient {
    PackedClient {
        client_id: "id".to_string(),
        client_secret: "secret".to_string(),
        user_id: user.to_string(),
        redirect_uri: "http://localhost/authorize".to_string(),
        scopes: vec!["user-top-read".to_string()],
        token: Token {
            access_token: token.to_string(),
            refresh_token: None,
            expires_in: 3600,
            expires_at: Some(5000),
            scopes: vec![],
        },
    }
}

#[test]
fn memory_put_then_get_round_trips() {
    let mut store = MemoryStore::new();
    assert_eq!(store.get("ann"), None);
    store.put("ann", cred("ann", "t1"));
    assert_eq!(store.get("ann"), Some(cred("ann", "t1")));
    assert_eq!(store.get("bob"), None);
}

#[test]
fn memory_put_is_last_write_wins() {
    let mut store = MemoryStore::new();
    store.put("ann", cred("ann", "t1"));
    store.put("bob", cred("bob", "b1"));
    store.put("ann", cred("ann", "t2"));
    assert_eq!(store.get("ann"), Some(cred("ann", "t2")));
    assert_eq!(store.get("bob"), Some(cred("bob", "b1")));
}

#[test]
fn memory_remove_takes_only_that_user() {
    let mut store = MemoryStore::new();
    store.put("ann", cred("ann", "t1"));
    store.put("bob", cred("bob", "b1"));
    store.remove("ann");
    store.remove("nobody");
    assert_eq!(store.get("ann"), None);
    assert_eq!(store.get("bob"), Some(cred("bob", "b1")));
}

#[test]
fn durable_put_then_get_round_trips() {
    let mut store = DurableStore::new();
    assert_eq!(store.get("ann"), Ok(None));
    assert_eq!(store.put("ann", &cred("ann", "t1")), Ok(()));
    assert_eq!(store.get("ann"), Ok(Some(cred("ann", "t1"))));
    assert_eq!(store.raw_value("ann"), Some(encode(&cred("ann", "t1"))));
}

#[test]
fn durable_round_trip_survives_a_restart() {
    let mut store = DurableStore::new();
    store.put("ann", &cred("ann", "t1")).unwrap();
    store.put("bob", &cred("bob", "b1")).unwrap();
    store.put("ann", &cred("ann", "t2")).unwrap();
    let on_disk = store.records();
    assert_eq!(on_disk.len(), 2);
    drop(store);
    let reopened = DurableStore::open(on_disk);
    assert_eq!(reopened.get("ann"), Ok(Some(cred("ann", "t2"))));
    assert_eq!(reopened.get("bob"), Ok(Some(cred("bob", "b1"))));
    assert_eq!(reopened.get("eve"), Ok(None));
}

#[test]
fn durable_open_takes_the_last_record_of_a_key() {
    let records = vec![
        Record { key: "ann".to_string(), value: encode(&cred("ann", "t1")) },
        Record { key: "ann".to_string(), value: encode(&cred("ann", "t2")) },
    ];
    let store = DurableStore::open(records);
    assert_eq!(store.get("ann"), Ok(Some(cred("ann", "t2"))));
    assert_eq!(store.records().len(), 1);
}

#[test]
fn durable_damaged_value_is_corrupt_not_absent() {
    let mut bytes = encode(&cred("ann", "t1"));
    bytes[10] ^= 0x40;
    let store = DurableStore::open(vec![Record { key: "ann".to_string(), value: bytes }]);
    assert_eq!(store.get("ann"), Err(StoreError::CacheCorrupt));
    assert_eq!(store.get("bob"), Ok(None));
}

#[test]
fn durable_put_raw_and_remove_raw() {
    let mut store = DurableStore::new();
    store.put_raw("k", vec![1, 2, 3]);
    assert_eq!(store.raw_value("k"), Some(vec![1, 2, 3]));
    assert_eq!(store.get("k"), Err(StoreError::CacheCorrupt));
    store.remove_raw("k");
    assert_eq!(store.raw_value("k"), None);
    assert_eq!(store.get("k"), Ok(None));
}

#[test]
fn durable_unavailable_store_fails_every_call() {
    let mut store = DurableStore::unavailable();
    assert_eq!(store.get("ann"), Err(StoreError::CacheUnavailable));
    assert_eq!(store.put("ann", &cred("ann", "t1")), Err(StoreError::CacheUnavailable));
    assert_eq!(store.remove("ann"), Err(StoreError::CacheUnavailable));
}

#[test]
fn durable_store_keeps_its_records_while_out_of_reach() {
    let mut store = DurableStore::new();
    store.put("ann", &cred("ann", "t1")).unwrap();
    store.set_available(false);
    assert_eq!(store.get("ann"), Err(StoreError::CacheUnavailable));
    assert_eq!(store.remove("ann"), Err(StoreError::CacheUnavailable));
    store.set_available(true);
    assert_eq!(store.get("ann"), Ok(Some(cred("ann", "t1"))));
}

#[test]
fn durable_remove_takes_only_that_user() {
    let mut store = DurableStore::new();
    store.put("ann", &cred("ann", "t1")).unwrap();
    store.put("bob", &cred("bob", "b1")).unwrap();
    assert_eq!(store.remove("ann"), Ok(()));
    assert_eq!(store.get("ann"), Ok(None));
    assert_eq!(store.get("bob"), Ok(Some(cred("bob", "b1"))));
}

#[test]
fn either_store_answers_alike() {
    for mut store in [CredentialStore::memory(), CredentialStore::durable(Vec::new())] {
        assert_eq!(store.get("ann"), Ok(None));
        assert_eq!(store.put("ann", cred("ann", "t1")), Ok(()));
        assert_eq!(store.get("ann"), Ok(Some(cred("ann", "t1"))));
        assert_eq!(store.put("ann", cred("ann", "t2")), Ok(()));
        assert_eq!(store.get("ann"), Ok(Some(cred("ann", "t2"))));
        assert_eq!(store.remove("ann"), Ok(()));
        assert_eq!(store.get("ann"), Ok(None));
    }
}

#[test]
fn durable_unavailable_store_is_empty_once_in_reach() {
    let mut store = DurableStore::unavailable();
    assert_eq!(store.raw_value("ann"), None);
    assert_eq!(store.records().len(), 0);
    store.set_available(true);
    assert_eq!(store.get("ann"), Ok(None));
}
