use std::time::{SystemTime, UNIX_EPOCH};

use kanso::inmemory::InMemoryStore;
use kanso::{
    get_expiry, get_owner, is_lease_alive, AcquireRequest, Error, GetRequest, LeaseError,
    Metadata, Path, PutRequest, PutResponse, Version, EXPIRY_HEADER, OWNER_HEADER,
};

fn now() -> u64 {
    SystemTime::now()
        .duration_since(UNIX_EPOCH)
        .unwrap()
        .as_secs()
}

fn encode_count(count: u32) -> Vec<u8> {
    let mut fields = serde_json::Map::new();
    fields.insert("count".to_string(), serde_json::Value::from(count));
    serde_json::to_vec(&serde_json::Value::Object(fields)).unwrap()
}

fn decode_count(bytes: &[u8]) -> u64 {
    let value: serde_json::Value = serde_json::from_slice(bytes).unwrap();
    value["count"].as_u64().unwrap()
}

#[test]
fn test_lease_happy_path() {
    let mut store = InMemoryStore::new();

    let (mut lease, value) = AcquireRequest::new("test-key", encode_count(0))
        .owner("test-owner")
        .ttl(60)
        .execute(&mut store, now())
        .unwrap();
    assert_eq!(decode_count(&value), 0);

    lease.update(&mut store, encode_count(1), now()).unwrap();

    lease.renew(&mut store, now()).unwrap();

    let result = AcquireRequest::new("test-key", encode_count(999))
        .owner("different-owner")
        .execute(&mut store, now());
    assert!(matches!(result, Err(LeaseError::LeaseHeld)));

    let (lease2, value2) = AcquireRequest::new("test-key", encode_count(888))
        .owner("test-owner")
        .execute(&mut store, now())
        .unwrap();
    assert_eq!(decode_count(&value2), 1);

    lease2.release(&mut store).unwrap();

    let (_lease3, value3) = AcquireRequest::new("test-key", encode_count(999))
        .owner("new-owner")
        .execute(&mut store, now())
        .unwrap();
    assert_eq!(decode_count(&value3), 1);
}

#[test]
fn scenario_lease_lifecycle() {
    let mut store = InMemoryStore::new();
    let t = 1_000;
    let (mut a, v) = AcquireRequest::new("L", encode_count(0))
        .owner("A")
        .execute(&mut store, t)
        .unwrap();
    assert_eq!(decode_count(&v), 0);
    a.update(&mut store, encode_count(1), t + 1).unwrap();
    assert!(matches!(
        AcquireRequest::new("L", encode_count(0))
            .owner("B")
            .execute(&mut store, t + 2),
        Err(LeaseError::LeaseHeld)
    ));
    let (a2, v) = AcquireRequest::new("L", encode_count(0))
        .owner("A")
        .execute(&mut store, t + 3)
        .unwrap();
    assert_eq!(decode_count(&v), 1);
    a2.release(&mut store).unwrap();
    let (_c, v) = AcquireRequest::new("L", encode_count(0))
        .owner("C")
        .execute(&mut store, t + 4)
        .unwrap();
    assert_eq!(decode_count(&v), 1);
}

#[test]
fn acquire_writes_owner_and_expiry() {
    let mut store = InMemoryStore::new();
    AcquireRequest::new("x/y", b"p".to_vec())
        .owner("me")
        .ttl(30)
        .execute(&mut store, 100)
        .unwrap();
    let resp = store.get(GetRequest::new("x/y").unwrap()).unwrap().unwrap();
    assert_eq!(resp.metadata.get(OWNER_HEADER), Some(&"me".to_string()));
    assert_eq!(resp.metadata.get(EXPIRY_HEADER), Some(&"130".to_string()));
    assert_eq!(resp.value, b"p".to_vec());
}

#[test]
fn expiry_saturates_at_the_largest_second() {
    let mut store = InMemoryStore::new();
    AcquireRequest::new("sat", vec![])
        .owner("me")
        .ttl(u64::MAX)
        .execute(&mut store, 5)
        .unwrap();
    let resp = store.get(GetRequest::new("sat").unwrap()).unwrap().unwrap();
    assert_eq!(
        resp.metadata.get(EXPIRY_HEADER),
        Some(&u64::MAX.to_string())
    );
}

#[test]
fn expired_lease_is_taken_over_with_its_value() {
    let mut store = InMemoryStore::new();
    AcquireRequest::new("e", b"old".to_vec())
        .owner("A")
        .ttl(10)
        .execute(&mut store, 100)
        .unwrap();
    let (lease, v) = AcquireRequest::new("e", b"init".to_vec())
        .owner("B")
        .ttl(10)
        .execute(&mut store, 111)
        .unwrap();
    assert_eq!(v, b"old".to_vec());
    drop(lease);
    assert!(matches!(
        AcquireRequest::new("e", b"init".to_vec())
            .owner("A")
            .execute(&mut store, 115),
        Err(LeaseError::LeaseHeld)
    ));
}

#[test]
fn lease_at_its_expiry_second_is_expired() {
    assert!(is_lease_alive(11, 10));
    assert!(!is_lease_alive(10, 10));
    assert!(!is_lease_alive(9, 10));
}

#[test]
fn stale_lease_update_is_a_conflict() {
    let mut store = InMemoryStore::new();
    let (mut a, _) = AcquireRequest::new("s", b"1".to_vec())
        .owner("A")
        .ttl(10)
        .execute(&mut store, 0)
        .unwrap();
    let (mut b, _) = AcquireRequest::new("s", b"2".to_vec())
        .owner("B")
        .ttl(10)
        .execute(&mut store, 20)
        .unwrap();
    assert!(matches!(
        a.update(&mut store, b"mine".to_vec(), 21),
        Err(LeaseError::Conflict)
    ));
    assert!(matches!(a.renew(&mut store, 21), Err(LeaseError::Conflict)));
    b.update(&mut store, b"theirs".to_vec(), 22).unwrap();
    b.renew(&mut store, 23).unwrap();
    let resp = store.get(GetRequest::new("s").unwrap()).unwrap().unwrap();
    assert_eq!(resp.value, b"theirs".to_vec());
    assert_eq!(resp.metadata.get(EXPIRY_HEADER), Some(&"33".to_string()));
}

#[test]
fn release_of_missing_path_is_not_found() {
    let mut store = InMemoryStore::new();
    let (lease, _) = AcquireRequest::new("gone", vec![])
        .owner("A")
        .execute(&mut store, 0)
        .unwrap();
    let mut other = InMemoryStore::new();
    assert!(matches!(lease.release(&mut other), Err(LeaseError::NotFound)));
}

#[test]
fn release_clears_owner_and_expiry() {
    let mut store = InMemoryStore::new();
    let (lease, _) = AcquireRequest::new("r", b"v".to_vec())
        .owner("A")
        .execute(&mut store, 50)
        .unwrap();
    lease.release(&mut store).unwrap();
    let resp = store.get(GetRequest::new("r").unwrap()).unwrap().unwrap();
    assert_eq!(resp.metadata.get(OWNER_HEADER), Some(&"".to_string()));
    assert_eq!(resp.metadata.get(EXPIRY_HEADER), Some(&"0".to_string()));
    assert_eq!(resp.value, b"v".to_vec());
}

#[test]
fn acquire_of_object_without_lease_keys_is_invalid() {
    let mut store = InMemoryStore::new();
    store
        .put(PutRequest::new("plain", b"x".to_vec()).unwrap())
        .unwrap();
    assert!(matches!(
        AcquireRequest::new("plain", vec![])
            .owner("A")
            .execute(&mut store, 0),
        Err(LeaseError::InvalidMetadata(_))
    ));
    let mut m = Metadata::new();
    m.insert(EXPIRY_HEADER, "10");
    store
        .put(PutRequest::new("half", b"x".to_vec()).unwrap().metadata(m))
        .unwrap();
    assert!(matches!(
        AcquireRequest::new("half", vec![])
            .owner("A")
            .execute(&mut store, 0),
        Err(LeaseError::InvalidMetadata(_))
    ));
}

#[test]
fn acquire_of_invalid_path_is_a_storage_error() {
    let mut store = InMemoryStore::new();
    assert!(matches!(
        AcquireRequest::new("a//b", vec![])
            .owner("A")
            .execute(&mut store, 0),
        Err(LeaseError::Storage(Error::Other(_)))
    ));
}

#[test]
fn lease_metadata_is_read_back() {
    let mut m = Metadata::new();
    assert!(matches!(get_expiry(&m), Err(LeaseError::InvalidMetadata(_))));
    assert!(matches!(get_owner(&m), Err(LeaseError::InvalidMetadata(_))));
    m.insert(EXPIRY_HEADER, "soon");
    assert!(matches!(get_expiry(&m), Err(LeaseError::InvalidMetadata(_))));
    m.insert(EXPIRY_HEADER, "1700000000");
    m.insert(OWNER_HEADER, "alice");
    assert_eq!(get_expiry(&m).unwrap(), 1700000000);
    assert_eq!(get_owner(&m).unwrap(), "alice");
}

#[test]
fn default_request_has_random_owner_and_default_ttl() {
    let mut store = InMemoryStore::new();
    let (_l, _) = AcquireRequest::new("d1", vec![]).execute(&mut store, 0).unwrap();
    let first = store.get(GetRequest::new("d1").unwrap()).unwrap().unwrap();
    assert_eq!(first.metadata.get(EXPIRY_HEADER), Some(&"60".to_string()));
    let owner1 = first.metadata.get(OWNER_HEADER).unwrap().clone();
    assert_eq!(owner1.len(), 36);
    assert!(matches!(
        AcquireRequest::new("d1", vec![]).execute(&mut store, 1),
        Err(LeaseError::LeaseHeld)
    ));
}

#[test]
fn acquire_steps_for_another_backend() {
    let req = AcquireRequest::new("b/k", b"init".to_vec()).owner("o").ttl(5);
    let get = req.get_request().unwrap();
    let key: Path = get.key.clone();
    let plan = req.plan(&key, None, 10).unwrap();
    assert_eq!(plan.value, b"init".to_vec());
    assert!(matches!(plan.condition, Some(kanso::Condition::IfAbsent)));
    let meta = plan.metadata.clone().unwrap();
    assert_eq!(meta.get(EXPIRY_HEADER), Some(&"15".to_string()));
    let lost = req.finish(
        key.clone(),
        plan.value.clone(),
        true,
        Err(Error::ConditionFailed {
            condition: kanso::Condition::IfAbsent,
        }),
    );
    assert!(matches!(lost, Err(LeaseError::Conflict)));

    let req = AcquireRequest::new("b/k", b"init".to_vec()).owner("o");
    let failed = req.finish(key.clone(), vec![], true, Err(Error::Other("down".to_string())));
    assert!(matches!(failed, Err(LeaseError::Storage(Error::Other(_)))));

    let req = AcquireRequest::new("b/k", b"init".to_vec()).owner("o");
    let (lease, v) = req
        .finish(
            key,
            b"init".to_vec(),
            true,
            Ok(PutResponse {
                version: Version::new("42"),
            }),
        )
        .unwrap();
    assert_eq!(v, b"init".to_vec());
    let upd = lease.update_request(b"n".to_vec(), 0);
    assert!(matches!(upd.condition, Some(kanso::Condition::IfVersionMatches(ref v)) if v.as_str() == "42"));
}
