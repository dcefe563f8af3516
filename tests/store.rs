use kanso::decimal::{format_u64, parse_u64};
use kanso::inmemory::InMemoryStore;
use kanso::{
    Condition, Error, GetRequest, GetResponse, Metadata, PatchRequest, PathError, PutRequest,
    Version,
};

fn get(store: &InMemoryStore, key: &str) -> Option<GetResponse> {
    store.get(GetRequest::new(key).unwrap()).unwrap()
}

fn put(store: &mut InMemoryStore, key: &str, value: &[u8]) -> Version {
    store
        .put(PutRequest::new(key, value.to_vec()).unwrap())
        .unwrap()
        .version
}

#[test]
fn test_compliance() {
    let mut store = InMemoryStore::new();
    let key = "test/key";

    assert!(get(&store, key).is_none());

    let v1 = store
        .put(
            PutRequest::new(key, b"v1".to_vec())
                .unwrap()
                .metadata(Metadata::with("k", "v")),
        )
        .unwrap()
        .version;
    assert!(matches!(
        store.put(PutRequest::new(key, b"x".to_vec()).unwrap().if_absent()),
        Err(Error::ConditionFailed {
            condition: Condition::IfAbsent
        })
    ));

    let resp = get(&store, key).unwrap();
    assert_eq!(resp.value, b"v1".to_vec());
    assert_eq!(resp.version, v1);
    assert_eq!(resp.metadata.get("k"), Some(&"v".to_string()));

    let v2 = store
        .put(
            PutRequest::new(key, b"v2".to_vec())
                .unwrap()
                .if_version_matches(v1.clone()),
        )
        .unwrap()
        .version;
    assert!(store
        .put(
            PutRequest::new(key, b"x".to_vec())
                .unwrap()
                .if_version_matches(v1)
        )
        .is_err());

    let _v3 = store
        .patch(
            PatchRequest::new(key, Metadata::with("k2", "v2"))
                .unwrap()
                .if_version_matches(v2.clone()),
        )
        .unwrap()
        .version;
    assert!(store
        .patch(
            PatchRequest::new(key, Metadata::new())
                .unwrap()
                .if_version_matches(v2)
        )
        .is_err());
    let resp = get(&store, key).unwrap();
    assert_eq!(resp.value, b"v2".to_vec());
    assert_eq!(resp.metadata.get("k2"), Some(&"v2".to_string()));

    assert!(matches!(
        store.patch(PatchRequest::new("nonexistent", Metadata::new()).unwrap()),
        Err(Error::NotFound)
    ));
}

#[test]
fn scenario_get_missing() {
    let store = InMemoryStore::new();
    assert!(get(&store, "a/b").is_none());
}

fn scenario_b(store: &mut InMemoryStore) -> Version {
    let v1 = store
        .put(
            PutRequest::new("k", b"v1".to_vec())
                .unwrap()
                .metadata(Metadata::with("k", "v")),
        )
        .unwrap()
        .version;
    let resp = get(store, "k").unwrap();
    assert_eq!(resp.value, b"v1".to_vec());
    assert_eq!(resp.version, v1);
    assert_eq!(resp.metadata.get("k"), Some(&"v".to_string()));
    assert_eq!(resp.metadata.len(), 1);
    v1
}

#[test]
fn scenario_put_get_metadata() {
    let mut store = InMemoryStore::new();
    scenario_b(&mut store);
}

#[test]
fn scenario_if_absent_conflict() {
    let mut store = InMemoryStore::new();
    let v1 = scenario_b(&mut store);
    let r = store.put(PutRequest::new("k", b"x".to_vec()).unwrap().if_absent());
    assert!(matches!(
        r,
        Err(Error::ConditionFailed {
            condition: Condition::IfAbsent
        })
    ));
    let resp = get(&store, "k").unwrap();
    assert_eq!(resp.value, b"v1".to_vec());
    assert_eq!(resp.version, v1);
    assert_eq!(resp.metadata.get("k"), Some(&"v".to_string()));
}

fn scenario_d(store: &mut InMemoryStore) -> (Version, Version) {
    let v1 = scenario_b(store);
    let v2 = store
        .put(
            PutRequest::new("k", b"v2".to_vec())
                .unwrap()
                .if_version_matches(v1.clone()),
        )
        .unwrap()
        .version;
    assert_ne!(v2, v1);
    let r = store.put(
        PutRequest::new("k", b"x".to_vec())
            .unwrap()
            .if_version_matches(v1.clone()),
    );
    match r {
        Err(Error::ConditionFailed {
            condition: Condition::IfVersionMatches(v),
        }) => assert_eq!(v, v1),
        other => panic!("expected a failed condition, got {other:?}"),
    }
    (v1, v2)
}

#[test]
fn scenario_cas_chain() {
    let mut store = InMemoryStore::new();
    scenario_d(&mut store);
    assert_eq!(get(&store, "k").unwrap().value, b"v2".to_vec());
}

#[test]
fn scenario_patch_preserves_bytes() {
    let mut store = InMemoryStore::new();
    let (_, v2) = scenario_d(&mut store);
    let v3 = store
        .patch(
            PatchRequest::new("k", Metadata::with("k2", "v2"))
                .unwrap()
                .if_version_matches(v2.clone()),
        )
        .unwrap()
        .version;
    assert_ne!(v3, v2);
    let resp = get(&store, "k").unwrap();
    assert_eq!(resp.value, b"v2".to_vec());
    assert_eq!(resp.version, v3);
    assert_eq!(resp.metadata.get("k2"), Some(&"v2".to_string()));
    assert!(!resp.metadata.contains_key("k"));
    assert_eq!(resp.metadata.len(), 1);
}

#[test]
fn scenario_patch_missing() {
    let mut store = InMemoryStore::new();
    let r = store.patch(PatchRequest::new("absent", Metadata::new()).unwrap());
    assert!(matches!(r, Err(Error::NotFound)));
    assert!(get(&store, "absent").is_none());
}

#[test]
fn versions_are_minted_from_a_counter() {
    let mut store = InMemoryStore::new();
    assert_eq!(put(&mut store, "a", b"1").as_str(), "1");
    assert_eq!(put(&mut store, "b", b"2").as_str(), "2");
    assert_eq!(put(&mut store, "a", b"3").as_str(), "3");
}

#[test]
fn every_write_changes_the_version() {
    let mut store = InMemoryStore::new();
    let mut seen: Vec<Version> = Vec::new();
    seen.push(put(&mut store, "p/q", b"a"));
    seen.push(put(&mut store, "p/q", b"a"));
    let v = store
        .patch(PatchRequest::new("p/q", Metadata::new()).unwrap())
        .unwrap()
        .version;
    seen.push(v);
    seen.push(put(&mut store, "p/r", b"b"));
    for i in 0..seen.len() {
        for j in 0..i {
            assert_ne!(seen[i], seen[j]);
        }
    }
}

#[test]
fn put_without_metadata_clears_metadata() {
    let mut store = InMemoryStore::new();
    store
        .put(
            PutRequest::new("m", b"x".to_vec())
                .unwrap()
                .metadata(Metadata::with("a", "b")),
        )
        .unwrap();
    put(&mut store, "m", b"y");
    let resp = get(&store, "m").unwrap();
    assert!(resp.metadata.is_empty());
    assert_eq!(resp.value, b"y".to_vec());
}

#[test]
fn reads_repeat_the_same_version() {
    let mut store = InMemoryStore::new();
    let v = put(&mut store, "r", b"x");
    assert_eq!(get(&store, "r").unwrap().version, v);
    assert_eq!(get(&store, "r").unwrap().version, v);
    let _ = store.put(PutRequest::new("r", b"y".to_vec()).unwrap().if_absent());
    assert_eq!(get(&store, "r").unwrap().version, v);
}

#[test]
fn if_absent_on_absent_path_succeeds() {
    let mut store = InMemoryStore::new();
    let r = store.put(PutRequest::new("fresh", b"x".to_vec()).unwrap().if_absent());
    assert!(r.is_ok());
    assert_eq!(get(&store, "fresh").unwrap().value, b"x".to_vec());
}

#[test]
fn version_match_on_absent_path_fails() {
    let mut store = InMemoryStore::new();
    let r = store.put(
        PutRequest::new("nothing", b"x".to_vec())
            .unwrap()
            .if_version_matches(Version::new("1")),
    );
    assert!(matches!(
        r,
        Err(Error::ConditionFailed {
            condition: Condition::IfVersionMatches(_)
        })
    ));
    assert!(get(&store, "nothing").is_none());
}

#[test]
fn patch_with_wrong_version_changes_nothing() {
    let mut store = InMemoryStore::new();
    let v = store
        .put(
            PutRequest::new("w", b"x".to_vec())
                .unwrap()
                .metadata(Metadata::with("a", "1")),
        )
        .unwrap()
        .version;
    let r = store.patch(
        PatchRequest::new("w", Metadata::with("a", "2"))
            .unwrap()
            .if_version_matches(Version::new("999")),
    );
    assert!(matches!(r, Err(Error::ConditionFailed { .. })));
    let resp = get(&store, "w").unwrap();
    assert_eq!(resp.version, v);
    assert_eq!(resp.metadata.get("a"), Some(&"1".to_string()));
}

#[test]
fn one_of_many_compare_and_swaps_wins() {
    let mut store = InMemoryStore::new();
    let v = put(&mut store, "cas", b"start");
    let mut accepted = 0;
    for i in 0..8u8 {
        let r = store.put(
            PutRequest::new("cas", vec![i])
                .unwrap()
                .if_version_matches(v.clone()),
        );
        if r.is_ok() {
            accepted += 1;
            assert_eq!(i, 0);
        }
    }
    assert_eq!(accepted, 1);
    assert_eq!(get(&store, "cas").unwrap().value, vec![0u8]);
}

#[test]
fn paths_are_validated() {
    assert!(kanso::Path::new("a/b/c").is_ok());
    assert_eq!(kanso::Path::new("a/b").unwrap().as_str(), "a/b");
    assert_eq!(kanso::Path::new("").unwrap_err(), PathError::Empty);
    assert_eq!(
        kanso::Path::new("/a").unwrap_err(),
        PathError::LeadingTrailingSlash
    );
    assert_eq!(
        kanso::Path::new("a/").unwrap_err(),
        PathError::LeadingTrailingSlash
    );
    assert_eq!(kanso::Path::new("a//b").unwrap_err(), PathError::EmptySegment);
    assert_eq!(kanso::Path::new("a/./b").unwrap_err(), PathError::RelativeSegment);
    assert_eq!(kanso::Path::new("..").unwrap_err(), PathError::RelativeSegment);
    assert_eq!(
        kanso::Path::new("a/b\u{7}c").unwrap_err(),
        PathError::ControlCharacter
    );
    assert_eq!(
        kanso::Path::new("a\u{7f}/b//").unwrap_err(),
        PathError::LeadingTrailingSlash
    );
    assert_eq!(
        kanso::Path::new("a\u{1}/b//c").unwrap_err(),
        PathError::ControlCharacter
    );
    assert_eq!(
        kanso::Path::new("a//b\u{1}").unwrap_err(),
        PathError::EmptySegment
    );
    assert!(kanso::Path::new("a/.../b").is_ok());
    assert!(kanso::Path::new("ünï/cødé").is_ok());
    assert!(GetRequest::new("a//b").is_err());
    assert!(PutRequest::new("", vec![]).is_err());
    assert!(PatchRequest::new("x/", Metadata::new()).is_err());
}

#[test]
fn metadata_behaves_as_a_map() {
    let mut m = Metadata::new();
    assert!(m.is_empty());
    m.insert("a", "1");
    m.insert("b", "2");
    m.insert("a", "3");
    assert_eq!(m.len(), 2);
    assert_eq!(m.get("a"), Some(&"3".to_string()));
    assert!(m.contains_key("b"));
    assert_eq!(m.remove("b"), Some("2".to_string()));
    assert_eq!(m.remove("b"), None);
    assert!(!m.contains_key("b"));
    assert_eq!(m.len(), 1);
    assert_eq!(m.get("zz"), None);
    let c = m.clone();
    assert_eq!(c.get("a"), Some(&"3".to_string()));
    assert_eq!(Metadata::with("K", "v").get("k"), None);
}

#[test]
fn conditions_and_versions_compare_by_value() {
    assert_eq!(Version::new("7"), Version::from_string("7".to_string()));
    assert_ne!(Version::new("7"), Version::new("8"));
    assert_eq!(
        Condition::IfVersionMatches(Version::new("1")),
        Condition::IfVersionMatches(Version::new("1"))
    );
    assert_ne!(Condition::IfAbsent, Condition::IfVersionMatches(Version::new("1")));
}

#[test]
fn decimal_text_round_trips() {
    assert_eq!(format_u64(0), "0");
    assert_eq!(format_u64(1700000000), "1700000000");
    assert_eq!(format_u64(u64::MAX), "18446744073709551615");
    assert_eq!(parse_u64("18446744073709551615"), Some(u64::MAX));
    assert_eq!(parse_u64("18446744073709551616"), None);
    assert_eq!(parse_u64("+42"), Some(42));
    assert_eq!(parse_u64("007"), Some(7));
    assert_eq!(parse_u64(""), None);
    assert_eq!(parse_u64("+"), None);
    assert_eq!(parse_u64("-1"), None);
    assert_eq!(parse_u64("1 "), None);
    for n in [0u64, 9, 10, 99, 12345, u64::MAX - 1] {
        assert_eq!(parse_u64(&format_u64(n)), Some(n));
        assert_eq!(parse_u64(&format_u64(n)), n.to_string().parse::<u64>().ok());
    }
}

#[test]
fn metadata_equality_ignores_insertion_order() {
    let mut a = Metadata::new();
    a.insert("x", "1");
    a.insert("y", "2");
    let mut b = Metadata::new();
    b.insert("y", "2");
    b.insert("x", "1");
    assert_eq!(a, b);
    b.insert("x", "3");
    assert_ne!(a, b);
    b.remove("x");
    assert_ne!(a, b);
    assert_eq!(Metadata::default(), Metadata::new());
}
