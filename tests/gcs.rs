use kanso::gcs::{
    get_response, get_url, metadata_from_headers, metadata_headers, patch_response, patch_url,
    put_response, put_url,
};
use kanso::{parse_path, Condition, Error, Metadata, Path, Version};

#[test]
fn path_splits_at_first_slash() {
    let p = Path::new("bucket/dir/obj").unwrap();
    assert_eq!(parse_path(&p).unwrap(), ("bucket", "dir/obj"));
    let q = Path::new("nobucket").unwrap();
    assert!(matches!(parse_path(&q), Err(Error::Other(_))));
}

#[test]
fn urls_encode_bucket_and_name() {
    let p = Path::new("my bucket/a/b c").unwrap();
    assert_eq!(
        get_url("http://h", &p).unwrap(),
        "http://h/storage/v1/b/my%20bucket/o/a%2Fb%20c?alt=media"
    );
    assert_eq!(
        put_url("http://h", &p, &None).unwrap(),
        "http://h/upload/storage/v1/b/my%20bucket/o?uploadType=media&name=a%2Fb%20c"
    );
    assert_eq!(
        put_url("http://h", &p, &Some(Condition::IfAbsent)).unwrap(),
        "http://h/upload/storage/v1/b/my%20bucket/o?uploadType=media&name=a%2Fb%20c&ifGenerationMatch=0"
    );
    assert_eq!(
        put_url(
            "http://h",
            &p,
            &Some(Condition::IfVersionMatches(Version::new("17")))
        )
        .unwrap(),
        "http://h/upload/storage/v1/b/my%20bucket/o?uploadType=media&name=a%2Fb%20c&ifGenerationMatch=17"
    );
    assert_eq!(
        patch_url(
            "http://h",
            &p,
            &Some(Condition::IfVersionMatches(Version::new("17")))
        )
        .unwrap(),
        "http://h/storage/v1/b/my%20bucket/o/a%2Fb%20c?ifGenerationMatch=17"
    );
    assert_eq!(
        patch_url("http://h", &p, &None).unwrap(),
        "http://h/storage/v1/b/my%20bucket/o/a%2Fb%20c"
    );
    let flat = Path::new("flat").unwrap();
    assert!(get_url("http://h", &flat).is_err());
}

#[test]
fn metadata_travels_as_prefixed_headers() {
    let mut m = Metadata::new();
    m.insert("owner", "a");
    m.insert("expiry", "5");
    let headers = metadata_headers(&m);
    assert_eq!(headers.len(), 2);
    assert!(headers.contains(&("x-goog-meta-owner".to_string(), "a".to_string())));
    let mut incoming = headers.clone();
    incoming.push(("content-type".to_string(), "text/plain".to_string()));
    incoming.push(("x-goog-generation".to_string(), "9".to_string()));
    let back = metadata_from_headers(&incoming);
    assert_eq!(back.len(), 2);
    assert_eq!(back.get("owner"), Some(&"a".to_string()));
    assert_eq!(back.get("expiry"), Some(&"5".to_string()));
}

#[test]
fn get_statuses_map_to_results() {
    let headers = vec![("x-goog-meta-k".to_string(), "v".to_string())];
    assert!(matches!(
        get_response(404, None, &headers, vec![]),
        Ok(None)
    ));
    let r = get_response(200, Some("12".to_string()), &headers, b"body".to_vec())
        .unwrap()
        .unwrap();
    assert_eq!(r.value, b"body".to_vec());
    assert_eq!(r.version, Version::new("12"));
    assert_eq!(r.metadata.get("k"), Some(&"v".to_string()));
    assert!(matches!(
        get_response(200, None, &headers, vec![]),
        Err(Error::Other(_))
    ));
    match get_response(503, None, &headers, vec![]) {
        Err(Error::Other(m)) => assert_eq!(m, "GCS get error: status 503"),
        other => panic!("unexpected {other:?}"),
    }
}

#[test]
fn write_statuses_map_to_results() {
    let body = br#"{"generation": "1700", "name": "x"}"#.to_vec();
    assert_eq!(
        put_response(200, &body, None).unwrap().version,
        Version::new("1700")
    );
    assert!(matches!(
        put_response(200, &b"not json".to_vec(), None),
        Err(Error::Other(_))
    ));
    assert!(matches!(
        put_response(412, &vec![], Some(Condition::IfAbsent)),
        Err(Error::ConditionFailed {
            condition: Condition::IfAbsent
        })
    ));
    match put_response(412, &vec![], None) {
        Err(Error::Other(m)) => assert_eq!(m, "GCS put error: status 412"),
        other => panic!("unexpected {other:?}"),
    }
    assert_eq!(
        patch_response(200, &body, None).unwrap().version,
        Version::new("1700")
    );
    assert!(matches!(
        patch_response(404, &vec![], None),
        Err(Error::NotFound)
    ));
    assert!(matches!(
        patch_response(412, &vec![], Some(Condition::IfVersionMatches(Version::new("3")))),
        Err(Error::ConditionFailed {
            condition: Condition::IfVersionMatches(_)
        })
    ));
    match patch_response(500, &vec![], None) {
        Err(Error::Other(m)) => assert_eq!(m, "GCS patch error: status 500"),
        other => panic!("unexpected {other:?}"),
    }
}
