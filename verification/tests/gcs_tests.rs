use tikv::gcs::{change_host, parse_predefined_acl, parse_storage_class, PredefinedAcl,
    StorageClass};

const GOOGLE_APIS: &str = "https://www.googleapis.com";

const HARDCODED_ENDPOINTS: &[&str] = &[
    "https://www.googleapis.com/upload/storage/v1",
    "https://www.googleapis.com/storage/v1",
];

#[test]
fn test_change_host() {
    let host = "http://localhost:4443";
    assert_eq!(
        &change_host(host, &format!("{}/storage/v1/foo", GOOGLE_APIS)).unwrap(),
        "http://localhost:4443/storage/v1/foo"
    );

    let h1 = url::Url::parse(HARDCODED_ENDPOINTS[0]).unwrap();
    let h2 = url::Url::parse(HARDCODED_ENDPOINTS[1]).unwrap();

    let endpoint = "http://example.com";
    assert_eq!(
        &change_host(endpoint, h1.as_str()).unwrap(),
        "http://example.com/upload/storage/v1"
    );
    assert_eq!(
        &change_host(endpoint, h2.as_str()).unwrap(),
        "http://example.com/storage/v1"
    );
    assert_eq!(
        &change_host(endpoint, &format!("{}/foo", h2)).unwrap(),
        "http://example.com/storage/v1/foo"
    );
    assert!(matches!(&change_host(endpoint, "foo"), None));

    // if we get the endpoint with suffix "/storage/v1/"
    let endpoint = "http://example.com/storage/v1/";
    assert_eq!(
        &change_host(endpoint, &format!("{}/foo", h2)).unwrap(),
        "http://example.com/storage/v1/foo"
    );

    let endpoint = "http://example.com/upload/storage/v1/";
    assert_eq!(
        &change_host(endpoint, &format!("{}/foo", h2)).unwrap(),
        "http://example.com/storage/v1/foo"
    );
}

#[test]
fn test_parse_storage_class() {
    assert!(matches!(
        parse_storage_class("STANDARD"),
        Ok(Some(StorageClass::Standard))
    ));
    assert!(matches!(parse_storage_class(""), Ok(None)));
    assert!(matches!(
        parse_storage_class("NOT_A_STORAGE_CLASS"),
        Err("NOT_A_STORAGE_CLASS")
    ));
}

#[test]
fn test_parse_acl() {
    assert!(matches!(
        parse_predefined_acl("private"),
        Ok(Some(PredefinedAcl::Private))
    ));
    assert!(matches!(parse_predefined_acl(""), Ok(None)));
    assert!(matches!(parse_predefined_acl("notAnACL"), Err("notAnACL")));
}
