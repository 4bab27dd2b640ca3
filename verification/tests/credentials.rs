//! Credential options and the cloud settings they lead to.
use sedona_core::credentials::ZarrCredentialOptions;
use sedona_core::object_store_backends::{
    azure_location, build_azure, build_gcs, build_http, build_s3, gcs_location, http_location,
    parse_bool, parse_url, s3_location, UrlParts,
};
use sedona_core::source_uri::parse_zarr_uri;

fn options(pairs: &[(&str, &str)]) -> ZarrCredentialOptions {
    ZarrCredentialOptions::new(
        pairs
            .iter()
            .map(|(k, v)| (k.to_string(), v.to_string()))
            .collect(),
    )
}

#[test]
fn options_are_found_by_key() {
    let creds = options(&[("aws.region", "eu"), ("gcp.x", "1"), ("aws.region", "us")]);
    assert_eq!(creds.get("aws.region"), Some("us"));
    assert_eq!(creds.get("gcp.x"), Some("1"));
    assert_eq!(creds.get("aws"), None);
    assert_eq!(options(&[("aws.region", "")]).get("aws.region"), None);
    assert_eq!(ZarrCredentialOptions::default().get("aws.region"), None);
}

#[test]
fn a_namespace_is_listed_without_its_prefix() {
    let creds = ZarrCredentialOptions::from(vec![
        ("aws.region".to_string(), "eu".to_string()),
        ("azure.tenant_id".to_string(), "t".to_string()),
        ("aws.endpoint".to_string(), "e".to_string()),
    ]);
    let mut aws = creds.iter_namespace("aws.");
    aws.sort();
    assert_eq!(aws, vec![("endpoint", "e"), ("region", "eu")]);
    assert!(creds.iter_namespace("gcp.").is_empty());
}

#[test]
fn booleans_are_read_in_any_case() {
    for text in ["true", "1", "yes", "on", "TRUE", "Yes"] {
        assert!(parse_bool("k", text).unwrap());
    }
    for text in ["false", "0", "no", "off", "OFF", "nO"] {
        assert!(!parse_bool("k", text).unwrap());
    }
    assert_eq!(
        parse_bool("aws.allow_http", "may\"be").unwrap_err().message(),
        "credential option \"aws.allow_http\" must be a boolean (true/false); got \"may\\\"be\""
    );
}

#[test]
fn urls_are_taken_apart() {
    let parts = parse_url("HTTPS://Example.com:8443/a%20b/c?q#f").unwrap();
    assert_eq!(parts.scheme, "https");
    assert_eq!(parts.host.as_deref(), Some("example.com"));
    assert_eq!(parts.port, Some(8443));
    assert_eq!(parts.path, "/a%20b/c");
    assert_eq!(
        parse_url("http://[").unwrap_err().message(),
        "invalid Zarr URI \"http://[\": invalid IPv6 address"
    );
}

#[test]
fn s3_options_are_overlaid() {
    let creds = options(&[
        ("aws.access_key_id", "id"),
        ("aws.secret_access_key", "secret"),
        ("aws.session_token", "token"),
        ("aws.region", "eu"),
        ("aws.endpoint", "http://localhost"),
        ("aws.allow_http", "yes"),
        ("aws.skip_signature", "off"),
    ]);
    let (store, path) = build_s3("s3://bucket/a/b.zarr", &creds).unwrap();
    assert_eq!(path, "a/b.zarr");
    assert_eq!(store.url, "s3://bucket/a/b.zarr");
    assert_eq!(store.access_key_id.as_deref(), Some("id"));
    assert_eq!(store.secret_access_key.as_deref(), Some("secret"));
    assert_eq!(store.session_token.as_deref(), Some("token"));
    assert_eq!(store.region.as_deref(), Some("eu"));
    assert_eq!(store.endpoint.as_deref(), Some("http://localhost"));
    assert_eq!(store.allow_http, Some(true));
    assert_eq!(store.skip_signature, Some(false));

    let (store, _) = build_s3("s3://bucket", &ZarrCredentialOptions::default()).unwrap();
    assert_eq!(store.access_key_id, None);
    assert_eq!(store.allow_http, None);

    let err = build_s3("s3://bucket", &options(&[("aws.allow_http", "maybe")])).unwrap_err();
    assert!(err.message().contains("aws.allow_http"));
    let err = build_s3("s3://bucket", &options(&[("aws.skip_signature", "x")])).unwrap_err();
    assert!(err.message().contains("aws.skip_signature"));
}

#[test]
fn gcs_options_are_overlaid() {
    let creds = options(&[
        ("gcp.service_account_path", "p"),
        ("gcp.service_account_key", "k"),
        ("gcp.application_credentials_path", "a"),
    ]);
    let (store, path) = build_gcs("gs://bucket//x", &creds).unwrap();
    assert_eq!(path, "x");
    assert_eq!(store.url, "gs://bucket//x");
    assert_eq!(store.service_account_path.as_deref(), Some("p"));
    assert_eq!(store.service_account_key.as_deref(), Some("k"));
    assert_eq!(store.application_credentials_path.as_deref(), Some("a"));
}

#[test]
fn azure_options_are_overlaid() {
    let creds = options(&[
        ("azure.account_name", "n"),
        ("azure.account_key", "k"),
        ("azure.client_id", "i"),
        ("azure.client_secret", "s"),
        ("azure.tenant_id", "t"),
        ("azure.use_emulator", "1"),
    ]);
    let (store, path) = build_azure("az://container/x/y", &creds).unwrap();
    assert_eq!(path, "x/y");
    assert_eq!(store.account_name.as_deref(), Some("n"));
    assert_eq!(store.account_key.as_deref(), Some("k"));
    assert_eq!(store.client_id.as_deref(), Some("i"));
    assert_eq!(store.client_secret.as_deref(), Some("s"));
    assert_eq!(store.tenant_id.as_deref(), Some("t"));
    assert_eq!(store.use_emulator, Some(true));
    assert!(build_azure("az://c", &options(&[("azure.use_emulator", "x")])).is_err());
}

#[test]
fn http_stores_are_based_on_the_host() {
    let creds = ZarrCredentialOptions::default();
    let (store, path) = build_http("http://example.com/data/g.zarr", &creds).unwrap();
    assert_eq!(store.base, "http://example.com");
    assert_eq!(path, "data/g.zarr");
    let (store, _) = build_http("http://example.com:8080/g", &creds).unwrap();
    assert_eq!(store.base, "http://example.com:8080");
    let err = build_http("http://", &creds).unwrap_err().message();
    assert_eq!(err, "invalid Zarr URI \"http://\": empty host");
}

#[test]
fn locations_follow_the_parts_of_a_url() {
    let creds = ZarrCredentialOptions::default();
    let parts = |host: Option<&str>, port| UrlParts {
        scheme: "http".to_string(),
        host: host.map(|h| h.to_string()),
        port,
        path: "//a/b".to_string(),
    };
    let (store, path) = http_location("u", &parts(Some("h"), Some(81))).unwrap();
    assert_eq!((store.base.as_str(), path.as_str()), ("http://h:81", "a/b"));
    assert_eq!(
        http_location("u", &parts(None, None)).unwrap_err().message(),
        "Zarr URI \"u\" has no host component"
    );
    assert_eq!(s3_location("u", &parts(None, None), &creds).unwrap().1, "a/b");
    assert_eq!(gcs_location("u", &parts(None, None), &creds).1, "a/b");
    assert_eq!(azure_location("u", &parts(None, None), &creds).unwrap().1, "a/b");
}

#[test]
fn unknown_options_change_nothing() {
    let plain = options(&[("aws.region", "eu")]);
    let noisy = options(&[("aws.region", "eu"), ("aws.colour", "red"), ("x", "y")]);
    let text = |creds: &ZarrCredentialOptions| {
        let (storage, path) = parse_zarr_uri("s3://b/g", creds).unwrap();
        format!("{:?} {}", storage, path)
    };
    assert_eq!(text(&plain), text(&noisy));
}

#[test]
fn gcs_is_read_as_gs() {
    let creds = options(&[("gcp.service_account_path", "p")]);
    let (short, path) = build_gcs("gs://bucket/foo.zarr", &creds).unwrap();
    let (long, long_path) = build_gcs("gcs://bucket/foo.zarr", &creds).unwrap();
    assert_eq!(short.url, "gs://bucket/foo.zarr");
    assert_eq!(long.url, short.url);
    assert_eq!(long_path, path);
    assert_eq!(path, "foo.zarr");
    assert_eq!(long.service_account_path, short.service_account_path);
    let text = |uri: &str| format!("{:?}", parse_zarr_uri(uri, &creds).unwrap());
    assert_eq!(text("gcs://bucket/foo.zarr"), text("gs://bucket/foo.zarr"));
    let err = build_gcs("gcs://[", &creds).unwrap_err().message();
    assert_eq!(err, "invalid Zarr URI \"gcs://[\": invalid IPv6 address");
}

#[test]
fn gcs_settings_open_a_store() {
    let parts = UrlParts {
        scheme: "gs".to_string(),
        host: Some("bucket".to_string()),
        port: None,
        path: "/foo.zarr".to_string(),
    };
    let creds = ZarrCredentialOptions::default();
    for uri in ["gs://bucket/foo.zarr", "gcs://bucket/foo.zarr"] {
        let (store, _) = gcs_location(uri, &parts, &creds);
        let built = object_store::gcp::GoogleCloudStorageBuilder::new()
            .with_url(store.url)
            .with_skip_signature(true)
            .build();
        assert!(built.is_ok(), "{uri}");
    }
}
