use sedona_core::credentials::ZarrCredentialOptions;
use sedona_core::source_uri::{
    absolute_group_path, build_chunk_anchor, parse_chunk_anchor, parse_zarr_uri, ChunkAnchor,
    ZarrStorage,
};

#[test]
fn build_anchor_basic() {
    let uri = build_chunk_anchor("file:///tmp/datacube.zarr", "temperature", &[47, 2, 3]);
    assert_eq!(
        uri,
        "file:///tmp/datacube.zarr#array=temperature&chunk=47,2,3"
    );
}

#[test]
fn build_anchor_strips_leading_slash_on_array_path() {
    let uri = build_chunk_anchor("file:///tmp/foo.zarr", "/array", &[0]);
    assert_eq!(uri, "file:///tmp/foo.zarr#array=array&chunk=0");
}

#[test]
fn build_anchor_with_nested_array_path() {
    let uri = build_chunk_anchor("s3://bucket/foo.zarr/2024", "subgroup/B01", &[1, 5]);
    assert_eq!(
        uri,
        "s3://bucket/foo.zarr/2024#array=subgroup/B01&chunk=1,5"
    );
}

#[test]
fn parse_anchor_basic() {
    let anchor =
        parse_chunk_anchor("file:///tmp/datacube.zarr#array=temperature&chunk=47,2,3").unwrap();
    assert_eq!(anchor.store_uri, "file:///tmp/datacube.zarr");
    assert_eq!(anchor.array_path, "temperature");
    assert_eq!(anchor.chunk_indices, vec![47, 2, 3]);
}

#[test]
fn parse_anchor_with_s3_store_and_nested_array() {
    let anchor =
        parse_chunk_anchor("s3://bucket/foo.zarr/2024#array=subgroup/B01&chunk=0,0,0").unwrap();
    assert_eq!(anchor.store_uri, "s3://bucket/foo.zarr/2024");
    assert_eq!(anchor.array_path, "subgroup/B01");
    assert_eq!(anchor.chunk_indices, vec![0, 0, 0]);
}

#[test]
fn parse_anchor_rejects_missing_fragment() {
    let err = parse_chunk_anchor("file:///foo.zarr").unwrap_err().message();
    assert!(err.contains("fragment"), "{err}");
}

#[test]
fn parse_anchor_rejects_missing_array_param() {
    let err = parse_chunk_anchor("file:///foo.zarr#chunk=0")
        .unwrap_err()
        .message();
    assert!(err.contains("array="), "{err}");
}

#[test]
fn parse_anchor_rejects_missing_chunk_param() {
    let err = parse_chunk_anchor("file:///foo.zarr#array=a")
        .unwrap_err()
        .message();
    assert!(err.contains("chunk="), "{err}");
}

#[test]
fn parse_anchor_rejects_empty_indices() {
    let err = parse_chunk_anchor("file:///foo.zarr#array=a&chunk=")
        .unwrap_err()
        .message();
    assert!(err.contains("empty"), "{err}");
}

#[test]
fn parse_anchor_rejects_non_integer_index() {
    let err = parse_chunk_anchor("file:///foo.zarr#array=a&chunk=0,abc,2")
        .unwrap_err()
        .message();
    assert!(err.contains("abc"), "{err}");
}

#[test]
fn parse_anchor_ignores_unknown_fragment_params() {
    // Extra `&key=value` pairs in the fragment do not break parsing.
    let anchor = parse_chunk_anchor("file:///foo.zarr#array=t&chunk=0,0&version=v3").unwrap();
    assert_eq!(anchor.array_path, "t");
    assert_eq!(anchor.chunk_indices, vec![0, 0]);
}

#[test]
fn anchor_roundtrip() {
    let original = ChunkAnchor {
        store_uri: "file:///tmp/foo.zarr".into(),
        array_path: "subgroup/B01".into(),
        chunk_indices: vec![10, 20, 30],
    };
    let uri = build_chunk_anchor(
        &original.store_uri,
        &original.array_path,
        &original.chunk_indices,
    );
    let parsed = parse_chunk_anchor(&uri).unwrap();
    assert_eq!(parsed, original);
}

#[test]
fn anchor_messages() {
    let message = |uri: &str| parse_chunk_anchor(uri).unwrap_err().message();
    assert_eq!(
        message("file:///f"),
        "chunk anchor URI missing `#array=...&chunk=...` fragment: file:///f"
    );
    assert_eq!(
        message("f#chunk=0"),
        "chunk anchor URI fragment missing `array=` parameter: f#chunk=0"
    );
    assert_eq!(
        message("f#array=a"),
        "chunk anchor URI fragment missing `chunk=` parameter: f#array=a"
    );
    assert_eq!(
        message("f#array=a&chunk="),
        "chunk anchor URI has empty index list: f#array=a&chunk="
    );
    assert_eq!(
        message("f#array=a&chunk=0,-1"),
        "chunk index `-1` is not a non-negative integer in f#array=a&chunk=0,-1"
    );
}

#[test]
fn anchor_indices_up_to_the_largest_are_read() {
    let uri = build_chunk_anchor("f", "a", &[u64::MAX, 0]);
    assert_eq!(uri, "f#array=a&chunk=18446744073709551615,0");
    assert_eq!(
        parse_chunk_anchor(&uri).unwrap().chunk_indices,
        vec![u64::MAX, 0]
    );
    assert!(parse_chunk_anchor("f#array=a&chunk=18446744073709551616").is_err());
    assert!(parse_chunk_anchor("f#array=a&chunk=1,,2").is_err());
}

#[test]
fn the_last_of_repeated_parameters_counts() {
    let anchor = parse_chunk_anchor("f#array=a&chunk=1&array=b&chunk=2").unwrap();
    assert_eq!(anchor.array_path, "b");
    assert_eq!(anchor.chunk_indices, vec![2]);
}

#[test]
fn parse_zarr_uri_file_scheme() {
    let creds = ZarrCredentialOptions::default();
    let (storage, group_path) = parse_zarr_uri("file:///tmp/foo.zarr", &creds).unwrap();
    assert_eq!(group_path, "/");
    assert!(matches!(storage, ZarrStorage::Filesystem { path } if path == "/tmp/foo.zarr"));
}

#[test]
fn parse_zarr_uri_bare_path() {
    let creds = ZarrCredentialOptions::default();
    let (storage, group_path) = parse_zarr_uri("/tmp/foo.zarr", &creds).unwrap();
    assert_eq!(group_path, "/");
    assert!(matches!(storage, ZarrStorage::Filesystem { path } if path == "/tmp/foo.zarr"));
}

#[test]
fn parse_zarr_uri_rejects_unknown_scheme() {
    let creds = ZarrCredentialOptions::default();
    let err = match parse_zarr_uri("ftp://example.com/foo.zarr", &creds) {
        Ok(_) => panic!("expected error for unknown scheme"),
        Err(e) => e.message(),
    };
    assert!(err.contains("ftp"), "{err}");
    assert!(err.contains("unsupported"), "{err}");
    assert_eq!(
        err,
        "unsupported Zarr URI scheme \"ftp\" in ftp://example.com/foo.zarr; expected one of \
         file/s3/gs/gcs/az/abfs/abfss/http/https or a bare path"
    );
}

#[test]
fn parse_zarr_uri_finds_every_cloud() {
    let creds = ZarrCredentialOptions::default();
    let kind = |uri: &str| {
        let (storage, path) = parse_zarr_uri(uri, &creds).unwrap();
        let kind = match storage {
            ZarrStorage::Filesystem { .. } => "file",
            ZarrStorage::S3(_) => "s3",
            ZarrStorage::Gcs(_) => "gcs",
            ZarrStorage::Azure(_) => "azure",
            ZarrStorage::Http(_) => "http",
        };
        (kind, path)
    };
    assert_eq!(kind("s3://bucket/a/b.zarr"), ("s3", "/a/b.zarr".to_string()));
    assert_eq!(kind("gs://bucket/b.zarr"), ("gcs", "/b.zarr".to_string()));
    assert_eq!(kind("gcs://bucket"), ("gcs", "/".to_string()));
    assert_eq!(kind("az://c/b.zarr"), ("azure", "/b.zarr".to_string()));
    assert_eq!(kind("abfs://c/b.zarr"), ("azure", "/b.zarr".to_string()));
    assert_eq!(kind("abfss://c/b.zarr"), ("azure", "/b.zarr".to_string()));
    assert_eq!(kind("http://h/b.zarr"), ("http", "/b.zarr".to_string()));
    assert_eq!(kind("https://h:8443//b.zarr"), ("http", "/b.zarr".to_string()));
}

#[test]
fn group_paths_are_absolute() {
    assert_eq!(absolute_group_path(String::new()), "/");
    assert_eq!(absolute_group_path("a/b".to_string()), "/a/b");
    assert_eq!(absolute_group_path("//a".to_string()), "/a");
}
