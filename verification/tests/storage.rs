use lance_conversion::storage::{io_parallelism, is_s3_uri, OpendalStorage, S3StorageConfig, UrlParts};

fn message(path: &str, config: Option<&S3StorageConfig>) -> String {
    OpendalStorage::from_path(path, "/absolute", config)
        .unwrap_err()
        .inner()
        .message
        .clone()
}

fn s3(config: &S3StorageConfig) -> lance_conversion::storage::S3Settings {
    OpendalStorage::from_path("s3://bucket/data", "", Some(config))
        .unwrap()
        .s3
        .unwrap()
}

#[test]
fn parses_s3_bucket_and_object_path() {
    let storage = OpendalStorage::from_path(
        "s3://example-bucket/path/data.parquet",
        "",
        Some(&Default::default()),
    )
    .unwrap();
    assert_eq!(storage.object_path, "path/data.parquet");
    assert_eq!(storage.s3.unwrap().bucket, "example-bucket");
    assert_eq!(storage.location, "s3://example-bucket/path/data.parquet");
}

#[test]
fn rejects_partial_static_credentials() {
    let error = OpendalStorage::from_path(
        "s3://example-bucket/path",
        "",
        Some(&S3StorageConfig {
            key_id: Some("key".into()),
            ..Default::default()
        }),
    )
    .err()
    .unwrap();
    assert!(error.to_text().contains("provided together"));
}

#[test]
fn schemes_are_matched_in_any_case() {
    assert!(is_s3_uri("s3://bucket"));
    assert!(is_s3_uri("S3://bucket"));
    assert!(!is_s3_uri("s3:/bucket"));
    assert!(!is_s3_uri("\u{e9}3://"));
    assert!(!is_s3_uri("s3"));
    let storage =
        OpendalStorage::from_path("S3://bucket/a b", "", Some(&Default::default())).unwrap();
    assert!(storage.location.starts_with("s3://bucket/"));
}

#[test]
fn paths_and_configurations_go_together() {
    assert_eq!(
        message("s3://bucket/data", None),
        "S3 path requires S3 storage configuration"
    );
    assert_eq!(
        message("data", Some(&Default::default())),
        "S3 storage configuration can only be used with an s3:// path"
    );
}

#[test]
fn unusable_uris_are_refused() {
    let config = S3StorageConfig::default();
    assert_eq!(
        message("s3:///data", Some(&config)),
        "S3 URI must include a bucket"
    );
    let error = OpendalStorage::from_path("s3://[", "", Some(&config)).unwrap_err();
    assert_eq!(
        error.inner().message,
        "invalid S3 URI: URL parse error"
    );
    assert!(error.inner().source().is_some());
    let parts = UrlParts {
        scheme: "http".to_string(),
        host: Some("bucket".to_string()),
        path: "/data".to_string(),
        text: "http://bucket/data".to_string(),
    };
    assert_eq!(
        OpendalStorage::from_s3_url(parts, &config)
            .unwrap_err()
            .inner()
            .message,
        "expected an s3:// URI"
    );
    let token = S3StorageConfig {
        session_token: Some("token".to_string()),
        ..Default::default()
    };
    assert_eq!(
        message("s3://bucket/data", Some(&token)),
        "S3 session token requires a key ID and secret"
    );
}

#[test]
fn connections_are_described() {
    let plain = s3(&S3StorageConfig::default());
    assert_eq!(plain.region, "us-east-1");
    assert!(plain.endpoint.is_none());
    assert!(plain.credentials.is_none());
    assert!(!plain.virtual_host_style);

    let config = S3StorageConfig {
        endpoint: Some("localhost:9000".to_string()),
        region: Some("eu".to_string()),
        key_id: Some("key".to_string()),
        secret: Some("word".to_string()),
        session_token: Some("token".to_string()),
        use_ssl: false,
        virtual_host_style: true,
    };
    let full = s3(&config.clone());
    assert_eq!(full.region, "eu");
    assert_eq!(full.endpoint.as_deref(), Some("http://localhost:9000"));
    assert!(full.virtual_host_style);
    let credentials = full.credentials.unwrap();
    assert_eq!(credentials.key_id, "key");
    assert_eq!(credentials.secret, "word");
    assert_eq!(credentials.session_token.as_deref(), Some("token"));

    let secure = S3StorageConfig {
        endpoint: Some("localhost".to_string()),
        ..Default::default()
    };
    assert_eq!(s3(&secure).endpoint.as_deref(), Some("https://localhost"));
    let spelled = S3StorageConfig {
        endpoint: Some("ftp://localhost".to_string()),
        ..Default::default()
    };
    assert_eq!(s3(&spelled).endpoint.as_deref(), Some("ftp://localhost"));
}

#[test]
fn local_paths_are_objects_below_the_root() {
    let storage = OpendalStorage::from_path("data.lance", "/home/user/data.lance", None).unwrap();
    assert!(storage.s3.is_none());
    assert_eq!(storage.object_path, "home/user/data.lance");
    assert_eq!(storage.location, "file:///home/user/data.lance");
    assert!(!storage.is_root());
    let root = OpendalStorage::from_path("/", "/", None).unwrap();
    assert!(root.is_root());
    assert_eq!(root.location, "file:///");
    let doubled = OpendalStorage::from_path("a", "//home/a", None).unwrap();
    assert_eq!(doubled.object_path, "home/a");
    assert!(doubled.location.starts_with("file://"));
    let error = OpendalStorage::from_path("data", "not/absolute", None).unwrap_err();
    assert_eq!(
        error.inner().message,
        "invalid local storage path: not/absolute"
    );
    let error = OpendalStorage::from_file_url("C:", None).unwrap_err();
    assert_eq!(error.inner().message, "invalid local storage path: C:");
}

#[test]
fn files_have_a_parallelism_of_their_own() {
    assert_eq!(io_parallelism("file", 8, 64), 8);
    assert_eq!(io_parallelism("s3", 8, 64), 64);
}

#[test]
fn local_paths_are_written_as_urls() {
    let expected = [
        ("/a/./b//c/", "file:///a/b/c"),
        ("/a/../b", "file:///a/../b"),
        ("/.hidden/..x", "file:///.hidden/..x"),
        ("/my data/50%", "file:///my%20data/50%25"),
        ("/caf\u{e9}", "file:///caf%C3%A9"),
        ("/a\\b\u{7f}\n", "file:///a%5Cb%7F%0A"),
        ("/\"#<>?`{}", "file:///%22%23%3C%3E%3F%60%7B%7D"),
        (
            "/!$&'()*+,-.0:;=@AZ[]^_az|~",
            "file:///!$&'()*+,-.0:;=@AZ[]^_az|~",
        ),
    ];
    for (path, url) in expected {
        let storage = OpendalStorage::from_local_path(path).unwrap();
        assert_eq!(storage.location, url, "{path}");
    }
}
