use lance_conversion::ffi::{
    escape_nulls, failure_text, optional_string, optional_threshold, required_text, s3_config,
    string_list, warc_column_index, warc_projection, write_mode, write_options,
    HuggingFaceStreamFactory, LanceS3Config, LanceWriteConfig, RawList, WarcStreamFactory,
};
use lance_conversion::sink::WriteMode;
use lance_conversion::source::warc_schema;
use lance_conversion::storage::S3StorageConfig;
use lance_conversion::{Error, Place};

const HERE: Place = Place {
    file: "src/a.rs",
    line: 1,
    column: 2,
};

fn bytes(text: &str) -> Option<Vec<u8>> {
    Some(text.as_bytes().to_vec())
}

fn list(texts: &[&str]) -> RawList {
    RawList {
        count: texts.len(),
        values: Some(texts.iter().map(|text| bytes(text)).collect()),
    }
}

fn none() -> RawList {
    RawList {
        count: 0,
        values: None,
    }
}

fn config() -> LanceWriteConfig {
    LanceWriteConfig {
        mode: 0,
        blob_inline_size_threshold: -1,
        blob_dedicated_size_threshold: -1,
        target_file_size: -1,
        blob_columns: none(),
        scalar_index_columns: none(),
        vector_index_columns: none(),
        text_index_columns: none(),
        bloom_filter_index_columns: none(),
    }
}

#[test]
fn texts_are_decoded() {
    assert_eq!(required_text(&b"caf\xc3\xa9".to_vec()).unwrap(), "caf\u{e9}");
    let error = required_text(&b"a\xff".to_vec()).unwrap_err();
    let place = error.inner().location.clone().unwrap();
    assert!(place.starts_with("src/ffi.rs:"));
    assert_eq!(
        error.to_text(),
        format!(
            "UTF-8 decode error (permanent) at {place}, caused by: \
             invalid utf-8 sequence of 1 bytes from index 1"
        )
    );
    assert_eq!(optional_string(&None).unwrap(), None);
    assert_eq!(optional_string(&bytes("")).unwrap(), None);
    assert_eq!(
        optional_string(&bytes("a")).unwrap().as_deref(),
        Some("a")
    );
}

#[test]
fn lists_are_decoded() {
    assert_eq!(string_list(&list(&["a", ""])).unwrap(), ["a", ""]);
    assert!(string_list(&none()).unwrap().is_empty());
    let missing = RawList {
        count: 1,
        values: None,
    };
    assert_eq!(
        string_list(&missing).unwrap_err().inner().message,
        "null string list"
    );
    let hole = RawList {
        count: 2,
        values: Some(vec![bytes("a"), None]),
    };
    assert_eq!(
        string_list(&hole).unwrap_err().inner().message,
        "null string list value"
    );
}

#[test]
fn thresholds_are_checked() {
    assert_eq!(optional_threshold(-1, "size", false).unwrap(), None);
    assert_eq!(optional_threshold(0, "size", true).unwrap(), Some(0));
    assert_eq!(optional_threshold(7, "size", false).unwrap(), Some(7));
    assert_eq!(
        optional_threshold(0, "size", false)
            .unwrap_err()
            .inner()
            .message,
        "size must be greater than zero"
    );
}

#[test]
fn modes_are_numbered() {
    assert_eq!(write_mode(0).unwrap(), WriteMode::Create);
    assert_eq!(write_mode(1).unwrap(), WriteMode::Append);
    assert_eq!(write_mode(2).unwrap(), WriteMode::Overwrite);
    assert_eq!(
        write_mode(-3).unwrap_err().inner().message,
        "invalid Lance write mode: -3"
    );
}

#[test]
fn options_are_taken_over() {
    let options = write_options(&config(), &None).unwrap();
    assert_eq!(options.mode, WriteMode::Create);
    assert!(options.s3_config.is_none());
    assert_eq!(options.target_file_size, 536870912);

    let options = write_options(
        &LanceWriteConfig {
            mode: 2,
            blob_inline_size_threshold: 0,
            blob_dedicated_size_threshold: 10,
            target_file_size: 20,
            blob_columns: list(&["image"]),
            scalar_index_columns: list(&["id"]),
            vector_index_columns: list(&["vector"]),
            text_index_columns: list(&["text"]),
            bloom_filter_index_columns: list(&["key", "hash"]),
        },
        &Some(LanceS3Config {
            endpoint: bytes("localhost"),
            region: bytes(""),
            key_id: None,
            secret: None,
            session_token: None,
            use_ssl: 0,
            virtual_host_style: 5,
        }),
    )
    .unwrap();
    assert_eq!(options.mode, WriteMode::Overwrite);
    assert_eq!(options.blob_inline_size_threshold, Some(0));
    assert_eq!(options.blob_dedicated_size_threshold, Some(10));
    assert_eq!(options.target_file_size, 20);
    assert_eq!(options.blob_columns, ["image"]);
    assert_eq!(options.scalar_index_columns, ["id"]);
    assert_eq!(options.vector_index_columns, ["vector"]);
    assert_eq!(options.text_index_columns, ["text"]);
    assert_eq!(options.bloom_filter_index_columns, ["key", "hash"]);
    let s3 = options.s3_config.unwrap();
    assert_eq!(s3.endpoint.as_deref(), Some("localhost"));
    assert!(s3.region.is_none());
    assert!(!s3.use_ssl);
    assert!(s3.virtual_host_style);
}

#[test]
fn unusable_options_are_refused() {
    let message = |config: LanceWriteConfig| {
        write_options(&config, &None)
            .unwrap_err()
            .inner()
            .message
            .clone()
    };
    assert_eq!(
        message(LanceWriteConfig {
            mode: 9,
            target_file_size: 0,
            ..config()
        }),
        "invalid Lance write mode: 9"
    );
    assert_eq!(
        message(LanceWriteConfig {
            blob_dedicated_size_threshold: 0,
            ..config()
        }),
        "blob dedicated size threshold must be greater than zero"
    );
    assert_eq!(
        message(LanceWriteConfig {
            target_file_size: 0,
            ..config()
        }),
        "target file size must be greater than zero"
    );
    let bad = LanceS3Config {
        endpoint: Some(vec![0xff]),
        region: None,
        key_id: None,
        secret: None,
        session_token: None,
        use_ssl: 1,
        virtual_host_style: 0,
    };
    assert!(matches!(
        s3_config(&Some(bad)).unwrap_err(),
        Error::Utf8(_)
    ));
    assert!(s3_config(&None).unwrap().is_none());
}

#[test]
fn columns_are_chosen_by_name() {
    let schema = warc_schema();
    for (index, field) in schema.fields().iter().enumerate() {
        assert_eq!(warc_column_index(field.name()), Some(index));
    }
    assert_eq!(warc_column_index("ID"), None);
    assert_eq!(
        warc_projection(&vec![bytes("body"), bytes("id")]).unwrap(),
        [19, 0]
    );
    assert_eq!(
        warc_projection(&vec![bytes("id"), bytes("url")])
            .unwrap_err()
            .inner()
            .message,
        "unknown WARC column: url"
    );
    assert_eq!(
        warc_projection(&vec![None]).unwrap_err().inner().message,
        "null WARC column name"
    );
}

#[test]
fn errors_are_handed_back_without_nulls() {
    assert_eq!(escape_nulls("a\0b\\0"), "a\\0b\\0");
    assert!(failure_text(Some(Ok(()))).is_none());
    let error = Error::message("null writer".to_string(), HERE);
    assert_eq!(
        failure_text(Some(Err(error))).unwrap(),
        "null writer (permanent) at src/a.rs:1:2"
    );
    assert_eq!(failure_text(None).unwrap(), "panic in Lance conversion FFI");
}

#[test]
fn factories_make_sources() {
    let factory = HuggingFaceStreamFactory {
        dataset: "owner/dataset".to_string(),
        config: "en".to_string(),
        split: "test".to_string(),
        token: Some("SECRET-REDACTED".to_string()),
    };
    let source = factory.source();
    assert_eq!(source.dataset, "owner/dataset");
    assert_eq!(source.config, "en");
    assert_eq!(source.split, "test");
    assert_eq!(source.token.as_deref(), Some("SECRET-REDACTED"));

    let factory = WarcStreamFactory {
        path: "s3://bucket/a.warc".to_string(),
        s3_config: Some(S3StorageConfig::default()),
    };
    let source = factory.source(vec![2]);
    assert_eq!(source.path, "s3://bucket/a.warc");
    assert!(source.s3_config.is_some());
    assert_eq!(source.columns().unwrap(), [2]);
}
