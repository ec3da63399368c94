use lance_conversion::source::huggingface::{parquet_paths, shard_paths};
use lance_conversion::source::parquet::{
    plan_parquet_paths, plan_row_groups, ParquetFooter, ParquetReadMode,
};
use lance_conversion::source::{HuggingFaceSource, DEFAULT_MAX_READ_PARALLELISM};

fn footer(path: &str, matches_first: bool, row_groups: usize) -> ParquetFooter {
    ParquetFooter {
        path: path.to_string(),
        matches_first,
        row_groups,
    }
}

#[test]
fn defaults_match_sql_api() {
    let source = HuggingFaceSource::new("owner/dataset".to_string());
    assert_eq!(source.config, "default");
    assert_eq!(source.split, "train");
    assert!(source.token.is_none());
    assert!(source.preserve_insertion_order);
    assert_eq!(
        source.read_options.max_read_parallelism,
        DEFAULT_MAX_READ_PARALLELISM
    );
}

#[test]
fn filters_and_sorts_parquet_shards() {
    let paths = parquet_paths(vec![
        ("default/train/2.parquet".into(), true),
        ("default/train/_metadata".into(), true),
        ("default/train/1.PARQUET".into(), true),
        ("default/train/directory.parquet".into(), false),
    ]);
    assert_eq!(
        paths,
        vec!["default/train/1.PARQUET", "default/train/2.parquet"]
    );
}

#[test]
fn rejects_empty_and_mismatched_shards() {
    let error = shard_paths(vec![("default/train/".to_string(), false)]).unwrap_err();
    assert!(error.to_text().contains("no Parquet shards"));

    let footers = vec![
        footer("default/train/1.parquet", true, 1),
        footer("default/train/2.parquet", false, 1),
        footer("default/train/3.parquet", false, 1),
    ];
    let error = plan_row_groups(&footers).unwrap_err();
    assert!(error.to_text().contains("schema does not match"));
    assert_eq!(
        error.inner().message,
        "Parquet schema does not match the first file: default/train/2.parquet"
    );
}

#[test]
fn shards_are_sorted_by_their_bytes() {
    let names = ["b.parquet", "\u{e9}.parquet", "a/z.parquet", "B.parquet", "a.parquet", "b.parquet"];
    let entries = names.iter().map(|name| (name.to_string(), true)).collect();
    let mut expected = names.to_vec();
    expected.sort_unstable();
    assert_eq!(shard_paths(entries).unwrap(), expected);
}

#[test]
fn row_groups_are_listed_in_order() {
    let footers = vec![
        footer("1", true, 2),
        footer("2", true, 0),
        footer("3", true, 1),
    ];
    assert_eq!(
        plan_row_groups(&footers).unwrap(),
        [(0, 0), (0, 1), (2, 0)]
    );
    assert_eq!(
        plan_row_groups(&Vec::new()).unwrap_err().inner().message,
        "Parquet source contains no .parquet files"
    );
}

#[test]
fn reads_are_planned() {
    let paths = vec!["1".to_string(), "2".to_string()];
    assert_eq!(
        plan_parquet_paths(&paths, 1024, true, 8).unwrap(),
        ParquetReadMode::InOrder
    );
    assert_eq!(
        plan_parquet_paths(&paths, 1024, false, 8).unwrap(),
        ParquetReadMode::RowGroups(2)
    );
    let message = |paths: &Vec<String>, batch_size: usize, parallelism: usize| {
        plan_parquet_paths(paths, batch_size, true, parallelism)
            .unwrap_err()
            .inner()
            .message
            .clone()
    };
    assert_eq!(message(&paths, 0, 8), "batch_size must be positive");
    assert_eq!(
        message(&Vec::new(), 1, 8),
        "Parquet source contains no .parquet files"
    );
    assert_eq!(
        message(&paths, 1, 0),
        "max_read_parallelism must be positive"
    );
}

#[test]
fn datasets_are_described() {
    let source = HuggingFaceSource::new("owner/dataset".to_string())
        .with_config("en".to_string())
        .with_split("test".to_string())
        .with_token("SECRET-REDACTED".to_string())
        .with_batch_size(7)
        .with_preserve_insertion_order(false)
        .with_max_read_parallelism(3);
    assert_eq!(source.plan().unwrap(), "en/test/");
    assert_eq!(source.batch_size, 7);
    assert!(!source.preserve_insertion_order);
    assert_eq!(source.read_options.max_read_parallelism, 3);
    let settings = source.settings();
    assert_eq!(settings.repo_type, "dataset");
    assert_eq!(settings.repo_id, "owner/dataset");
    assert_eq!(settings.revision, "refs/convert/parquet");
    assert_eq!(settings.download_mode, "http");
    assert_eq!(settings.token.as_deref(), Some("SECRET-REDACTED"));
    assert_eq!(
        source.context(),
        "reading Hugging Face dataset 'owner/dataset' config 'en' split 'test'"
    );
}

#[test]
fn unusable_datasets_are_refused() {
    let message = |source: HuggingFaceSource| source.plan().unwrap_err().inner().message.clone();
    let source = || HuggingFaceSource::new("owner/dataset".to_string());
    assert_eq!(
        message(source().with_batch_size(0).with_max_read_parallelism(0)),
        "batch_size must be positive"
    );
    assert_eq!(
        message(source().with_max_read_parallelism(0)),
        "max_read_parallelism must be positive"
    );
    let empty = "dataset, config, and split must not be empty";
    assert_eq!(message(source().with_config(String::new())), empty);
    assert_eq!(message(source().with_split(String::new())), empty);
    assert_eq!(message(HuggingFaceSource::new(String::new())), empty);
}
