use lance_conversion::error::IoFailure;
use lance_conversion::schema::{validate_schema, DataType, Field, Schema, TimeUnit};
use lance_conversion::sink::lance::{
    check_batch, count_rows, destination_text, plan_write, stream_step, write_context,
    write_outcome, BatchAction, Received, StreamStep, WriterState,
};
use lance_conversion::sink::lance_index::{
    index_settings, partition_count, IndexKind, IndexMethod, LanceIndexPlan, Metric,
};
use lance_conversion::sink::{LanceWriter, WriteMode, WriteOptions, WriteSummary};
use lance_conversion::storage::OpendalStorage;
use lance_conversion::writer::{
    destination_name, removes_destination, reserve_destination, LanceSink, Reservation,
};
use lance_conversion::{Error, ErrorStatus, Place};

const HERE: Place = Place {
    file: "src/a.rs",
    line: 1,
    column: 2,
};

fn field(name: &str, data_type: DataType, arrow_type: &str) -> Field {
    Field::new(name, data_type, arrow_type, true)
}

fn table() -> Schema {
    Schema::new(vec![
        field("id", DataType::Int64, "Int64"),
        field("name", DataType::Utf8, "Utf8"),
        field("category", DataType::Utf8, "Utf8"),
        field(
            "embedding",
            DataType::FixedSizeList(Box::new(field("item", DataType::Float32, "Float32")), 4),
            "FixedSizeList(4 x Float32)",
        ),
    ])
}

fn names(list: &[&str]) -> Vec<String> {
    list.iter().map(|name| name.to_string()).collect()
}

fn text(message: &str) -> Option<String> {
    Some(message.to_string())
}

fn plan_message(options: WriteOptions) -> String {
    let error = plan_write(&table(), &options).unwrap_err();
    assert!(matches!(error, Error::InvalidArgument(_)));
    error.inner().message.clone()
}

#[test]
fn index_types_are_inferred_from_the_schema() {
    let plan = plan_write(
        &table(),
        &WriteOptions {
            scalar_index_columns: names(&["id"]),
            vector_index_columns: names(&["embedding"]),
            text_index_columns: names(&["name"]),
            bloom_filter_index_columns: names(&["category"]),
            ..Default::default()
        },
    )
    .unwrap();
    assert!(plan.needs_row_count());
    let steps = plan.create(32);
    assert!(steps
        .iter()
        .all(|step| step.settings.replace && step.name.is_none()));
    let found: Vec<(&str, IndexMethod, &str)> = steps
        .iter()
        .map(|step| {
            (
                step.column.as_str(),
                step.settings.method,
                step.context.as_str(),
            )
        })
        .collect();
    assert_eq!(
        found,
        [
            (
                "category",
                IndexMethod::BloomFilter,
                "creating Bloom filter index on 'category'"
            ),
            (
                "embedding",
                IndexMethod::IvfFlat {
                    partitions: 1,
                    metric: Metric::L2
                },
                "creating vector index on 'embedding'"
            ),
            ("id", IndexMethod::BTree, "creating BTree index on 'id'"),
            ("name", IndexMethod::Inverted, "creating text index on 'name'"),
        ]
    );
}

#[test]
fn unusable_indexes_are_refused_before_a_write() {
    assert_eq!(
        plan_message(WriteOptions {
            scalar_index_columns: names(&["missing"]),
            ..Default::default()
        }),
        "index column not found: missing"
    );
    assert_eq!(
        plan_message(WriteOptions {
            text_index_columns: names(&["name", "id"]),
            ..Default::default()
        }),
        "cannot create the requested index on column 'id' with type Int64"
    );
    assert_eq!(
        plan_message(WriteOptions {
            vector_index_columns: names(&["id"]),
            ..Default::default()
        }),
        "cannot create the requested index on column 'id' with type Int64"
    );
    assert_eq!(
        plan_message(WriteOptions {
            bloom_filter_index_columns: names(&["embedding"]),
            ..Default::default()
        }),
        "cannot create the requested index on column 'embedding' with type \
         FixedSizeList(4 x Float32)"
    );
    assert_eq!(
        plan_message(WriteOptions {
            scalar_index_columns: names(&["id", "name"]),
            text_index_columns: names(&["name"]),
            ..Default::default()
        }),
        "a column cannot have multiple indexes in one write"
    );
    let none = LanceIndexPlan::new(&table(), &WriteOptions::default()).unwrap();
    assert!(!none.needs_row_count());
    assert!(none.create(10).is_empty());
}

#[test]
fn blob_columns_hold_texts_without_index() {
    let blobs = |columns: &[&str]| WriteOptions {
        blob_columns: names(columns),
        ..Default::default()
    };
    assert!(plan_write(&table(), &blobs(&["name", "category"])).is_ok());
    assert_eq!(
        plan_message(blobs(&["name", "other"])),
        "blob column not found: other"
    );
    assert_eq!(
        plan_message(blobs(&["id"])),
        "blob column 'id' must be VARCHAR, not Int64"
    );
    assert_eq!(
        plan_message(WriteOptions {
            text_index_columns: names(&["name"]),
            ..blobs(&["name"])
        }),
        "blob column 'name' cannot also be an index column"
    );
}

#[test]
fn vector_indexes_are_partitioned() {
    assert_eq!(partition_count(0), 1);
    assert_eq!(partition_count(8192), 1);
    assert_eq!(partition_count(8193), 2);
    assert_eq!(partition_count(usize::MAX), 4096);
    assert_eq!(
        index_settings(IndexKind::Vector, 16_385).method,
        IndexMethod::IvfFlat {
            partitions: 3,
            metric: Metric::L2
        }
    );
    assert_eq!(
        index_settings(IndexKind::Text, 16_385).method,
        IndexMethod::Inverted
    );
}

#[test]
fn options_have_defaults() {
    let options = WriteOptions::default();
    assert_eq!(options.mode, WriteMode::Create);
    assert_eq!(options.target_file_size, 512 * 1024 * 1024);
    assert_eq!(
        options.blob_thresholds(),
        (2 * 1024 * 1024, 16 * 1024 * 1024)
    );
    let options = WriteOptions {
        blob_inline_size_threshold: Some(0),
        blob_dedicated_size_threshold: Some(9),
        ..Default::default()
    };
    assert_eq!(options.blob_thresholds(), (0, 9));
}

#[test]
fn schemas_are_checked_to_the_last_element() {
    assert!(validate_schema(&table()).is_ok());
    assert_eq!(
        validate_schema(&Schema::new(Vec::new()))
            .unwrap_err()
            .inner()
            .message,
        "Lance requires at least one column"
    );
    let dates = field(
        "dates",
        DataType::Timestamp(TimeUnit::Microsecond, Some("UTC".to_string())),
        "Timestamp(us, \"UTC\")",
    );
    let nested = |inner: Field| {
        let list = field("l", DataType::List(Box::new(inner)), "List(..)");
        let columns = vec![field("d", DataType::Decimal128(9, 2), "Decimal128(9, 2)"), list];
        Schema::new(vec![field("s", DataType::Struct(columns), "Struct(..)")])
    };
    assert!(validate_schema(&nested(dates)).is_ok());
    let error = validate_schema(&nested(field("m", DataType::Other, "Map(..)"))).unwrap_err();
    assert_eq!(
        error.inner().message,
        "unsupported Arrow type Map(..); cast it explicitly"
    );
    let view = Schema::new(vec![field("v", DataType::Utf8View, "Utf8View")]);
    assert_eq!(
        validate_schema(&view).unwrap_err().inner().message,
        "unsupported Arrow type Utf8View; cast it explicitly"
    );
}

#[test]
fn a_lost_producer_is_a_failure() {
    assert!(matches!(stream_step(Received::Batch(3)), StreamStep::Batch));
    assert!(matches!(stream_step(Received::Finish), StreamStep::End));
    match stream_step(Received::Closed) {
        StreamStep::Fail(reason) => assert_eq!(reason, "conversion aborted before finish"),
        other => panic!("{other:?}"),
    }
}

#[test]
fn writes_are_summed_up() {
    assert_eq!(count_rows(5, 7), 12);
    assert_eq!(count_rows(u64::MAX, 2), 1);
    assert_eq!(
        write_outcome(Some(Ok(())), 12).unwrap(),
        WriteSummary { rows_written: 12 }
    );
    assert_eq!(
        write_outcome(None, 12).unwrap_err().inner().message,
        "Lance writer task panicked"
    );
    let failed = Some(Err(Error::message("full".to_string(), HERE)));
    assert_eq!(
        write_outcome(failed, 12).unwrap_err().inner().message,
        "full"
    );
    assert!(check_batch(true).is_ok());
    assert_eq!(
        check_batch(false).unwrap_err().inner().message,
        "batch schema does not match the conversion schema"
    );
}

#[test]
fn destinations_are_objects() {
    let storage = OpendalStorage::from_path("d", "/data/d.lance", None).unwrap();
    assert_eq!(
        write_context(&storage, WriteMode::Create).unwrap(),
        "creating Lance dataset"
    );
    assert_eq!(
        write_context(&storage, WriteMode::Overwrite).unwrap(),
        "OVERWRITE requires an existing valid Lance dataset"
    );
    assert_eq!(
        write_context(&storage, WriteMode::Append).unwrap(),
        "APPEND requires an existing valid Lance dataset"
    );
    let root = OpendalStorage::from_path("/", "/", None).unwrap();
    assert_eq!(
        write_context(&root, WriteMode::Create)
            .unwrap_err()
            .inner()
            .message,
        "Lance destination must not be a storage root"
    );
    assert_eq!(destination_text(text("a")).unwrap(), "a");
    assert_eq!(
        destination_text(None).unwrap_err().inner().message,
        "destination must be valid UTF-8"
    );
}

#[test]
fn a_writer_finishes_once() {
    let mut writer = LanceWriter::open();
    assert_eq!(writer.write_batch(true).unwrap(), BatchAction::Send);
    let summary = WriteSummary { rows_written: 4 };
    assert!(writer.begin_finish().is_ok());
    assert_eq!(writer.finish(true, Ok(Ok(summary))).unwrap(), summary);
    assert_eq!(writer.current_state(), WriterState::Finished);
    let done = "writer is already finished or failed";
    assert_eq!(writer.write_batch(true).unwrap_err().inner().message, done);
    assert_eq!(writer.begin_finish().unwrap_err().inner().message, done);
    assert_eq!(
        writer
            .finish(true, Ok(Ok(summary)))
            .unwrap_err()
            .inner()
            .message,
        done
    );
    assert!(!writer.abort());
    assert_eq!(writer.current_state(), WriterState::Finished);
}

#[test]
fn a_batch_of_another_schema_ends_the_write() {
    let mut writer = LanceWriter::open();
    assert_eq!(writer.write_batch(false).unwrap(), BatchAction::Abort);
    assert_eq!(writer.current_state(), WriterState::Closing);
    let summary = WriteSummary { rows_written: 0 };
    assert!(writer.join_worker(Ok(Ok(summary))).is_ok());
    assert_eq!(writer.current_state(), WriterState::Failed);
    assert_eq!(
        writer
            .join_worker(Ok(Ok(summary)))
            .unwrap_err()
            .inner()
            .message,
        "writer is closed"
    );
}

#[test]
fn a_worker_that_stops_fails_the_write() {
    let summary = WriteSummary { rows_written: 0 };
    let mut writer = LanceWriter::open();
    assert_eq!(
        writer.batch_refused(Ok(Ok(summary))).inner().message,
        "Lance writer stopped before accepting a batch"
    );
    assert_eq!(writer.current_state(), WriterState::Failed);

    let mut writer = LanceWriter::open();
    let error = writer.batch_refused(Ok(Err(Error::message("disk full".to_string(), HERE))));
    assert_eq!(error.inner().message, "disk full");

    let mut writer = LanceWriter::open();
    let error = writer.finish(true, Err("cancelled".to_string())).unwrap_err();
    assert_eq!(error.inner().message, "Lance writer task failed: async task error");
    assert_eq!(error.status(), ErrorStatus::Permanent);
    assert_eq!(error.inner().source.as_deref(), Some("cancelled"));
    assert!(error.inner().location.is_some());
    assert_eq!(writer.current_state(), WriterState::Failed);

    let mut writer = LanceWriter::open();
    assert_eq!(
        writer
            .finish(false, Ok(Ok(summary)))
            .unwrap_err()
            .inner()
            .message,
        "Lance writer stopped before finish"
    );
    assert_eq!(writer.current_state(), WriterState::Failed);

    let mut writer = LanceWriter::open();
    assert!(writer.abort());
    assert_eq!(writer.current_state(), WriterState::Closing);
}

#[test]
fn local_destinations_are_reserved() {
    assert_eq!(destination_name("out/new.lance").unwrap(), "new.lance");
    assert_eq!(
        destination_name("s3://bucket/new.lance")
            .unwrap_err()
            .inner()
            .message,
        "only local Lance destinations are supported"
    );
    assert_eq!(
        destination_name("out/..").unwrap_err().inner().message,
        "destination must name a new dataset directory"
    );
    assert!(reserve_destination("d", false, Reservation::Created).unwrap());
    let occupied = |is_directory: bool| Reservation::Occupied {
        is_directory,
        message: "File exists".to_string(),
    };
    assert!(!reserve_destination("d", true, occupied(true)).unwrap());
    assert_eq!(
        reserve_destination("d", true, occupied(false))
            .unwrap_err()
            .inner()
            .message,
        "overwrite requires an existing Lance dataset directory"
    );
    let error = reserve_destination("d", false, occupied(true)).unwrap_err();
    assert_eq!(
        error.inner().message,
        "creating destination d (must not exist unless OVERWRITE is enabled): I/O error"
    );
    let refused = Reservation::Refused {
        failure: IoFailure::Interrupted,
        message: "stop".to_string(),
    };
    assert!(reserve_destination("d", true, refused).is_err());
    assert!(removes_destination(true, true));
    assert!(!removes_destination(true, false));
    assert!(!removes_destination(false, true));
}

#[test]
fn a_local_sink_counts_rows() {
    let mut sink = LanceSink::new();
    sink.begin_batch(true).unwrap();
    sink.batch_sent(5);
    assert_eq!(
        sink.finish(true, Ok(Ok(()))).unwrap(),
        WriteSummary { rows_written: 5 }
    );
    assert!(sink.committed);
    assert_eq!(
        sink.begin_batch(true).unwrap_err().inner().message,
        "writer is already finished or failed"
    );

    let mut sink = LanceSink::new();
    assert_eq!(
        sink.begin_batch(false).unwrap_err().inner().message,
        "batch schema does not match the conversion schema"
    );
    assert!(sink.failed && !sink.open);

    let mut sink = LanceSink::new();
    assert_eq!(
        sink.finish(false, Ok(Ok(()))).unwrap_err().inner().message,
        "Lance writer stopped before finish"
    );
    assert_eq!(
        sink.finish(true, Ok(Ok(()))).unwrap_err().inner().message,
        "writer is closed"
    );

    let mut sink = LanceSink::new();
    assert_eq!(
        sink.batch_refused(Ok(Ok(()))).inner().message,
        "Lance writer stopped before accepting a batch"
    );
    let mut sink = LanceSink::new();
    let failed = Ok(Err(Error::message("disk full".to_string(), HERE)));
    assert_eq!(
        sink.finish(true, failed).unwrap_err().inner().message,
        "disk full"
    );
    assert!(sink.failed);
}
