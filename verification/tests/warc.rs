use std::io::{BufRead, BufReader, Cursor, Write};

use arrow_array::{
    Array, BinaryViewArray, RecordBatch, StringArray, TimestampMillisecondArray, UInt64Array,
};
use flate2::{read::MultiGzDecoder, write::GzEncoder, Compression};
use lance_conversion::schema::{DataType, TimeUnit};
use lance_conversion::source::columns::WarcBatch;
use lance_conversion::source::warc::{
    projected_schema, resolve_projection, warc_schema, BODY_COLUMN_INDEX,
};
use lance_conversion::source::warc_batch::{WarcBatchBuilder, MAX_BATCH_BODY_BYTES};
use lance_conversion::source::warc_bytes::parse_indexed_warc_bytes;
use lance_conversion::source::warc_index::plan_indexed_reads;
use lance_conversion::source::warc_record::{
    optional_u64, projected_headers, string_header, WarcHeader, WarcRecord,
};
use lance_conversion::source::warc_stream::RecordBatcher;
use lance_conversion::source::WarcSource;
use lance_conversion::storage::S3StorageConfig;
use warc::WarcReader;

fn all() -> Vec<usize> {
    resolve_projection(None).unwrap()
}

fn record(id: usize, body: &str) -> String {
    format!(
        "WARC/1.0\r\n\
         WARC-Type: response\r\n\
         WARC-Record-ID: <urn:uuid:{id}>\r\n\
         WARC-Date: 2024-01-02T03:04:05Z\r\n\
         WARC-Target-URI: https://example.com/{id}\r\n\
         Content-Type: text/plain\r\n\
         Content-Length: {}\r\n\
         \r\n\
         {body}\r\n\
         \r\n",
        body.len()
    )
}

fn parse(
    input: &[u8],
    batch_size: usize,
    projection: Vec<usize>,
) -> lance_conversion::Result<Vec<RecordBatch>> {
    let batches = parse_indexed_warc_bytes(input, false, batch_size, projection)?;
    Ok(batches.into_iter().map(|batch| batch.batch).collect())
}

fn rows(batches: &[RecordBatch]) -> usize {
    batches.iter().map(RecordBatch::num_rows).sum()
}

fn texts<'a>(batch: &'a RecordBatch, name: &str) -> &'a StringArray {
    batch
        .column_by_name(name)
        .unwrap()
        .as_any()
        .downcast_ref::<StringArray>()
        .unwrap()
}

fn bodies(batch: &RecordBatch) -> &BinaryViewArray {
    batch
        .column_by_name("body")
        .unwrap()
        .as_any()
        .downcast_ref::<BinaryViewArray>()
        .unwrap()
}

fn message(result: lance_conversion::Result<Vec<RecordBatch>>) -> String {
    result.unwrap_err().inner().message.clone()
}

fn plain_record(id: &str, content_length: u64) -> WarcRecord {
    WarcRecord {
        id: id.to_string(),
        content_length,
        date_millis: 1000,
        record_type: "response".to_string(),
        headers: Vec::new(),
    }
}

#[test]
fn exposes_standard_warc_schema() {
    let schema = warc_schema();
    assert_eq!(schema.fields().len(), 20);
    assert_eq!(schema.field(0).name(), "id");
    assert_eq!(schema.field(1).data_type(), &DataType::UInt64);
    assert_eq!(
        schema.field(2).data_type(),
        &DataType::Timestamp(TimeUnit::Millisecond, None)
    );
    assert_eq!(schema.field(16).data_type(), &DataType::UInt64);
    assert_eq!(schema.field(18).data_type(), &DataType::UInt64);
    assert_eq!(schema.field(BODY_COLUMN_INDEX).name(), "body");
    assert_eq!(
        schema.field(BODY_COLUMN_INDEX).data_type(),
        &DataType::BinaryView
    );
}

#[test]
fn streams_plain_and_gzipped_warc() {
    let input = format!("{}{}", record(1, "first"), record(2, "second"));

    let batches = parse(input.as_bytes(), 1, all()).unwrap();
    assert_eq!(batches.len(), 2);
    assert_eq!(bodies(&batches[0]).value(0), b"first");

    let mut encoder = GzEncoder::new(Vec::new(), Compression::default());
    encoder.write_all(input.as_bytes()).unwrap();
    let gzipped = encoder.finish().unwrap();
    let batches = parse_indexed_warc_bytes(&gzipped, true, 8192, all()).unwrap();
    let batches: Vec<RecordBatch> = batches.into_iter().map(|batch| batch.batch).collect();
    assert_eq!(rows(&batches), 2);

    let source = WarcSource::new("records.warc".to_string()).with_projection(vec![0, 2]);
    let projection = source.columns().unwrap();
    let schema = projected_schema(&projection);
    assert_eq!(schema.fields().len(), 2);
    assert_eq!(schema.field(0).name(), "id");
    assert_eq!(schema.field(1).name(), "date");
    let batches = parse(input.as_bytes(), 8192, projection).unwrap();
    assert_eq!(rows(&batches), 2);
    assert!(batches[0].column_by_name("body").is_none());

    let source = WarcSource::new("records.warc".to_string()).with_projection(vec![]);
    let projection = source.columns().unwrap();
    assert_eq!(
        projected_schema(&projection).fields().len(),
        warc_schema().fields().len()
    );
    assert_eq!(rows(&parse(input.as_bytes(), 8192, projection).unwrap()), 2);
}

#[test]
fn reports_malformed_warc() {
    let input = b"WARC/1.0\r\nWARC-Type: response\r\nWARC-Record-ID: <urn:uuid:bad>\r\n\r\n";
    let error = parse_indexed_warc_bytes(input, false, 8192, all())
        .err()
        .unwrap();
    assert!(error.to_text().contains("WARC parse error"));
}

#[test]
fn reports_parser_panics_as_stream_errors() {
    let mut input = b"WARC/1.0\r\n\
        WARC-Type: response\r\n\
        WARC-Record-ID: <urn:uuid:bad-header>\r\n\
        WARC-Date: 2024-01-02T03:04:05Z\r\n\
        Content-Type: "
        .to_vec();
    input.extend_from_slice(
        b"\xff\r\n\
          Content-Length: 4\r\n\
          \r\n\
          body\r\n\
          \r\n",
    );

    assert_eq!(rows(&parse(&input, 8192, vec![0]).unwrap()), 1);

    let error = parse_indexed_warc_bytes(&input, false, 8192, all())
        .err()
        .unwrap();
    assert!(error.to_text().contains("panic in WARC parser"));
    assert_eq!(
        error.inner().message,
        "panic in WARC parser: called `Result::unwrap()` on an `Err` value: \
         FromUtf8Error { bytes: [255], error: Utf8Error { valid_up_to: 0, error_len: Some(1) } }"
    );
}

#[test]
fn every_column_is_filled_from_its_header() {
    let input = "WARC/1.0\r\n\
        WARC-Type: revisit\r\n\
        WARC-Record-ID: <urn:uuid:1>\r\n\
        WARC-Date: 2024-01-02T03:04:05Z\r\n\
        Content-Type: a\r\n\
        WARC-Concurrent-To: b\r\n\
        WARC-Block-Digest: c\r\n\
        WARC-Payload-Digest: d\r\n\
        WARC-IP-Address: e\r\n\
        WARC-Refers-To: f\r\n\
        WARC-Target-URI: g\r\n\
        WARC-Truncated: h\r\n\
        WARC-Warcinfo-ID: i\r\n\
        WARC-Filename: j\r\n\
        WARC-Profile: k\r\n\
        WARC-Identified-Payload-Type: l\r\n\
        WARC-Segment-Number: 7\r\n\
        WARC-Segment-Origin-ID: m\r\n\
        WARC-Segment-Total-Length: 99\r\n\
        Content-Length: 3\r\n\
        \r\n\
        abc\r\n\
        \r\n";
    let batches = parse(input.as_bytes(), 10, all()).unwrap();
    assert_eq!(batches.len(), 1);
    let batch = &batches[0];
    let expected = [
        ("id", "<urn:uuid:1>"),
        ("type", "revisit"),
        ("content_type", "a"),
        ("concurrent_to", "b"),
        ("block_digest", "c"),
        ("payload_digest", "d"),
        ("ip_address", "e"),
        ("refers_to", "f"),
        ("target_uri", "g"),
        ("truncated", "h"),
        ("warc_info_id", "i"),
        ("filename", "j"),
        ("profile", "k"),
        ("identified_payload_type", "l"),
        ("segment_origin_id", "m"),
    ];
    for (name, value) in expected {
        assert_eq!(texts(batch, name).value(0), value, "{name}");
    }
    for (name, value) in [
        ("content_length", 3),
        ("segment_number", 7),
        ("segment_total_length", 99),
    ] {
        let counts = batch
            .column_by_name(name)
            .unwrap()
            .as_any()
            .downcast_ref::<UInt64Array>()
            .unwrap();
        assert_eq!(counts.value(0), value, "{name}");
    }
    let dates = batch
        .column_by_name("date")
        .unwrap()
        .as_any()
        .downcast_ref::<TimestampMillisecondArray>()
        .unwrap();
    assert_eq!(dates.value(0), 1704164645000);
    assert_eq!(bodies(batch).value(0), b"abc");
    assert_eq!(batch.schema().fields().len(), 20);
    assert!(!batch.schema().field(0).is_nullable());
    assert!(batch.schema().field(4).is_nullable());
}

#[test]
fn missing_headers_are_null() {
    let batches = parse(record(1, "x").as_bytes(), 10, all()).unwrap();
    assert!(texts(&batches[0], "ip_address").is_null(0));
    assert!(batches[0].column_by_name("segment_number").unwrap().is_null(0));
    assert_eq!(texts(&batches[0], "content_type").value(0), "text/plain");
}

#[test]
fn the_last_of_equal_headers_counts() {
    let input = record(1, "x").replace(
        "Content-Type: text/plain",
        "content-type: a\r\nWARC-Filename: f\r\nCONTENT-TYPE : b",
    );
    for projection in [vec![4], vec![13, 4], vec![19, 4, 0]] {
        let batches = parse(input.as_bytes(), 10, projection).unwrap();
        assert_eq!(texts(&batches[0], "content_type").value(0), "b");
    }
}

#[test]
fn malformed_segment_numbers_are_refused() {
    let input = record(1, "x").replace(
        "Content-Type: text/plain",
        "WARC-Segment-Number: seven",
    );
    assert_eq!(
        message(parse(input.as_bytes(), 10, all())),
        "invalid WARC segment number: seven"
    );
    assert_eq!(rows(&parse(input.as_bytes(), 10, vec![0]).unwrap()), 1);
    assert_eq!(optional_u64(None, "segment number").unwrap(), None);
    assert_eq!(
        optional_u64(Some("+12".to_string()), "segment number").unwrap(),
        Some(12)
    );
}

#[test]
fn records_end_in_two_empty_lines() {
    let whole = record(1, "body");
    let cut = &whole.as_bytes()[..whole.len() - 2];
    assert_eq!(
        message(parse(cut, 10, all())),
        "WARC parse error: Unexpected end of body."
    );
    let short = &whole.as_bytes()[..whole.len() - 6];
    assert_eq!(
        message(parse(short, 10, vec![0])),
        "WARC parse error: Unexpected end of body."
    );
    let malformed = whole.replace("Content-Type: text/plain", "WARC-Segment-Number: seven");
    let short = &malformed.as_bytes()[..malformed.len() - 6];
    assert_eq!(
        message(parse(short, 10, vec![16])),
        "invalid WARC segment number: seven"
    );
    let huge = malformed.replace("Content-Length: 4", "Content-Length: 5000000000");
    assert_eq!(
        message(parse(huge.as_bytes(), 10, vec![16])),
        "invalid WARC segment number: seven"
    );
    assert_eq!(
        message(parse(huge.as_bytes(), 10, vec![0])),
        "WARC parse error: Unexpected end of body."
    );
    let mut wrong = whole.clone().into_bytes();
    let end = wrong.len();
    wrong[end - 1] = b'x';
    assert_eq!(
        message(parse(&wrong, 10, all())),
        "WARC parse error: Error parsing headers."
    );
}

#[test]
fn a_cut_gzip_range_is_refused() {
    let mut encoder = GzEncoder::new(Vec::new(), Compression::default());
    encoder.write_all(record(1, "body").as_bytes()).unwrap();
    let gzipped = encoder.finish().unwrap();
    let cut = &gzipped[..gzipped.len() - 3];
    let error = parse_indexed_warc_bytes(cut, true, 10, all()).err().unwrap();
    assert_eq!(
        error.inner().message,
        "WARC parse error: Error reading data source."
    );
}

#[test]
fn batches_keep_the_order_of_records() {
    let input: String = (0..25).map(|id| record(id, &"b".repeat(id))).collect();
    let batches = parse(input.as_bytes(), 10, vec![19, 0]).unwrap();
    assert_eq!(
        batches.iter().map(RecordBatch::num_rows).collect::<Vec<_>>(),
        [10, 10, 5]
    );
    let mut id = 0;
    for batch in &batches {
        for row in 0..batch.num_rows() {
            assert_eq!(
                texts(batch, "id").value(row),
                format!("<urn:uuid:{id}>")
            );
            assert_eq!(bodies(batch).value(row).len(), id);
            id += 1;
        }
    }
    assert_eq!(id, 25);
}

#[test]
fn large_bodies_are_sent_in_batches_of_their_own() {
    let mut batcher = RecordBatcher::new(100, vec![0, 19]);
    assert!(batcher.includes_body());
    let half = (MAX_BATCH_BODY_BYTES / 2) as usize;
    assert!(batcher.begin_record(half as u64).unwrap().is_none());
    assert!(batcher
        .push_record(&plain_record("a", half as u64), Some(vec![1; half]))
        .unwrap()
        .is_none());
    let sent = batcher.begin_record(half as u64 + 1).unwrap().unwrap();
    assert_eq!(sent.batch.num_rows(), 1);
    assert!(batcher
        .push_record(&plain_record("b", half as u64 + 1), Some(vec![2; half + 1]))
        .unwrap()
        .is_none());
    assert!(batcher.begin_record(half as u64 - 1).unwrap().is_none());
    let sent: WarcBatch = batcher
        .push_record(&plain_record("c", half as u64 - 1), Some(vec![3; half - 1]))
        .unwrap()
        .unwrap();
    assert_eq!(sent.batch.num_rows(), 2);
    assert_eq!(bodies(&sent.batch).value(1)[0], 3);
    assert!(batcher.finish().unwrap().is_none());
}

#[test]
fn bodies_beyond_the_view_limit_are_refused() {
    let mut batcher = RecordBatcher::new(10, vec![19]);
    let error = batcher.begin_record(u32::MAX as u64 + 1).err().unwrap();
    assert_eq!(
        error.inner().message,
        "WARC body exceeds Arrow BinaryView limit"
    );
    let mut batcher = RecordBatcher::new(10, vec![0]);
    assert!(!batcher.includes_body());
    assert!(batcher.begin_record(u64::MAX).unwrap().is_none());
    assert!(batcher
        .push_record(&plain_record("a", u64::MAX), None)
        .unwrap()
        .is_none());
    assert_eq!(batcher.finish().unwrap().unwrap().batch.num_rows(), 1);
}

#[test]
fn a_refused_record_leaves_the_rows_as_they_were() {
    let mut builder = WarcBatchBuilder::new(4, vec![0, 16]);
    builder.append_row(&plain_record("a", 0), None).unwrap();
    let mut bad = plain_record("b", 0);
    bad.headers
        .push((WarcHeader::SegmentNumber, b"x".to_vec()));
    assert!(builder.append_row(&bad, None).is_err());
    assert_eq!(builder.len(), 1);
    assert!(!builder.is_empty());
    assert_eq!(builder.body_bytes(), 0);
    let taken = builder.take_empty(4);
    assert!(builder.is_empty());
    let batch = taken.finish().unwrap().batch;
    assert_eq!(batch.num_rows(), 1);
    assert_eq!(texts(&batch, "id").value(0), "a");
}

#[test]
fn only_projected_headers_are_read() {
    assert_eq!(
        projected_headers(&vec![0, 16, 4, 19, 18, 17]),
        [
            WarcHeader::SegmentNumber,
            WarcHeader::ContentType,
            WarcHeader::SegmentTotalLength,
            WarcHeader::SegmentOriginID
        ]
    );
    assert_eq!(string_header(10), Some(WarcHeader::TargetURI));
    assert_eq!(string_header(16), None);
}

#[test]
fn projections_are_checked() {
    let check = |projection: Vec<usize>| {
        WarcSource::new("a.warc".to_string())
            .with_projection(projection)
            .columns()
    };
    assert_eq!(check(vec![3, 1]).unwrap(), [3, 1]);
    assert_eq!(check(vec![]).unwrap().len(), 20);
    assert_eq!(
        check(vec![3, 20]).unwrap_err().inner().message,
        "invalid WARC column index: 20"
    );
    assert_eq!(
        check(vec![3, 1, 3, 99]).unwrap_err().inner().message,
        "duplicate WARC column index: 3"
    );
    let error = WarcSource::new("a.warc".to_string())
        .with_batch_size(0)
        .columns()
        .unwrap_err();
    assert_eq!(error.inner().message, "batch_size must be positive");
}

#[test]
fn archives_are_located() {
    let source = WarcSource::new("s3://bucket/crawl/a.warc.GZ".to_string())
        .with_s3_config(S3StorageConfig::default())
        .with_index_path("s3://bucket/crawl/a.cdxj".to_string())
        .with_max_read_parallelism(16);
    assert_eq!(source.max_read_parallelism, 16);
    let plan = source.plan("", "").unwrap();
    assert!(plan.gzipped);
    assert_eq!(plan.storage.object_path, "crawl/a.warc.GZ");
    let (index, index_gzipped) = plan.index.unwrap();
    assert_eq!(index.object_path, "crawl/a.cdxj");
    assert!(!index_gzipped);

    let local = WarcSource::new("a.warc".to_string());
    let plan = local.plan("/data/a.warc", "").unwrap();
    assert!(!plan.gzipped);
    assert!(plan.index.is_none());
    assert_eq!(plan.storage.object_path, "data/a.warc");

    let root = WarcSource::new("/".to_string()).plan("/", "").unwrap_err();
    assert_eq!(
        root.inner().message,
        "WARC input must not be a storage root"
    );
    let index_root = WarcSource::new("a.warc".to_string())
        .with_index_path("/".to_string())
        .plan("/a.warc", "/")
        .unwrap_err();
    assert_eq!(
        index_root.inner().message,
        "WARC index must not be a storage root"
    );
}

#[test]
fn an_indexed_archive_reads_the_same_with_any_number_of_readers() {
    let records: Vec<Vec<u8>> = (0..6)
        .map(|id| record(id, &"b".repeat(id * 7)).into_bytes())
        .collect();
    for gzipped in [false, true] {
        let mut archive = b"unlisted".to_vec();
        let mut lines = Vec::new();
        for (id, record) in records.iter().enumerate() {
            let bytes = if gzipped {
                let mut encoder = GzEncoder::new(Vec::new(), Compression::default());
                encoder.write_all(record).unwrap();
                encoder.finish().unwrap()
            } else {
                record.clone()
            };
            lines.push(format!(
                "{{\"offset\":{},\"length\":{}}}\n",
                archive.len(),
                bytes.len()
            ));
            archive.extend(bytes);
            if id == 3 {
                archive.extend(b"a gap");
            }
        }
        let backwards: String = lines.iter().rev().cloned().collect();
        let forwards: String = lines.concat();
        for (index, readers) in [(&forwards, 1), (&backwards, 1), (&forwards, 3), (&backwards, 9)] {
            let (units, _) =
                plan_indexed_reads(index.as_bytes(), false, "a.warc", readers).unwrap();
            let mut found = Vec::new();
            for unit in units {
                let bytes = &archive[unit.start as usize..unit.end as usize];
                for batch in parse_indexed_warc_bytes(bytes, gzipped, 2, vec![0]).unwrap() {
                    let ids = texts(&batch.batch, "id");
                    found.extend((0..ids.len()).map(|row| ids.value(row).to_string()));
                }
            }
            let expected: Vec<String> = (0..6).map(|id| format!("<urn:uuid:{id}>")).collect();
            assert_eq!(found, expected, "{gzipped} {readers}");
        }
    }
}

#[test]
fn a_projection_is_kept_as_it_is() {
    let source = WarcSource::new("a.warc".to_string());
    assert_eq!(source.projection, None);
    assert_eq!(source.with_projection(Vec::new()).projection, Some(Vec::new()));
    let source = WarcSource::new("a.warc".to_string()).with_projection(vec![99, 2, 2]);
    assert_eq!(source.projection, Some(vec![99, 2, 2]));
    assert_eq!(
        source.columns().unwrap_err().inner().message,
        "invalid WARC column index: 99"
    );
}

/// Gzip data in stored blocks, with block number `broken` spoilt.
fn broken_gzip(bytes: &[u8], broken: usize) -> Vec<u8> {
    let mut encoder = GzEncoder::new(Vec::new(), Compression::none());
    encoder.write_all(bytes).unwrap();
    let mut gzipped = encoder.finish().unwrap();
    let mut header = 10;
    for _ in 0..broken {
        let length = u16::from_le_bytes([gzipped[header + 1], gzipped[header + 2]]);
        header += 5 + usize::from(length);
    }
    gzipped[header + 3] ^= 1;
    gzipped
}

/// Why a reader of gzipped records stops.
fn reader_message(bytes: &[u8], bodies: bool) -> String {
    let reader: Box<dyn BufRead> =
        Box::new(BufReader::new(MultiGzDecoder::new(Cursor::new(bytes.to_vec()))));
    let mut reader = WarcReader::new(reader);
    let mut stream = reader.stream_records();
    while let Some(record) = stream.next_item() {
        match record {
            Err(error) => return format!("WARC parse error: {error}"),
            Ok(record) => {
                if bodies {
                    if let Err(error) = record.into_buffered() {
                        return format!("WARC body error: {error}");
                    }
                }
            }
        }
    }
    panic!("the data is broken");
}

#[test]
fn a_broken_range_is_refused_where_a_reader_stops() {
    for sizes in [[200_000, 300_000], [10, 20], [9_000, 40_000], [70_000, 3]] {
        let input: String = (0..20_000)
            .map(|id| record(id, &"b".repeat(sizes[id % 2])))
            .take_while({
                let mut total = 0;
                move |record| {
                    total += record.len();
                    total < 700_000
                }
            })
            .collect();
        for broken in 0..6 {
            let bytes = broken_gzip(input.as_bytes(), broken);
            for (bodies, projection) in [(false, vec![0]), (true, vec![0, BODY_COLUMN_INDEX])] {
                let error = parse_indexed_warc_bytes(&bytes, true, 10, projection)
                    .err()
                    .unwrap();
                assert_eq!(error.inner().message, reader_message(&bytes, bodies));
            }
        }
    }
}
