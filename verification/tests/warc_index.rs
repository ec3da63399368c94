use std::io::{BufRead, BufReader, Write};

use flate2::{read::MultiGzDecoder, write::GzEncoder, Compression};
use lance_conversion::json::JsonField;
use lance_conversion::source::warc_index::{
    entry_of_object, index_filename_matches, parse_index_lines, parse_warc_index,
    plan_indexed_reads,
};
use lance_conversion::source::work_units::WarcIndexEntry;

fn gzip(bytes: &[u8]) -> Vec<u8> {
    let mut encoder = GzEncoder::new(Vec::new(), Compression::default());
    encoder.write_all(bytes).unwrap();
    encoder.finish().unwrap()
}

fn message(index: &str) -> String {
    let error = parse_warc_index(index.as_bytes(), false, "archive.warc.gz").unwrap_err();
    error.inner().message.clone()
}

#[test]
fn parses_json_and_cdxj_entries_for_the_source_file() {
    let index = [
        "# comment\n",
        "{\"filename\":\"archive.warc.gz\",\"offset\":10,\"length\":\"20\"}\n",
        "com,example)/ 20240102030405 ",
        "{\"filename\":\"other.warc.gz\",\"offset\":\"30\",\"length\":40}\n",
        "com,example)/ 20240102030406 ",
        "{\"filename\":\"archive.warc.gz\",\"offset\":\"50\",\"length\":60}\n",
    ]
    .concat();

    let entries = parse_warc_index(index.as_bytes(), false, "crawl-data/archive.warc.gz").unwrap();

    assert_eq!(
        entries,
        [
            WarcIndexEntry {
                offset: 10,
                length: 20
            },
            WarcIndexEntry {
                offset: 50,
                length: 60
            }
        ]
    );
}

#[test]
fn parses_gzipped_index() {
    let mut encoder = GzEncoder::new(Vec::new(), Compression::default());
    encoder
        .write_all(b"{\"offset\":\"7\",\"length\":\"11\"}\n")
        .unwrap();

    let entries = parse_warc_index(&encoder.finish().unwrap(), true, "archive.warc.gz").unwrap();

    assert_eq!(
        entries,
        [WarcIndexEntry {
            offset: 7,
            length: 11
        }]
    );
}

#[test]
fn gzip_members_follow_one_another() {
    let mut bytes = gzip(b"{\"offset\":1,\"length\":2}\n{\"offset\":3,");
    bytes.extend(gzip(b"\"length\":4}"));
    let entries = parse_warc_index(&bytes, true, "archive.warc.gz").unwrap();
    assert_eq!(entries.len(), 2);
    assert_eq!(entries[1].offset, 3);
    assert_eq!(entries[1].length, 4);
}

#[test]
fn a_cut_gzip_index_is_refused() {
    let bytes = gzip(b"{\"offset\":1,\"length\":2}\n");
    let error = parse_warc_index(&bytes[..bytes.len() - 4], true, "archive.warc.gz").unwrap_err();
    assert!(error
        .inner()
        .message
        .starts_with("reading WARC index line 2: "));
    let error = parse_warc_index(b"not gzip", true, "archive.warc.gz").unwrap_err();
    assert!(error
        .inner()
        .message
        .starts_with("reading WARC index line 1: "));
}

#[test]
fn lines_end_in_line_feeds() {
    let index = b"\r\n  {\"offset\":1,\"length\":2}\r\n\n{\"offset\":3,\"length\":4}";
    let entries = parse_warc_index(index, false, "archive.warc.gz").unwrap();
    assert_eq!(entries.len(), 2);
}

#[test]
fn malformed_lines_are_named() {
    assert_eq!(
        message("\n\nnothing here\n"),
        "WARC index line 3 is not JSON or CDXJ"
    );
    assert_eq!(
        message("{\"length\":4}"),
        "WARC index line 1 has no offset"
    );
    assert_eq!(
        message("{\"offset\":4}"),
        "WARC index line 1 has no length"
    );
    assert_eq!(
        message("{\"offset\":-4,\"length\":4}"),
        "WARC index line 1 has invalid offset"
    );
    assert_eq!(
        message("{\"offset\":4,\"length\":\"4x\"}"),
        "WARC index line 1 has invalid length"
    );
    assert_eq!(
        message("{\"offset\":4,\"length\":0}"),
        "WARC index line 1 has zero length"
    );
    assert!(message("# one\n{\"offset\":}").starts_with("invalid WARC index line 2: "));
    assert_eq!(
        message("# nothing\n"),
        "WARC index contains no entries for the source file"
    );
    let error = parse_warc_index(b"{\"offset\":\"\xff\"}", false, "a").unwrap_err();
    assert_eq!(
        error.inner().message,
        "reading WARC index line 1: stream did not contain valid UTF-8"
    );
}

#[test]
fn entries_of_other_files_are_passed_over() {
    let other = "{\"filename\":\"other.warc.gz\",\"offset\":\"x\"}\n";
    assert_eq!(
        message(other),
        "WARC index contains no entries for the source file"
    );
    assert!(index_filename_matches("crawl/archive.warc", "archive.warc"));
    assert!(index_filename_matches("archive.warc", "data/crawl/archive.warc"));
    assert!(!index_filename_matches("archive.warc", "archive.warc.gz"));
    assert!(!index_filename_matches("crawl/archive.warc", "crawl"));
}

#[test]
fn an_object_lists_a_record() {
    let members = vec![
        ("length".to_string(), JsonField::Text("12".to_string())),
        ("offset".to_string(), JsonField::Number(5)),
        ("status".to_string(), JsonField::Other),
    ];
    let entry = entry_of_object(&members, "archive.warc.gz", 1).unwrap();
    assert_eq!(
        entry,
        Some(WarcIndexEntry {
            offset: 5,
            length: 12
        })
    );
    assert_eq!(
        entry_of_object(&Vec::new(), "archive.warc.gz", 9)
            .unwrap_err()
            .inner()
            .message,
        "WARC index line 9 has no offset"
    );
}

#[test]
fn an_unreadable_index_is_refused_behind_its_lines() {
    let failure = Some(lance_conversion::gzip::GzipFailure {
        unexpected_end: false,
        message: "broken".to_string(),
    });
    let error = parse_index_lines(
        b"{\"offset\":1,\"length\":2}\n{\"offset\":",
        &failure,
        "archive.warc.gz",
    )
    .unwrap_err();
    assert_eq!(
        error.inner().message,
        "reading WARC index line 2: broken"
    );
}

#[test]
fn an_index_is_read_in_few_ranges() {
    let lines = [
        "{\"offset\":40,\"length\":10}\n",
        "{\"offset\":10,\"length\":10}\n",
        "{\"offset\":20,\"length\":10}\n",
    ]
    .concat();
    for (bytes, gzipped) in [(lines.clone().into_bytes(), false), (gzip(lines.as_bytes()), true)] {
        let (units, parallelism) = plan_indexed_reads(&bytes, gzipped, "a.warc", 1).unwrap();
        assert_eq!(units, [10..30, 40..50]);
        assert_eq!(parallelism, 1);
        let (units, parallelism) = plan_indexed_reads(&bytes, gzipped, "a.warc", 8).unwrap();
        assert_eq!(units, [10..20, 20..30, 40..50]);
        assert_eq!(parallelism, 3);
    }
    let overlapping = b"{\"offset\":0,\"length\":10}\n{\"offset\":9,\"length\":1}\n";
    assert_eq!(
        plan_indexed_reads(overlapping, false, "a.warc", 8)
            .unwrap_err()
            .inner()
            .message,
        "WARC index entries overlap"
    );
    assert_eq!(
        plan_indexed_reads(b"", false, "a.warc", 8)
            .unwrap_err()
            .inner()
            .message,
        "WARC index contains no entries for the source file"
    );
}

/// Gzip data in stored blocks, with block number `broken` spoilt.
fn broken_gzip(bytes: &[u8], broken: usize) -> Vec<u8> {
    let mut encoder = GzEncoder::new(Vec::new(), Compression::none());
    encoder.write_all(bytes).unwrap();
    let mut gzipped = encoder.finish().unwrap();
    let mut header = 10;
    for _ in 0..broken {
        let length = u16::from_le_bytes([gzipped[header + 1], gzipped[header + 2]]);
        header += 5 + usize::from(length);
    }
    gzipped[header + 3] ^= 1;
    gzipped
}

#[test]
fn a_broken_index_is_refused_where_a_reader_stops() {
    let lines: String = (0..20_000)
        .map(|at| format!("{{\"offset\":{at},\"length\":1}}\n"))
        .collect();
    for broken in 0..5 {
        let bytes = broken_gzip(lines.as_bytes(), broken);
        let mut read = 0;
        let mut failure = String::new();
        for line in BufReader::new(MultiGzDecoder::new(&bytes[..])).lines() {
            read += 1;
            if let Err(error) = line {
                failure = error.to_string();
                break;
            }
        }
        assert_ne!(failure, "");
        assert_eq!(
            parse_warc_index(&bytes, true, "a.warc")
                .unwrap_err()
                .inner()
                .message,
            format!("reading WARC index line {read}: {failure}")
        );
    }
}
