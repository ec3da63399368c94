use lance_conversion::source::work_units::{build_index_work_units, WarcIndexEntry};
use lance_conversion::source::{read_parallelism, ReadMetrics, ReadMetricsSnapshot};
use lance_conversion::source::{bytes_filled, SourceReadOptions, DEFAULT_MAX_READ_PARALLELISM};

fn entries(list: &[(u64, u64)]) -> Vec<WarcIndexEntry> {
    list.iter()
        .map(|&(offset, length)| WarcIndexEntry { offset, length })
        .collect()
}

fn message(list: &[(u64, u64)], parallelism: usize) -> String {
    let error = build_index_work_units(entries(list), parallelism).unwrap_err();
    error.inner().message.clone()
}

#[test]
fn balances_contiguous_entries_across_parallelism() {
    let entries = vec![
        WarcIndexEntry {
            offset: 30,
            length: 10,
        },
        WarcIndexEntry {
            offset: 0,
            length: 10,
        },
        WarcIndexEntry {
            offset: 20,
            length: 10,
        },
        WarcIndexEntry {
            offset: 10,
            length: 10,
        },
    ];

    assert_eq!(build_index_work_units(entries, 2).unwrap(), [0..20, 20..40]);
}

#[test]
fn gaps_start_new_workloads() {
    let entries = vec![
        WarcIndexEntry {
            offset: 20,
            length: 5,
        },
        WarcIndexEntry {
            offset: 0,
            length: 8,
        },
        WarcIndexEntry {
            offset: 8,
            length: 4,
        },
    ];

    assert_eq!(build_index_work_units(entries, 2).unwrap(), [0..12, 20..25]);
}

#[test]
fn unusable_indexes_are_refused() {
    assert_eq!(
        message(&[(0, 1)], 0),
        "max_read_parallelism must be positive"
    );
    assert_eq!(
        message(&[(0, u64::MAX), (5, 1)], 1),
        "WARC index total length overflows u64"
    );
    assert_eq!(
        message(&[(u64::MAX, 1)], 1),
        "WARC index offset plus length overflows u64"
    );
    assert_eq!(message(&[(0, 10), (9, 5)], 1), "WARC index entries overlap");
    assert_eq!(message(&[(4, 2), (4, 2)], 3), "WARC index entries overlap");
}

#[test]
fn an_empty_index_needs_no_reads() {
    assert!(build_index_work_units(Vec::new(), 4).unwrap().is_empty());
}

#[test]
fn units_cover_the_index_in_any_listing_order() {
    let listed = [(100, 7), (0, 3), (3, 9), (12, 1), (50, 50)];
    let mut turned = listed;
    turned.reverse();
    let units = build_index_work_units(entries(&listed), 3).unwrap();
    assert_eq!(
        units,
        build_index_work_units(entries(&turned), 3).unwrap()
    );
    assert_eq!(units, [0..13, 50..100, 100..107]);
    let covered: u64 = units.iter().map(|unit| unit.end - unit.start).sum();
    assert_eq!(covered, 70);
    assert!(units.windows(2).all(|pair| pair[0].end <= pair[1].start));
}

#[test]
fn contiguous_records_need_no_more_units_than_allowed() {
    let list: Vec<(u64, u64)> = (0..100).map(|i| (i * 7, 7)).collect();
    for parallelism in 1..20 {
        let units = build_index_work_units(entries(&list), parallelism).unwrap();
        assert!(units.len() <= parallelism);
        assert_eq!(units[0].start, 0);
        assert_eq!(units[units.len() - 1].end, 700);
    }
}

#[test]
fn a_thousand_entries_are_sorted() {
    let list: Vec<(u64, u64)> = (0..1000u64).map(|i| ((i * 617) % 1000 * 2, 1)).collect();
    let units = build_index_work_units(entries(&list), 1).unwrap();
    assert_eq!(units.len(), 1000);
    assert_eq!(units[0], 0..1);
    assert_eq!(units[999], 1998..1999);
}

#[test]
fn parallelism_is_capped_by_work_and_limit() {
    assert_eq!(read_parallelism(3, 8), 3);
    assert_eq!(read_parallelism(30, 8), 8);
    assert_eq!(read_parallelism(0, 8), 1);
    assert_eq!(read_parallelism(5, 0), 1);
}

#[test]
fn read_options_need_a_positive_parallelism() {
    assert_eq!(DEFAULT_MAX_READ_PARALLELISM, 8);
    let options = SourceReadOptions::default().validate().unwrap();
    assert_eq!(options.max_read_parallelism, 8);
    let none = SourceReadOptions {
        max_read_parallelism: 0,
    };
    assert_eq!(
        none.validate().unwrap_err().inner().message,
        "max_read_parallelism must be positive"
    );
}

#[test]
fn metrics_count_bytes() {
    let mut metrics = ReadMetrics::default();
    metrics.add_bytes_read(5);
    metrics.add_bytes_read(7);
    metrics.set_total_bytes(40);
    assert_eq!(
        metrics.snapshot(),
        ReadMetricsSnapshot {
            bytes_read: 12,
            total_bytes: 40
        }
    );
    assert_eq!(bytes_filled(3, 10), 7);
    assert_eq!(bytes_filled(10, 3), 0);
}
