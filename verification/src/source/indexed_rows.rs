//! The rows of an archive that is read through an index.

use std::ops::Range;

use vstd::prelude::*;

use super::columns::Cell;
use super::warc_stream::Arrival;
use super::work_units::WarcIndexEntry;

verus! {

/// The rows of the ranges of an archive, one range after the other, or why a
/// range cannot be read.
pub open spec fn rows_of_units(
    archive: Seq<u8>,
    units: Seq<Range<u64>>,
    gzipped: bool,
    projection: Seq<usize>,
    batch_size: nat,
) -> std::result::Result<Seq<Seq<Cell>>, Seq<char>>
    decreases units.len(),
{
    if units.len() == 0 {
        Ok(Seq::empty())
    } else {
        let read = crate::gzip::contents(unit_bytes(archive, units.last()), gzipped);
        match rows_of_units(archive, units.drop_last(), gzipped, projection, batch_size) {
            Err(message) => Err(message),
            Ok(rows) => match super::warc_bytes::batches_of(
                read.0,
                read.1,
                projection,
                batch_size,
            ) {
                Err(message) => Err(message),
                Ok(batches) => Ok(rows + batches.flatten()),
            },
        }
    }
}

/// The bytes of a range.
pub open spec fn unit_bytes(archive: Seq<u8>, unit: Range<u64>) -> Seq<u8> {
    archive.subrange(unit.start as int, unit.end as int)
}

/// The bytes that an index lists for a record.
pub open spec fn entry_bytes(archive: Seq<u8>, entry: WarcIndexEntry) -> Seq<u8> {
    archive.subrange(entry.offset as int, super::work_units::entry_end(entry))
}

/// Whether bytes stand for `plain`, alone and in front of others: they are
/// `plain` itself, or whole gzip members of it.
pub open spec fn stands_for(bytes: Seq<u8>, gzipped: bool, plain: Seq<u8>) -> bool {
    &&& crate::gzip::contents(bytes, gzipped) == (
        plain,
        None::<crate::gzip::GzipFailureView>,
    )
    &&& forall|more: Seq<u8>, rest: Seq<u8>|
        crate::gzip::contents(more, gzipped) == (rest, None::<crate::gzip::GzipFailureView>)
            ==> crate::gzip::contents(#[trigger] (bytes + more), gzipped) == (
            #[trigger] (plain + rest),
            None::<crate::gzip::GzipFailureView>,
        )
}

/// Whether bytes are one whole record, whatever comes behind them.
pub open spec fn is_record(bytes: Seq<u8>) -> bool {
    &&& super::warc_bytes::first_head(bytes) matches Some(Ok(head)) && {
        let end = head.size + head.content_length;
        &&& end + 4 == bytes.len()
        &&& super::warc_bytes::ending_problem(bytes.skip(end), None) is None
    }
    &&& forall|more: Seq<u8>|
        super::warc_bytes::first_head(#[trigger] (bytes + more))
            == super::warc_bytes::first_head(bytes)
}

/// Whether an entry of an index lists one record of an archive.
pub open spec fn lists_record(archive: Seq<u8>, gzipped: bool, entry: WarcIndexEntry) -> bool {
    let bytes = entry_bytes(archive, entry);
    &&& super::work_units::entry_end(entry) <= archive.len()
    &&& stands_for(bytes, gzipped, crate::gzip::contents(bytes, gzipped).0)
    &&& is_record(crate::gzip::contents(bytes, gzipped).0)
}

/// Whether each entry of an index lists one record of an archive.
pub open spec fn lists_records(
    archive: Seq<u8>,
    gzipped: bool,
    entries: Seq<WarcIndexEntry>,
) -> bool {
    forall|i: int| 0 <= i < entries.len() ==> lists_record(archive, gzipped, #[trigger] entries[i])
}

/// The record that an entry lists.
pub open spec fn listed_record(
    archive: Seq<u8>,
    gzipped: bool,
    projection: Seq<usize>,
    entry: WarcIndexEntry,
) -> Arrival {
    let plain = crate::gzip::contents(entry_bytes(archive, entry), gzipped).0;
    super::warc_bytes::first_arrival(
        plain,
        super::warc_bytes::first_head(plain)->0->Ok_0,
        projection,
    )
}

/// The row of the record that an entry lists.
pub open spec fn listed_row(
    archive: Seq<u8>,
    gzipped: bool,
    projection: Seq<usize>,
    entry: WarcIndexEntry,
) -> Seq<Cell> {
    super::warc_stream::row_alone(listed_record(archive, gzipped, projection, entry), projection)
}

/// The rows of the records that entries list, in this order.
pub open spec fn listed_rows(
    archive: Seq<u8>,
    gzipped: bool,
    projection: Seq<usize>,
    entries: Seq<WarcIndexEntry>,
) -> Seq<Seq<Cell>> {
    entries.map_values(|entry: WarcIndexEntry| listed_row(archive, gzipped, projection, entry))
}

/// Whether bytes are whole records, whatever comes behind them.
spec fn are_records(bytes: Seq<u8>, projection: Seq<usize>) -> bool {
    forall|more: Seq<u8>|
        super::warc_bytes::records_in(#[trigger] (bytes + more), projection)
            == super::warc_bytes::records_in(bytes, projection)
            + super::warc_bytes::records_in(more, projection)
}

proof fn lemma_record(bytes: Seq<u8>, projection: Seq<usize>)
    requires
        is_record(bytes),
    ensures
        are_records(bytes, projection),
        super::warc_bytes::records_in(bytes, projection) == seq![
            super::warc_bytes::first_arrival(
                bytes,
                super::warc_bytes::first_head(bytes)->0->Ok_0,
                projection,
            ),
        ],
{
    let head = super::warc_bytes::first_head(bytes)->0->Ok_0;
    let end = head.size + head.content_length;
    assert forall|more: Seq<u8>|
        super::warc_bytes::records_in(#[trigger] (bytes + more), projection) == seq![
            super::warc_bytes::first_arrival(bytes, head, projection),
        ] + super::warc_bytes::records_in(more, projection) by {
        let all = bytes + more;
        assert(super::warc_bytes::first_head(all) == super::warc_bytes::first_head(bytes));
        assert(all.take(head.size as int) =~= bytes.take(head.size as int));
        assert(all.subrange(head.size as int, end) =~= bytes.subrange(head.size as int, end));
        assert(all.skip(end + 4) =~= more);
    }
    assert(bytes.skip(end + 4) =~= Seq::empty());
    assert(super::warc_bytes::records_in(Seq::empty(), projection) =~= Seq::empty());
    assert(super::warc_bytes::records_in(bytes, projection) =~= seq![
        super::warc_bytes::first_arrival(bytes, head, projection),
    ]);
}

proof fn lemma_records_join(left: Seq<u8>, right: Seq<u8>, projection: Seq<usize>)
    requires
        are_records(left, projection),
        are_records(right, projection),
    ensures
        are_records(left + right, projection),
{
    assert forall|more: Seq<u8>|
        super::warc_bytes::records_in(#[trigger] (left + right + more), projection)
            == super::warc_bytes::records_in(left + right, projection)
            + super::warc_bytes::records_in(more, projection) by {
        assert(left + right + more =~= left + (right + more));
        assert(super::warc_bytes::records_in(left, projection) + (super::warc_bytes::records_in(
            right,
            projection,
        ) + super::warc_bytes::records_in(more, projection)) =~= super::warc_bytes::records_in(
            left,
            projection,
        ) + super::warc_bytes::records_in(right, projection) + super::warc_bytes::records_in(
            more,
            projection,
        ));
    }
}

proof fn lemma_parts_join(
    left: Seq<u8>,
    left_plain: Seq<u8>,
    right: Seq<u8>,
    right_plain: Seq<u8>,
    gzipped: bool,
)
    requires
        stands_for(left, gzipped, left_plain),
        stands_for(right, gzipped, right_plain),
    ensures
        stands_for(left + right, gzipped, left_plain + right_plain),
{
    let none = None::<crate::gzip::GzipFailureView>;
    assert(crate::gzip::contents(left + right, gzipped) == (left_plain + right_plain, none));
    assert forall|more: Seq<u8>, rest: Seq<u8>|
        crate::gzip::contents(more, gzipped) == (rest, none) implies crate::gzip::contents(
        #[trigger] (left + right + more),
        gzipped,
    ) == (#[trigger] (left_plain + right_plain + rest), none) by {
        assert(crate::gzip::contents(right + more, gzipped) == (right_plain + rest, none));
        assert(crate::gzip::contents(left + (right + more), gzipped) == (
            left_plain + (right_plain + rest),
            none,
        ));
        assert(left + right + more =~= left + (right + more));
        assert(left_plain + right_plain + rest =~= left_plain + (right_plain + rest));
    }
}

/// The records of ranges, one range after the other.
spec fn records_of_units(
    archive: Seq<u8>,
    units: Seq<Range<u64>>,
    gzipped: bool,
    projection: Seq<usize>,
) -> Seq<Arrival>
    decreases units.len(),
{
    if units.len() == 0 {
        Seq::empty()
    } else {
        let plain = crate::gzip::contents(unit_bytes(archive, units.last()), gzipped).0;
        records_of_units(archive, units.drop_last(), gzipped, projection)
            + super::warc_bytes::records_in(plain, projection)
    }
}

/// The records that entries list.
spec fn records_of_entries(
    archive: Seq<u8>,
    entries: Seq<WarcIndexEntry>,
    gzipped: bool,
    projection: Seq<usize>,
) -> Seq<Arrival> {
    entries.map_values(|entry: WarcIndexEntry| listed_record(archive, gzipped, projection, entry))
}

proof fn lemma_units_hold_records(
    archive: Seq<u8>,
    entries: Seq<WarcIndexEntry>,
    gzipped: bool,
    projection: Seq<usize>,
    target: nat,
    units: Seq<Range<u64>>,
)
    requires
        lists_records(archive, gzipped, entries),
        super::work_units::coalesced(entries, target) == Ok::<Seq<Range<u64>>, Seq<char>>(units),
    ensures
        records_of_units(archive, units, gzipped, projection) == records_of_entries(
            archive,
            entries,
            gzipped,
            projection,
        ),
        units.len() > 0 ==> {
            let last = unit_bytes(archive, units.last());
            let plain = crate::gzip::contents(last, gzipped).0;
            &&& units.last().start <= units.last().end <= archive.len()
            &&& stands_for(last, gzipped, plain)
            &&& are_records(plain, projection)
        },
    decreases entries.len(),
{
    let listed = records_of_entries(archive, entries, gzipped, projection);
    if entries.len() == 0 {
        assert(listed =~= Seq::empty());
    } else {
        let shorter = entries.drop_last();
        let entry = entries.last();
        let before = super::work_units::coalesced(shorter, target)->Ok_0;
        assert forall|i: int| 0 <= i < shorter.len() implies lists_record(
            archive,
            gzipped,
            #[trigger] shorter[i],
        ) by {
            assert(shorter[i] == entries[i]);
        }
        lemma_units_hold_records(archive, shorter, gzipped, projection, target, before);
        let fewer = records_of_entries(archive, shorter, gzipped, projection);
        let record = listed_record(archive, gzipped, projection, entry);
        assert(listed =~= fewer.push(record));
        assert(lists_record(archive, gzipped, entries[entries.len() - 1]));
        let bytes = entry_bytes(archive, entry);
        let plain = crate::gzip::contents(bytes, gzipped).0;
        lemma_record(plain, projection);
        let last = unit_bytes(archive, units.last());
        if super::work_units::joins(before, entry, target) {
            let old_last = unit_bytes(archive, before.last());
            let old_plain = crate::gzip::contents(old_last, gzipped).0;
            assert(last =~= old_last + bytes);
            lemma_parts_join(old_last, old_plain, bytes, plain, gzipped);
            lemma_records_join(old_plain, plain, projection);
            assert(crate::gzip::contents(last, gzipped).0 == old_plain + plain);
            assert(units.drop_last() =~= before.drop_last());
            assert(super::warc_bytes::records_in(old_plain + plain, projection)
                == super::warc_bytes::records_in(old_plain, projection) + seq![record]);
            assert(records_of_units(archive, units, gzipped, projection) =~= fewer.push(record));
        } else {
            assert(last == bytes);
            assert(units.drop_last() =~= before);
            assert(records_of_units(archive, units, gzipped, projection) =~= fewer.push(record));
        }
    }
}

proof fn lemma_rows_of_units(
    archive: Seq<u8>,
    units: Seq<Range<u64>>,
    gzipped: bool,
    projection: Seq<usize>,
    batch_size: nat,
)
    requires
        batch_size > 0,
    ensures
        rows_of_units(archive, units, gzipped, projection, batch_size) matches Ok(rows) ==> rows
            == records_of_units(archive, units, gzipped, projection).map_values(
            |arrival: Arrival| super::warc_stream::row_alone(arrival, projection),
        ),
    decreases units.len(),
{
    let row = |arrival: Arrival| super::warc_stream::row_alone(arrival, projection);
    let records = records_of_units(archive, units, gzipped, projection);
    if let Ok(rows) = rows_of_units(archive, units, gzipped, projection, batch_size) {
        if units.len() == 0 {
            assert(rows =~= records.map_values(row));
        } else {
            lemma_rows_of_units(archive, units.drop_last(), gzipped, projection, batch_size);
            let read = crate::gzip::contents(unit_bytes(archive, units.last()), gzipped);
            let batches = super::warc_bytes::batches_of(
                read.0,
                read.1,
                projection,
                batch_size,
            )->Ok_0;
            let found = super::warc_bytes::records_in(read.0, projection);
            super::warc_bytes::law_memory_is_a_stream(
                read.0,
                read.1,
                projection,
                batch_size,
                batches,
            );
            let progress = super::warc_stream::streamed(found, projection, batch_size)->Ok_0;
            super::warc_stream::law_batches_keep_records(
                found,
                projection,
                batch_size,
                progress,
            );
            let before = records_of_units(archive, units.drop_last(), gzipped, projection);
            assert(records == before + found);
            assert((before + found).map_values(row) =~= before.map_values(row) + found.map_values(
                row,
            ));
        }
    }
}

/// An archive that is read through an index of its records gives the rows of
/// those records, each once and in the order of the archive, however many
/// ranges they are read in.
pub proof fn law_indexed_rows_are_the_records(
    archive: Seq<u8>,
    gzipped: bool,
    entries: Seq<WarcIndexEntry>,
    max_read_parallelism: nat,
    units: Seq<Range<u64>>,
    projection: Seq<usize>,
    batch_size: nat,
    rows: Seq<Seq<Cell>>,
)
    requires
        batch_size > 0,
        lists_records(archive, gzipped, entries),
        super::work_units::planned_units(entries, max_read_parallelism) == Ok::<
            Seq<Range<u64>>,
            Seq<char>,
        >(units),
        rows_of_units(archive, units, gzipped, projection, batch_size) == Ok::<
            Seq<Seq<Cell>>,
            Seq<char>,
        >(rows),
    ensures
        rows == listed_rows(
            archive,
            gzipped,
            projection,
            super::work_units::in_archive_order(entries),
        ),
{
    let sorted = super::work_units::in_archive_order(entries);
    let target = super::work_units::target_length(
        super::work_units::total_length(entries),
        max_read_parallelism,
    );
    super::work_units::lemma_archive_order_members(entries);
    assert forall|i: int| 0 <= i < sorted.len() implies lists_record(
        archive,
        gzipped,
        #[trigger] sorted[i],
    ) by {
        assert(sorted.contains(sorted[i]));
        assert(entries.contains(sorted[i]));
        let j = choose|j: int| 0 <= j < entries.len() && entries[j] == sorted[i];
        assert(lists_record(archive, gzipped, entries[j]));
    }
    lemma_units_hold_records(archive, sorted, gzipped, projection, target, units);
    lemma_rows_of_units(archive, units, gzipped, projection, batch_size);
    assert(rows =~= listed_rows(archive, gzipped, projection, sorted));
}

/// Neither the order in which an index lists the records of an archive nor the
/// number of readers changes the rows that are read, nor whether the index is
/// accepted.
pub proof fn law_readers_are_irrelevant(
    archive: Seq<u8>,
    gzipped: bool,
    left: Seq<WarcIndexEntry>,
    left_parallelism: nat,
    right: Seq<WarcIndexEntry>,
    right_parallelism: nat,
    projection: Seq<usize>,
    left_batch_size: nat,
    right_batch_size: nat,
)
    requires
        left_batch_size > 0,
        right_batch_size > 0,
        left_parallelism > 0,
        right_parallelism > 0,
        lists_records(archive, gzipped, left),
        left.to_multiset() == right.to_multiset(),
    ensures
        match (
            super::work_units::planned_units(left, left_parallelism),
            super::work_units::planned_units(right, right_parallelism),
        ) {
            (Ok(left_units), Ok(right_units)) => rows_of_units(
                archive,
                left_units,
                gzipped,
                projection,
                left_batch_size,
            ) matches Ok(left_rows) ==> rows_of_units(
                archive,
                right_units,
                gzipped,
                projection,
                right_batch_size,
            ) matches Ok(right_rows) ==> left_rows == right_rows,
            (Err(left_message), Err(right_message)) => left_message == right_message,
            _ => false,
        },
{
    super::work_units::law_readers_cover_the_same(
        left,
        left_parallelism,
        right,
        right_parallelism,
    );
    super::work_units::law_listing_order_is_irrelevant(left, right, left_parallelism);
    super::work_units::law_listing_order_is_irrelevant(left, right, right_parallelism);
    if let Ok(left_units) = super::work_units::planned_units(left, left_parallelism) {
        let right_units = super::work_units::planned_units(left, right_parallelism)->Ok_0;
        let left_rows = rows_of_units(archive, left_units, gzipped, projection, left_batch_size);
        let right_rows = rows_of_units(
            archive,
            right_units,
            gzipped,
            projection,
            right_batch_size,
        );
        if left_rows is Ok && right_rows is Ok {
            law_indexed_rows_are_the_records(
                archive,
                gzipped,
                left,
                left_parallelism,
                left_units,
                projection,
                left_batch_size,
                left_rows->Ok_0,
            );
            law_indexed_rows_are_the_records(
                archive,
                gzipped,
                left,
                right_parallelism,
                right_units,
                projection,
                right_batch_size,
                right_rows->Ok_0,
            );
        }
    }
}

}
