//! What holds of the rows of WARC records, whatever the records.

use vstd::prelude::*;

use super::columns::{Cell, ColumnType};
use super::warc_bytes::WarcHeadView;
use super::warc_record::{WarcHeader, WarcRecordView};
use super::warc_stream::{Arrival, Progress};

verus! {

/// What a column that is made of a header holds: the text that the bytes of the
/// header encode, byte for byte, or a null where there is no such header.
pub open spec fn holds_text(cell: Cell, value: Option<Seq<u8>>) -> bool {
    match value {
        None => cell == Cell::Text(None),
        Some(bytes) => cell matches Cell::Text(Some(text)) && vstd::utf8::encode_utf8(text)
            == bytes,
    }
}

/// What a column of numbers holds: the number that the header is written as, or
/// a null where there is no such header.
pub open spec fn holds_count(cell: Cell, value: Option<Seq<u8>>) -> bool {
    match value {
        None => cell == Cell::Count(None),
        Some(bytes) => cell matches Cell::Count(Some(count)) && vstd::utf8::valid_utf8(bytes)
            && crate::text::u64_value(vstd::utf8::decode_utf8(bytes)) == Some(count),
    }
}

/// The columns of a record hold its id, its length, its date, its type and its
/// body.
pub proof fn law_columns_hold_the_record(record: WarcRecordView, body: Seq<u8>)
    ensures
        super::warc_batch::cell_at(record, body, 0) == Ok::<Cell, Seq<char>>(
            Cell::Text(Some(record.id)),
        ),
        super::warc_batch::cell_at(record, body, 1) == Ok::<Cell, Seq<char>>(
            Cell::Count(Some(record.content_length)),
        ),
        super::warc_batch::cell_at(record, body, 2) == Ok::<Cell, Seq<char>>(
            Cell::Millis(record.date_millis),
        ),
        super::warc_batch::cell_at(record, body, 3) == Ok::<Cell, Seq<char>>(
            Cell::Text(Some(record.record_type)),
        ),
        super::warc_batch::cell_at(record, body, 19) == Ok::<Cell, Seq<char>>(Cell::Body(body)),
{
}

/// A column of texts holds the value of its header byte for byte. It is refused
/// only where the value is not UTF-8.
pub proof fn law_text_columns_hold_their_headers(
    record: WarcRecordView,
    body: Seq<u8>,
    index: int,
    header: WarcHeader,
)
    requires
        super::warc_record::header_at(index) == Some(header),
        index != 16,
        index != 18,
    ensures
        match super::warc_batch::cell_at(record, body, index) {
            Ok(cell) => holds_text(
                cell,
                super::warc_record::header_bytes(record.headers, header),
            ),
            Err(_) => super::warc_record::header_bytes(record.headers, header) matches Some(bytes)
                && !vstd::utf8::valid_utf8(bytes),
        },
{
    broadcast use vstd::utf8::decode_utf8_encode_utf8;

}

/// A column of numbers holds the number that its header is written as. It is
/// refused only where the header is no such number.
pub proof fn law_count_columns_hold_their_headers(
    record: WarcRecordView,
    body: Seq<u8>,
    index: int,
    header: WarcHeader,
)
    requires
        super::warc_record::header_at(index) == Some(header),
        index == 16 || index == 18,
    ensures
        match super::warc_batch::cell_at(record, body, index) {
            Ok(cell) => holds_count(
                cell,
                super::warc_record::header_bytes(record.headers, header),
            ),
            Err(_) => super::warc_record::header_bytes(record.headers, header) matches Some(bytes)
                && (!vstd::utf8::valid_utf8(bytes) || crate::text::u64_value(
                vstd::utf8::decode_utf8(bytes),
            ) is None),
        },
{
}

/// In a record that is read from bytes, a column of texts holds what the archive
/// lists for its header, byte for byte, and a null where it lists nothing.
pub proof fn law_listed_headers_fill_their_columns(
    bytes: Seq<u8>,
    head: WarcHeadView,
    projection: Seq<usize>,
    at: int,
    header: WarcHeader,
)
    requires
        0 <= at < projection.len(),
        super::warc_record::header_at(projection[at] as int) == Some(header),
        projection[at] != 16,
        projection[at] != 18,
    ensures
        ({
            let listed = super::warc_bytes::listed_headers(bytes.take(head.size as int));
            let value = super::warc_bytes::header_value(
                listed,
                super::warc_bytes::name_of(header),
            );
            let arrival = super::warc_bytes::first_arrival(bytes, head, projection);
            match super::warc_batch::cell_at(
                arrival.record,
                arrival.body,
                projection[at] as int,
            ) {
                Ok(cell) => holds_text(cell, value),
                Err(_) => value matches Some(found) && !vstd::utf8::valid_utf8(found),
            }
        }),
{
    let arrival = super::warc_bytes::first_arrival(bytes, head, projection);
    super::warc_bytes::law_columns_hold_their_headers(bytes, head, projection, at);
    law_text_columns_hold_their_headers(
        arrival.record,
        arrival.body,
        projection[at] as int,
        header,
    );
}

/// A record that is read from bytes has the id, the type, the date and the length
/// that its head says, and its body where bodies are wanted.
pub proof fn law_records_keep_their_heads(
    bytes: Seq<u8>,
    head: WarcHeadView,
    projection: Seq<usize>,
)
    requires
        super::warc_bytes::first_head(bytes) == Some(Ok::<WarcHeadView, Seq<char>>(head)),
        head.size + head.content_length <= bytes.len(),
    ensures
        ({
            let arrival = super::warc_bytes::first_arrival(bytes, head, projection);
            &&& arrival.record.id == head.id
            &&& arrival.record.record_type == head.record_type
            &&& arrival.record.date_millis == head.date_millis
            &&& arrival.record.content_length == head.content_length
            &&& projection.contains(19) ==> arrival.body.len() == head.content_length && forall|
                i: int,
            |
                0 <= i < arrival.body.len() ==> #[trigger] arrival.body[i] == bytes[head.size + i]
        }),
{
}

/// The value of a header is the last that is listed under its name. Headers of
/// other names make no difference.
pub proof fn law_last_header_counts(
    listed: Seq<(Seq<char>, Seq<u8>)>,
    name: Seq<char>,
    other: Seq<char>,
    value: Seq<u8>,
)
    requires
        name != other,
    ensures
        super::warc_bytes::header_value(listed.push((name, value)), name) == Some(value),
        super::warc_bytes::header_value(listed.push((other, value)), name)
            == super::warc_bytes::header_value(listed, name),
        super::warc_bytes::header_value(Seq::empty(), name) is None,
{
    assert(listed.push((other, value)).drop_last() =~= listed);
}

/// A row has one value for each column, and it is the value of that column.
pub proof fn law_rows_are_made_of_columns(
    record: WarcRecordView,
    body: Seq<u8>,
    projection: Seq<usize>,
    rows: Seq<Seq<Cell>>,
    row: Seq<Cell>,
)
    requires
        super::warc_batch::values_of(record, body, projection, rows) == Ok::<Seq<Cell>, Seq<char>>(
            row,
        ),
    ensures
        row.len() == projection.len(),
        forall|at: int|
            0 <= at < row.len() ==> super::warc_batch::cell_at(
                record,
                body,
                projection[at] as int,
            ) == Ok::<Cell, Seq<char>>(#[trigger] row[at]),
    decreases projection.len(),
{
    if projection.len() > 0 {
        let values = super::warc_batch::values_of(
            record,
            body,
            projection.drop_last(),
            rows,
        )->Ok_0;
        law_rows_are_made_of_columns(record, body, projection.drop_last(), rows, values);
        assert forall|at: int| 0 <= at < row.len() implies super::warc_batch::cell_at(
            record,
            body,
            projection[at] as int,
        ) == Ok::<Cell, Seq<char>>(#[trigger] row[at]) by {
            if at < row.len() - 1 {
                assert(values[at] == row[at]);
            }
        }
    }
}

/// A row is refused only for one of its columns, for texts that no longer fit in
/// a column, or for its body.
pub proof fn law_rows_are_refused_for_a_column(
    record: WarcRecordView,
    body: Seq<u8>,
    projection: Seq<usize>,
    rows: Seq<Seq<Cell>>,
)
    requires
        forall|at: int|
            0 <= at < projection.len() ==> super::warc_batch::cell_at(
                record,
                body,
                #[trigger] projection[at] as int,
            ) is Ok,
        forall|at: int|
            0 <= at < projection.len() ==> super::warc_batch::text_bytes_in(
                super::warc_batch::column_in(rows, at),
            ) + super::warc_batch::text_bytes_of(
                super::warc_batch::cell_at(record, body, #[trigger] projection[at] as int)->Ok_0,
            ) <= 0x7fff_ffff,
        projection.contains(19) ==> body.len() < 0xffff_ffff && rows.len() < 0xffff_ffff,
    ensures
        super::warc_batch::row_of(record, body, projection, rows) is Ok,
{
    lemma_values_accepted(record, body, projection, rows);
}

proof fn lemma_values_accepted(
    record: WarcRecordView,
    body: Seq<u8>,
    projection: Seq<usize>,
    rows: Seq<Seq<Cell>>,
)
    requires
        forall|at: int|
            0 <= at < projection.len() ==> super::warc_batch::cell_at(
                record,
                body,
                #[trigger] projection[at] as int,
            ) is Ok,
        forall|at: int|
            0 <= at < projection.len() ==> super::warc_batch::text_bytes_in(
                super::warc_batch::column_in(rows, at),
            ) + super::warc_batch::text_bytes_of(
                super::warc_batch::cell_at(record, body, #[trigger] projection[at] as int)->Ok_0,
            ) <= 0x7fff_ffff,
    ensures
        super::warc_batch::values_of(record, body, projection, rows) is Ok,
    decreases projection.len(),
{
    if projection.len() > 0 {
        let shorter = projection.drop_last();
        assert forall|at: int| 0 <= at < shorter.len() implies super::warc_batch::cell_at(
            record,
            body,
            #[trigger] shorter[at] as int,
        ) is Ok && super::warc_batch::text_bytes_in(super::warc_batch::column_in(rows, at))
            + super::warc_batch::text_bytes_of(
            super::warc_batch::cell_at(record, body, shorter[at] as int)->Ok_0,
        ) <= 0x7fff_ffff by {
            assert(shorter[at] == projection[at]);
        }
        lemma_values_accepted(record, body, shorter, rows);
        assert(projection[projection.len() - 1] == projection.last());
    }
}

proof fn lemma_streamed_values(arrivals: Seq<Arrival>, projection: Seq<usize>, batch_size: nat)
    requires
        super::warc_stream::streamed(arrivals, projection, batch_size) is Ok,
    ensures
        forall|i: int|
            0 <= i < arrivals.len() ==> super::warc_batch::values_of(
                (#[trigger] arrivals[i]).record,
                arrivals[i].body,
                projection,
                Seq::empty(),
            ) is Ok,
    decreases arrivals.len(),
{
    if arrivals.len() > 0 {
        let shorter = arrivals.drop_last();
        let last = arrivals.last();
        lemma_streamed_values(shorter, projection, batch_size);
        let before = super::warc_stream::streamed(shorter, projection, batch_size)->Ok_0;
        let announced = super::warc_stream::stepped(
            Ok::<Progress, Seq<char>>(before),
            |pending: Seq<Seq<Cell>>|
                super::warc_stream::begun(pending, last.record.content_length, projection),
        )->Ok_0;
        super::warc_stream::lemma_row_alone(last, projection, announced.pending);
        assert forall|i: int| 0 <= i < arrivals.len() implies super::warc_batch::values_of(
            (#[trigger] arrivals[i]).record,
            arrivals[i].body,
            projection,
            Seq::empty(),
        ) is Ok by {
            if i < shorter.len() {
                assert(shorter[i] == arrivals[i]);
            }
        }
    }
}

/// The batches of a stream hold one row for each record, in order, and each value
/// of a row is that of its record in its column.
pub proof fn law_batches_hold_the_values_of_records(
    arrivals: Seq<Arrival>,
    projection: Seq<usize>,
    batch_size: nat,
    progress: Progress,
)
    requires
        batch_size > 0,
        super::warc_stream::streamed(arrivals, projection, batch_size) == Ok::<
            Progress,
            Seq<char>,
        >(progress),
    ensures
        super::warc_stream::all_batches(progress).flatten().len() == arrivals.len(),
        forall|i: int, at: int|
            0 <= i < arrivals.len() && 0 <= at < projection.len() ==> super::warc_batch::cell_at(
                arrivals[i].record,
                arrivals[i].body,
                projection[at] as int,
            ) == Ok::<Cell, Seq<char>>(
                #[trigger] super::warc_stream::all_batches(progress).flatten()[i][at],
            ),
{
    super::warc_stream::law_batches_keep_records(arrivals, projection, batch_size, progress);
    lemma_streamed_values(arrivals, projection, batch_size);
    let rows = super::warc_stream::all_batches(progress).flatten();
    assert forall|i: int, at: int|
        0 <= i < arrivals.len() && 0 <= at < projection.len() implies super::warc_batch::cell_at(
        arrivals[i].record,
        arrivals[i].body,
        projection[at] as int,
    ) == Ok::<Cell, Seq<char>>(#[trigger] rows[i][at]) by {
        assert(rows[i] == super::warc_stream::row_alone(arrivals[i], projection));
        law_rows_are_made_of_columns(
            arrivals[i].record,
            arrivals[i].body,
            projection,
            Seq::empty(),
            rows[i],
        );
        assert(super::warc_batch::cell_at(
            arrivals[i].record,
            arrivals[i].body,
            projection[at] as int,
        ) == Ok::<Cell, Seq<char>>(rows[i][at]));
    }
}

/// Whether a batch could not be larger: it has all the rows it may have, its
/// bodies reach the limit of sixteen mebibytes, or the next record would take
/// them over it.
pub open spec fn could_not_grow(
    sent: Seq<Seq<Seq<Cell>>>,
    at: int,
    arrivals: Seq<Arrival>,
    projection: Seq<usize>,
    batch_size: nat,
) -> bool {
    let next = sent.take(at + 1).flatten().len() as int;
    ||| sent[at].len() == batch_size
    ||| super::warc_batch::body_bytes_of(sent[at], projection) >= 16777216
    ||| next < arrivals.len() && super::warc_batch::body_bytes_of(sent[at], projection)
        + arrivals[next].record.content_length > 16777216
}

proof fn lemma_batches_are_filled(arrivals: Seq<Arrival>, projection: Seq<usize>, batch_size: nat)
    requires
        batch_size > 0,
    ensures
        super::warc_stream::streamed(arrivals, projection, batch_size) is Ok ==> forall|at: int|
            0 <= at < super::warc_stream::streamed(
                arrivals,
                projection,
                batch_size,
            )->Ok_0.sent.len() ==> #[trigger] could_not_grow(
                super::warc_stream::streamed(arrivals, projection, batch_size)->Ok_0.sent,
                at,
                arrivals,
                projection,
                batch_size,
            ),
    decreases arrivals.len(),
{
    if arrivals.len() > 0 {
        let shorter = arrivals.drop_last();
        let last = arrivals.last();
        lemma_batches_are_filled(shorter, projection, batch_size);
        if let Ok(progress) = super::warc_stream::streamed(arrivals, projection, batch_size) {
            let before = super::warc_stream::streamed(shorter, projection, batch_size)->Ok_0;
            super::warc_stream::lemma_progress(shorter, projection, batch_size);
            let announced = super::warc_stream::stepped(
                Ok::<Progress, Seq<char>>(before),
                |pending: Seq<Seq<Cell>>|
                    super::warc_stream::begun(pending, last.record.content_length, projection),
            )->Ok_0;
            assert forall|at: int| 0 <= at < progress.sent.len() implies #[trigger] could_not_grow(
                progress.sent,
                at,
                arrivals,
                projection,
                batch_size,
            ) by {
                if at < before.sent.len() {
                    assert(could_not_grow(before.sent, at, shorter, projection, batch_size));
                    assert(progress.sent.take(at + 1) =~= before.sent.take(at + 1));
                    let next = before.sent.take(at + 1).flatten().len() as int;
                    if next < shorter.len() {
                        assert(arrivals[next] == shorter[next]);
                    }
                } else if at < announced.sent.len() {
                    assert(progress.sent.take(at + 1) =~= before.sent.push(before.pending));
                    before.sent.lemma_flatten_push(before.pending);
                    assert(progress.sent.take(at + 1).flatten().len() == shorter.len());
                    assert(arrivals[shorter.len() as int] == last);
                }
            }
        }
    }
}

/// No batch is sent before its time: all but the last could not have taken the
/// next record.
pub proof fn law_batches_are_filled(
    arrivals: Seq<Arrival>,
    projection: Seq<usize>,
    batch_size: nat,
    progress: Progress,
    at: int,
)
    requires
        batch_size > 0,
        super::warc_stream::streamed(arrivals, projection, batch_size) == Ok::<
            Progress,
            Seq<char>,
        >(progress),
        0 <= at < super::warc_stream::all_batches(progress).len() - 1,
    ensures
        could_not_grow(
            super::warc_stream::all_batches(progress),
            at,
            arrivals,
            projection,
            batch_size,
        ),
{
    lemma_batches_are_filled(arrivals, projection, batch_size);
    let streamed = super::warc_stream::streamed(arrivals, projection, batch_size);
    assert(streamed is Ok && at < streamed->Ok_0.sent.len());
    assert(could_not_grow(streamed->Ok_0.sent, at, arrivals, projection, batch_size));
    assert(super::warc_stream::all_batches(progress).take(at + 1) =~= progress.sent.take(at + 1));
}

/// Another row adds its body to the bytes that are counted, and nothing where
/// bodies are not wanted.
pub proof fn law_body_bytes_add_up(
    record: WarcRecordView,
    body: Seq<u8>,
    projection: Seq<usize>,
    rows: Seq<Seq<Cell>>,
    row: Seq<Cell>,
)
    requires
        super::warc::is_projection(projection),
        super::warc_batch::row_of(record, body, projection, rows) == Ok::<Seq<Cell>, Seq<char>>(
            row,
        ),
    ensures
        super::warc_batch::body_bytes_of(rows.push(row), projection)
            == super::warc_batch::body_bytes_of(rows, projection) + if projection.contains(19) {
            body.len()
        } else {
            0
        },
        super::warc_batch::body_bytes_of(Seq::empty(), projection) == 0,
{
    let arrival = Arrival { record, body };
    super::warc_stream::lemma_body_bytes_grow(arrival, projection, rows, row);
    super::warc_stream::lemma_no_body_bytes(projection);
}

/// Records in memory are accepted only where each is whole: two empty lines
/// follow its body, what follows is accepted too, and nothing is left over.
pub proof fn law_accepted_records_are_whole(
    progress: Progress,
    bytes: Seq<u8>,
    failure: Option<crate::gzip::GzipFailureView>,
    projection: Seq<usize>,
    batch_size: nat,
)
    requires
        super::warc_bytes::rest_of_records(
            progress,
            bytes,
            failure,
            projection,
            batch_size,
        ) is Ok,
    ensures
        failure is None,
        match super::warc_bytes::first_head(bytes) {
            None => super::warc_bytes::records_in(bytes, projection).len() == 0,
            Some(Err(_)) => false,
            Some(Ok(head)) => {
                let end = head.size + head.content_length;
                &&& end + 4 <= bytes.len()
                &&& bytes[end] == 13 && bytes[end + 1] == 10 && bytes[end + 2] == 13 && bytes[end
                    + 3] == 10
                &&& super::warc_bytes::records_in(bytes, projection).len() == 1
                    + super::warc_bytes::records_in(bytes.skip(end + 4), projection).len()
            },
        },
    decreases bytes.len(),
{
    if let Some(Ok(head)) = super::warc_bytes::first_head(bytes) {
        let end = head.size + head.content_length;
        if end <= bytes.len() {
            let rest = bytes.skip(end);
            if rest.len() >= 4 {
                assert(rest.take(4)[0] == bytes[end]);
                assert(rest.take(4)[1] == bytes[end + 1]);
                assert(rest.take(4)[2] == bytes[end + 2]);
                assert(rest.take(4)[3] == bytes[end + 3]);
                let arrival = super::warc_bytes::first_arrival(bytes, head, projection);
                let announced = super::warc_stream::stepped(
                    Ok::<Progress, Seq<char>>(progress),
                    |pending: Seq<Seq<Cell>>|
                        super::warc_stream::begun(pending, head.content_length, projection),
                );
                let added = super::warc_stream::stepped(
                    announced,
                    |pending: Seq<Seq<Cell>>|
                        super::warc_stream::pushed(
                            pending,
                            arrival.record,
                            arrival.body,
                            projection,
                            batch_size,
                        ),
                )->Ok_0;
                law_accepted_records_are_whole(
                    added,
                    bytes.skip(end + 4),
                    failure,
                    projection,
                    batch_size,
                );
            }
        }
    }
}

/// A record that is whole and whose row can be added is accepted: what remains
/// is what follows it.
pub proof fn law_whole_records_are_accepted(
    progress: Progress,
    bytes: Seq<u8>,
    failure: Option<crate::gzip::GzipFailureView>,
    projection: Seq<usize>,
    batch_size: nat,
    head: WarcHeadView,
    arrivals: Seq<Arrival>,
)
    requires
        super::warc_bytes::first_head(bytes) == Some(Ok::<WarcHeadView, Seq<char>>(head)),
        head.size + head.content_length + 4 <= bytes.len(),
        bytes.skip(head.size + head.content_length).take(4) == seq![13u8, 10, 13, 10],
        super::warc_stream::streamed(arrivals, projection, batch_size) == Ok::<
            Progress,
            Seq<char>,
        >(progress),
        super::warc_stream::streamed(
            arrivals.push(super::warc_bytes::first_arrival(bytes, head, projection)),
            projection,
            batch_size,
        ) is Ok,
    ensures
        super::warc_bytes::rest_of_records(progress, bytes, failure, projection, batch_size)
            == super::warc_bytes::rest_of_records(
            super::warc_stream::streamed(
                arrivals.push(super::warc_bytes::first_arrival(bytes, head, projection)),
                projection,
                batch_size,
            )->Ok_0,
            bytes.skip(head.size + head.content_length + 4),
            failure,
            projection,
            batch_size,
        ),
{
    let arrival = super::warc_bytes::first_arrival(bytes, head, projection);
    assert(arrivals.push(arrival).drop_last() =~= arrivals);
}

/// An object is gzipped where its name ends in `.gz`, in either case.
pub proof fn law_gzip_is_told_by_the_name(name: Seq<char>)
    ensures
        super::warc::names_gzip(name) <==> name.len() >= 3 && name[name.len() - 3] == '.' && (
        name[name.len() - 2] == 'g' || name[name.len() - 2] == 'G') && (name[name.len() - 1] == 'z'
            || name[name.len() - 1] == 'Z'),
{
    reveal_strlit(".gz");
    let wanted = ".gz"@;
    if name.len() >= 3 {
        let end = name.skip(name.len() - 3);
        crate::text_laws::law_case_is_that_of_letters(end, wanted);
        assert(end[0] == name[name.len() - 3]);
        assert(end[1] == name[name.len() - 2]);
        assert(end[2] == name[name.len() - 1]);
        if super::warc::names_gzip(name) {
            assert(crate::text_laws::same_letter(end[0], wanted[0]));
            assert(crate::text_laws::same_letter(end[1], wanted[1]));
            assert(crate::text_laws::same_letter(end[2], wanted[2]));
        }
    }
}

/// A choice of columns is good where all of them are among the twenty and none
/// occurs twice.
pub proof fn law_projections_are_known_columns(projection: Seq<usize>)
    ensures
        super::warc::projection_problem(projection) is None <==> (forall|i: int|
            0 <= i < projection.len() ==> #[trigger] projection[i] < 20) && (forall|
            i: int,
            j: int,
        |
            0 <= i < j < projection.len() ==> #[trigger] projection[i] != #[trigger] projection[j]),
    decreases projection.len(),
{
    if projection.len() > 0 {
        let shorter = projection.drop_last();
        let last = projection.last();
        law_projections_are_known_columns(shorter);
        assert(projection[projection.len() - 1] == last);
        if super::warc::projection_problem(projection) is None {
            assert forall|i: int| 0 <= i < projection.len() implies #[trigger] projection[i]
                < 20 by {
                if i < shorter.len() {
                    assert(shorter[i] == projection[i]);
                }
            }
            assert forall|i: int, j: int| 0 <= i < j < projection.len() implies #[trigger]
                projection[i] != #[trigger] projection[j] by {
                assert(shorter[i] == projection[i]);
                if j < shorter.len() {
                    assert(shorter[j] == projection[j]);
                } else {
                    assert(shorter.contains(projection[i]));
                }
            }
        } else {
            if (forall|i: int| 0 <= i < projection.len() ==> #[trigger] projection[i] < 20) && (
            forall|i: int, j: int|
                0 <= i < j < projection.len() ==> #[trigger] projection[i]
                    != #[trigger] projection[j]) {
                assert forall|i: int| 0 <= i < shorter.len() implies #[trigger] shorter[i]
                    < 20 by {
                    assert(shorter[i] == projection[i]);
                }
                assert forall|i: int, j: int| 0 <= i < j < shorter.len() implies #[trigger]
                    shorter[i] != #[trigger] shorter[j] by {
                    assert(shorter[i] == projection[i] && shorter[j] == projection[j]);
                }
                if shorter.contains(last) {
                    let i = choose|i: int| 0 <= i < shorter.len() && shorter[i] == last;
                    assert(projection[i] != projection[projection.len() - 1]);
                }
            }
        }
    }
}

/// The columns that are named are read, in that order. All twenty are read, in
/// their order, where none are named.
pub proof fn law_columns_are_read_as_named(projection: Seq<usize>)
    ensures
        projection.len() > 0 ==> super::warc::requested_columns(Some(projection)) == projection,
        super::warc::requested_columns(Some(Seq::empty())) == super::warc::requested_columns(None),
        super::warc::requested_columns(None).len() == 20,
        forall|i: int|
            0 <= i < 20 ==> #[trigger] super::warc::requested_columns(None)[i] == i,
{
}

/// An archive is read where its storage is, decompressed if its name says so, and
/// through an index exactly where one is named. A storage root is no archive and
/// no index.
pub proof fn law_archives_are_read_where_they_are(
    source: super::warc::WarcSourceView,
    storage: crate::storage::StorageOutcome,
    index: crate::storage::StorageOutcome,
)
    ensures
        match super::warc::planned(source, storage, index) {
            Ok(plan) => {
                &&& storage == crate::storage::StorageOutcome::Ok(plan.storage)
                &&& plan.storage.object_path.len() > 0
                &&& plan.gzipped == super::warc::names_gzip(plan.storage.object_path)
                &&& plan.projection == super::warc::requested_columns(source.projection)
                &&& plan.index is Some <==> source.index_path is Some
                &&& plan.index matches Some(found) ==> index
                    == crate::storage::StorageOutcome::Ok(found.0) && found.0.object_path.len() > 0
                    && found.1 == super::warc::names_gzip(found.0.object_path)
            },
            Err(error) => {
                ||| storage matches Err(found) && found == error
                ||| storage matches Ok(found) && found.object_path.len() == 0
                ||| source.index_path is Some && (index matches Err(found) && found == error)
                ||| source.index_path is Some && (index matches Ok(found)
                    && found.object_path.len() == 0)
            },
        },
        storage is Ok && storage->Ok_0.object_path.len() > 0 && (source.index_path is None
            || index is Ok && index->Ok_0.object_path.len() > 0)
            ==> super::warc::planned(source, storage, index) is Ok,
{
}

/// A column is made of a header exactly where it may hold nulls. Lengths and
/// segment numbers are numbers, the date is a time, the body is bytes, and the
/// other columns are texts.
pub proof fn law_columns_have_types(index: int)
    requires
        0 <= index < 20,
    ensures
        super::warc::column_at(index).nullable <==> super::warc_record::header_at(index) is Some,
        super::warc::column_at(index).nullable <==> 4 <= index <= 18,
        super::warc::column_at(index).column_type is UInt64 <==> index == 1 || index == 16 || index
            == 18,
        super::warc::column_at(index).column_type is TimestampMillisecond <==> index == 2,
        super::warc::column_at(index).column_type is BinaryView <==> index == 19,
{
}

/// A header name as a column is named: without `warc-` in front, and with
/// underscores for hyphens.
pub open spec fn as_column(name: Seq<char>) -> Seq<char> {
    let rest = if name.len() >= 5 && name.take(5) == seq!['w', 'a', 'r', 'c', '-'] {
        name.skip(5)
    } else {
        name
    };
    rest.map_values(|c: char| if c == '-' { '_' } else { c })
}

/// A column that is made of a header is called after it. Only the identifier of
/// the archive itself is set apart by one more underscore.
pub proof fn law_columns_are_called_after_their_headers(index: int)
    requires
        4 <= index <= 18,
        index != 12,
    ensures
        super::warc_record::header_at(index) matches Some(header)
            && super::warc::column_at(index).name == as_column(
            super::warc_bytes::name_of(header),
        ),
{
    let header = super::warc_record::header_at(index)->0;
    let name = super::warc_bytes::name_of(header);
    let prefix = seq!['w', 'a', 'r', 'c', '-'];
    reveal_strlit("content-type");
    reveal_strlit("warc-concurrent-to");
    reveal_strlit("warc-block-digest");
    reveal_strlit("warc-payload-digest");
    reveal_strlit("warc-ip-address");
    reveal_strlit("warc-refers-to");
    reveal_strlit("warc-target-uri");
    reveal_strlit("warc-truncated");
    reveal_strlit("warc-filename");
    reveal_strlit("warc-profile");
    reveal_strlit("warc-identified-payload-type");
    reveal_strlit("warc-segment-number");
    reveal_strlit("warc-segment-origin-id");
    reveal_strlit("warc-segment-total-length");
    reveal_strlit("content_type");
    reveal_strlit("concurrent_to");
    reveal_strlit("block_digest");
    reveal_strlit("payload_digest");
    reveal_strlit("ip_address");
    reveal_strlit("refers_to");
    reveal_strlit("target_uri");
    reveal_strlit("truncated");
    reveal_strlit("filename");
    reveal_strlit("profile");
    reveal_strlit("identified_payload_type");
    reveal_strlit("segment_number");
    reveal_strlit("segment_origin_id");
    reveal_strlit("segment_total_length");
    if index == 4 {
        assert(name.take(5)[0] != prefix[0]);
    } else {
        assert(name.take(5) =~= prefix);
    }
    assert(super::warc::column_at(index).name =~= as_column(name));
}

/// The columns that are not made of a header have these names.
pub proof fn law_other_columns_have_names()
    ensures
        super::warc::column_at(0).name == seq!['i', 'd'],
        super::warc::column_at(1).name == as_column(
            seq!['c', 'o', 'n', 't', 'e', 'n', 't', '-', 'l', 'e', 'n', 'g', 't', 'h'],
        ),
        super::warc::column_at(2).name == seq!['d', 'a', 't', 'e'],
        super::warc::column_at(3).name == seq!['t', 'y', 'p', 'e'],
        super::warc::column_at(12).name == seq![
            'w', 'a', 'r', 'c', '_', 'i', 'n', 'f', 'o', '_', 'i', 'd',
        ],
        super::warc::column_at(19).name == seq!['b', 'o', 'd', 'y'],
        super::warc_record::header_at(12) == Some(WarcHeader::WarcInfoID),
{
    reveal_strlit("id");
    reveal_strlit("content_length");
    reveal_strlit("date");
    reveal_strlit("type");
    reveal_strlit("warc_info_id");
    reveal_strlit("body");
    let length = seq!['c', 'o', 'n', 't', 'e', 'n', 't', '-', 'l', 'e', 'n', 'g', 't', 'h'];
    assert(length.take(5)[0] != 'w');
    assert(super::warc::column_at(0).name =~= seq!['i', 'd']);
    assert(super::warc::column_at(1).name =~= as_column(length));
    assert(super::warc::column_at(2).name =~= seq!['d', 'a', 't', 'e']);
    assert(super::warc::column_at(3).name =~= seq!['t', 'y', 'p', 'e']);
    assert(super::warc::column_at(12).name =~= seq![
        'w', 'a', 'r', 'c', '_', 'i', 'n', 'f', 'o', '_', 'i', 'd',
    ]);
    assert(super::warc::column_at(19).name =~= seq!['b', 'o', 'd', 'y']);
}

/// The value of a column is of the type of the column, and a null only where the
/// column may hold nulls.
pub proof fn law_values_have_the_types_of_columns(
    record: WarcRecordView,
    body: Seq<u8>,
    index: int,
    cell: Cell,
)
    requires
        0 <= index < 20,
        super::warc_batch::cell_at(record, body, index) == Ok::<Cell, Seq<char>>(cell),
    ensures
        match super::warc::column_at(index).column_type {
            ColumnType::Utf8 => cell is Text,
            ColumnType::UInt64 => cell is Count,
            ColumnType::TimestampMillisecond => cell is Millis,
            ColumnType::BinaryView => cell is Body,
        },
        cell == Cell::Text(None) || cell == Cell::Count(None) ==> super::warc::column_at(
            index,
        ).nullable,
{
}

/// A body of four gibibytes or more cannot be held.
pub proof fn law_large_bodies_are_refused(
    record: WarcRecordView,
    body: Seq<u8>,
    projection: Seq<usize>,
    rows: Seq<Seq<Cell>>,
)
    requires
        projection.contains(19),
        body.len() >= 0xffff_ffff,
    ensures
        super::warc_batch::row_of(record, body, projection, rows) is Err,
{
}

/// The headers that are read are those that the columns are made of.
pub proof fn law_headers_of_the_columns_are_read(projection: Seq<usize>, header: WarcHeader)
    ensures
        super::warc_record::headers_at(projection).contains(header) <==> exists|at: int|
            0 <= at < projection.len() && super::warc_record::header_at(
                #[trigger] projection[at] as int,
            ) == Some(header),
    decreases projection.len(),
{
    let headers = super::warc_record::headers_at(projection);
    if projection.len() > 0 {
        let shorter = projection.drop_last();
        let before = super::warc_record::headers_at(shorter);
        law_headers_of_the_columns_are_read(shorter, header);
        assert(projection[projection.len() - 1] == projection.last());
        if headers.contains(header) {
            let i = choose|i: int| 0 <= i < headers.len() && headers[i] == header;
            if i < before.len() {
                assert(before[i] == header);
                let at = choose|at: int|
                    0 <= at < shorter.len() && super::warc_record::header_at(
                        #[trigger] shorter[at] as int,
                    ) == Some(header);
                assert(projection[at] == shorter[at]);
            }
        }
        if exists|at: int|
            0 <= at < projection.len() && super::warc_record::header_at(
                #[trigger] projection[at] as int,
            ) == Some(header) {
            let at = choose|at: int|
                0 <= at < projection.len() && super::warc_record::header_at(
                    #[trigger] projection[at] as int,
                ) == Some(header);
            if at < shorter.len() {
                assert(shorter[at] == projection[at]);
                let i = choose|i: int| 0 <= i < before.len() && before[i] == header;
                assert(headers[i] == header);
            } else {
                assert(headers[headers.len() - 1] == header);
            }
        }
    }
}

/// Bytes that are not gzipped are read as they are.
pub proof fn law_plain_bytes_are_read_as_they_are(bytes: Seq<u8>)
    ensures
        crate::gzip::contents(bytes, false).0 == bytes,
        crate::gzip::contents(bytes, false).1 is None,
        crate::gzip::contents(bytes, true) == crate::gzip::gunzipped(bytes),
{
}

/// A source has columns to read where its batches hold something and its columns
/// are a good choice.
pub proof fn law_sources_have_columns(source: super::warc::WarcSourceView)
    ensures
        super::warc::columns_problem(source) is None <==> source.batch_size > 0
            && super::warc::projection_problem(
            super::warc::requested_columns(source.projection),
        ) is None,
{
}

/// The columns have the Arrow types of texts, numbers, times in milliseconds
/// without a zone, and views of bytes. All but the last can be written.
pub proof fn law_columns_have_arrow_types(index: int)
    requires
        0 <= index < 20,
    ensures
        match super::warc::column_at(index).column_type {
            ColumnType::Utf8 => super::warc::data_type_of(
                super::warc::column_at(index).column_type,
            ) is Utf8,
            ColumnType::UInt64 => super::warc::data_type_of(
                super::warc::column_at(index).column_type,
            ) is UInt64,
            ColumnType::TimestampMillisecond => super::warc::data_type_of(
                super::warc::column_at(index).column_type,
            ) == crate::schema::DataType::Timestamp(crate::schema::TimeUnit::Millisecond, None),
            ColumnType::BinaryView => super::warc::data_type_of(
                super::warc::column_at(index).column_type,
            ) is BinaryView,
        },
        crate::schema::is_writable_leaf(
            super::warc::data_type_of(super::warc::column_at(index).column_type),
        ) <==> index != 19,
{
}

/// Among the headers of a record, the first under a name has the value. Headers
/// of other names in front make no difference.
pub proof fn law_listed_header_has_the_value(
    headers: Seq<(WarcHeader, Seq<u8>)>,
    header: WarcHeader,
    other: WarcHeader,
    value: Seq<u8>,
)
    requires
        header != other,
    ensures
        super::warc_record::header_bytes(seq![(header, value)] + headers, header) == Some(value),
        super::warc_record::header_bytes(seq![(other, value)] + headers, header)
            == super::warc_record::header_bytes(headers, header),
        super::warc_record::header_bytes(Seq::empty(), header) is None,
{
    assert((seq![(other, value)] + headers).skip(1) =~= headers);
}

/// The text of a header is told as it is. It is missing where the header is, and
/// refused where it is not UTF-8.
pub proof fn law_header_texts_are_told(
    result: crate::error::Result<Option<String>>,
    headers: Seq<(WarcHeader, Seq<u8>)>,
    header: WarcHeader,
)
    requires
        super::warc_record::tells_text(result, super::warc_record::header_text(headers, header)),
    ensures
        match super::warc_record::header_bytes(headers, header) {
            None => result matches Ok(text) && text is None,
            Some(bytes) => if vstd::utf8::valid_utf8(bytes) {
                result matches Ok(text) && text is Some && vstd::utf8::encode_utf8(text->0@)
                    == bytes
            } else {
                result is Err
            },
        },
{
    broadcast use vstd::utf8::decode_utf8_encode_utf8;

}

/// Batches are told one by one and in order, with the columns that were asked
/// for, or the reason why there are none.
pub proof fn law_batches_are_told(
    result: crate::error::Result<Vec<super::columns::WarcBatch>>,
    projection: Seq<usize>,
    expected: std::result::Result<Seq<Seq<Seq<Cell>>>, Seq<char>>,
)
    requires
        super::warc_bytes::tells_batches(result, projection, expected),
    ensures
        expected matches Err(message) ==> (result matches Err(error) && error@.details.message
            == message),
        expected matches Ok(batches) ==> (result matches Ok(found) && found@.len() == batches.len()
            && forall|i: int|
            0 <= i < batches.len() ==> {
                &&& super::warc_batch::batch_rows(#[trigger] found@[i]) == batches[i]
                &&& super::columns::batch_fields(found@[i]).len() == projection.len()
                &&& forall|at: int|
                    0 <= at < projection.len() ==> #[trigger] super::columns::batch_fields(
                        found@[i],
                    )[at] == super::warc::column_at(projection[at] as int)
            }),
{
}

/// What a step in a stream gives is told: the batch that is sent, if there is one,
/// with the columns that were asked for, and the rows that are kept back.
pub proof fn law_steps_are_told(
    result: crate::error::Result<Option<super::columns::WarcBatch>>,
    before: Seq<Seq<Cell>>,
    after: Seq<Seq<Cell>>,
    projection: Seq<usize>,
    expected: super::warc_stream::Step,
)
    requires
        super::warc_stream::tells_step(result, before, after, projection, expected),
    ensures
        match expected {
            Err(message) => after == before && (result matches Err(error)
                && error@.details.message == message),
            Ok((sent, kept)) => after == kept && (result matches Ok(batch) && (batch is Some
                <==> sent is Some) && (batch is Some ==> super::warc_batch::batch_rows(batch->0)
                == sent->0)),
        },
{
}

/// A row of a batch holds what its columns hold there.
pub proof fn law_rows_cross_columns(batch: super::columns::WarcBatch, row: int, column: int)
    requires
        0 <= column < super::columns::batch_columns(batch).len(),
        0 <= row < super::warc_batch::batch_rows(batch).len(),
    ensures
        super::warc_batch::batch_rows(batch)[row].len() == super::columns::batch_columns(
            batch,
        ).len(),
        super::warc_batch::batch_rows(batch)[row][column] == super::columns::batch_columns(
            batch,
        )[column][row],
{
}

/// A record whose body is wanted and longer than can be held ends the stream.
pub proof fn law_long_records_are_refused(
    arrivals: Seq<Arrival>,
    arrival: Arrival,
    projection: Seq<usize>,
    batch_size: nat,
)
    requires
        projection.contains(19),
        arrival.record.content_length > 0xffff_ffff,
    ensures
        super::warc_stream::streamed(arrivals.push(arrival), projection, batch_size) is Err,
{
    assert(arrivals.push(arrival).drop_last() =~= arrivals);
}

/// A record is taken where its body is not wanted or can be held, and its row can
/// be added to the rows that are kept back and to none.
pub proof fn law_records_are_taken(
    arrivals: Seq<Arrival>,
    arrival: Arrival,
    projection: Seq<usize>,
    batch_size: nat,
    progress: Progress,
)
    requires
        super::warc_stream::streamed(arrivals, projection, batch_size) == Ok::<
            Progress,
            Seq<char>,
        >(progress),
        !projection.contains(19) || arrival.record.content_length <= 0xffff_ffff,
        super::warc_batch::row_of(
            arrival.record,
            arrival.body,
            projection,
            progress.pending,
        ) is Ok,
        super::warc_batch::row_of(arrival.record, arrival.body, projection, Seq::empty()) is Ok,
    ensures
        super::warc_stream::streamed(arrivals.push(arrival), projection, batch_size) is Ok,
{
    assert(arrivals.push(arrival).drop_last() =~= arrivals);
}

/// An archive and its index are where their paths lead, with the configuration of
/// the source.
pub proof fn law_sources_are_where_their_paths_lead(
    outcome: crate::storage::StorageOutcome,
    source: super::warc::WarcSourceView,
    absolute: Seq<char>,
    path: Seq<char>,
)
    ensures
        super::warc::is_archive_outcome(outcome, source, absolute)
            <==> crate::storage::is_path_outcome(
            outcome,
            source.path,
            absolute,
            source.s3_config,
        ),
        source.index_path == Some(path) ==> (super::warc::is_index_outcome(
            outcome,
            source,
            absolute,
        ) <==> crate::storage::is_path_outcome(outcome, path, absolute, source.s3_config)),
{
}

}
