//! How a stream of WARC records is cut into batches.

use vstd::prelude::*;

use super::columns::{Cell, WarcBatch};
use super::warc_batch::{WarcBatchBuilder, MAX_BATCH_BODY_BYTES};
use super::warc_record::WarcRecord;
use crate::error::{Error, Result};
use crate::error_struct::at;

verus! {

/// What a step comes to: the rows of a batch that it completed, if any, and
/// the rows that are kept back; or why it failed.
pub type Step = std::result::Result<(Option<Seq<Seq<Cell>>>, Seq<Seq<Cell>>), Seq<char>>;

/// Before a record: rows kept back are sent where its body would take them over
/// the limit.
pub open spec fn begun(
    pending: Seq<Seq<Cell>>,
    content_length: u64,
    projection: Seq<usize>,
) -> Step {
    if super::warc_batch::includes_body(projection) && content_length > u32::MAX {
        Err("WARC body exceeds Arrow BinaryView limit"@)
    } else if pending.len() > 0 && super::warc_batch::includes_body(projection)
        && super::warc_batch::body_bytes_of(pending, projection) + content_length
        > MAX_BATCH_BODY_BYTES {
        Ok((Some(pending), Seq::empty()))
    } else {
        Ok((None, pending))
    }
}

/// Whether rows make up a whole batch.
pub open spec fn is_full(
    rows: Seq<Seq<Cell>>,
    projection: Seq<usize>,
    batch_size: nat,
) -> bool {
    rows.len() == batch_size || super::warc_batch::body_bytes_of(rows, projection)
        >= MAX_BATCH_BODY_BYTES
}

/// With a record: its row is added, and the rows are sent where they make up a
/// whole batch.
pub open spec fn pushed(
    pending: Seq<Seq<Cell>>,
    record: super::warc_record::WarcRecordView,
    body: Seq<u8>,
    projection: Seq<usize>,
    batch_size: nat,
) -> Step {
    match super::warc_batch::row_of(record, body, projection, pending) {
        Err(message) => Err(message),
        Ok(row) => if is_full(pending.push(row), projection, batch_size) {
            Ok((Some(pending.push(row)), Seq::empty()))
        } else {
            Ok((None, pending.push(row)))
        },
    }
}

/// Whether the result of a step is the one that was expected. After a failure
/// the rows are as they were.
pub open spec fn tells_step(
    result: Result<Option<WarcBatch>>,
    before: Seq<Seq<Cell>>,
    after: Seq<Seq<Cell>>,
    projection: Seq<usize>,
    expected: Step,
) -> bool {
    match result {
        Ok(None) => expected == Step::Ok((None, after)),
        Ok(Some(batch)) => expected == Step::Ok(
            (Some(super::warc_batch::batch_rows(batch)), after),
        ) && super::columns::batch_fields(batch) == super::warc_batch::fields_at(projection),
        Err(error) => expected matches Err(message) && error@ == crate::error::internal_error(
            message,
        ) && after == before,
    }
}

/// Cuts records into batches.
pub struct RecordBatcher {
    batch_size: usize,
    builder: WarcBatchBuilder,
}

impl RecordBatcher {
    /// The columns of the batches.
    pub closed spec fn projected(self) -> Seq<usize> {
        self.builder.projected()
    }

    /// The number of rows at which a batch is complete.
    pub closed spec fn batch_size(self) -> nat {
        self.batch_size as nat
    }

    /// The rows that are kept back.
    pub closed spec fn pending(self) -> Seq<Seq<Cell>> {
        self.builder.rows()
    }

    /// The rows that are kept back never make up a whole batch.
    pub closed spec fn wf(self) -> bool {
        &&& self.builder.wf()
        &&& self.builder.rows().len() < self.batch_size
        &&& self.batch_size * 32 <= isize::MAX
    }

    pub fn new(batch_size: usize, projection: Vec<usize>) -> (batcher: Self)
        requires
            batch_size > 0,
            batch_size * 32 <= isize::MAX,
            super::warc::is_projection(projection@),
        ensures
            batcher.wf(),
            batcher.projected() == projection@,
            batcher.batch_size() == batch_size,
            batcher.pending() == Seq::<Seq<Cell>>::empty(),
    {
        let builder = WarcBatchBuilder::new(batch_size, projection);
        RecordBatcher { batch_size, builder }
    }

    /// Whether the bodies of records are wanted.
    pub fn includes_body(&self) -> (included: bool)
        requires
            self.wf(),
        ensures
            included == super::warc_batch::includes_body(self.projected()),
    {
        self.builder.includes_body()
    }

    /// Announces a record with a body of `content_length` bytes. A batch that is
    /// returned comes before the record.
    pub fn begin_record(&mut self, content_length: u64) -> (sent: Result<Option<WarcBatch>>)
        requires
            old(self).wf(),
        ensures
            final(self).wf(),
            final(self).projected() == old(self).projected(),
            final(self).batch_size() == old(self).batch_size(),
            tells_step(
                sent,
                old(self).pending(),
                final(self).pending(),
                old(self).projected(),
                begun(old(self).pending(), content_length, old(self).projected()),
            ),
    {
        if self.builder.includes_body() && content_length > u32::MAX as u64 {
            return Err(Error::message(
                "WARC body exceeds Arrow BinaryView limit".to_owned(),
                at("src/source/warc_stream.rs", 156, 24),
            ));
        }
        if !self.builder.is_empty() && self.builder.would_exceed_body_limit(content_length) {
            return self.send();
        }
        Ok(None)
    }

    /// Adds a record, with its body where bodies are wanted. A batch that is
    /// returned ends with the record.
    pub fn push_record(&mut self, record: &WarcRecord, body: Option<Vec<u8>>) -> (sent: Result<
        Option<WarcBatch>,
    >)
        requires
            old(self).wf(),
            body is Some <==> super::warc_batch::includes_body(old(self).projected()),
        ensures
            final(self).wf(),
            final(self).projected() == old(self).projected(),
            final(self).batch_size() == old(self).batch_size(),
            tells_step(
                sent,
                old(self).pending(),
                final(self).pending(),
                old(self).projected(),
                pushed(
                    old(self).pending(),
                    record@,
                    super::warc_batch::body_view(body),
                    old(self).projected(),
                    old(self).batch_size(),
                ),
            ),
    {
        match self.builder.append_row(record, body) {
            Ok(_) => {},
            Err(error) => {
                return Err(error);
            },
        }
        if self.builder.len() == self.batch_size || self.builder.body_bytes()
            >= MAX_BATCH_BODY_BYTES {
            return self.send();
        }
        Ok(None)
    }

    /// Sends the rows that are kept back.
    fn send(&mut self) -> (sent: Result<Option<WarcBatch>>)
        requires
            old(self).builder.wf(),
            old(self).batch_size > 0,
            old(self).batch_size * 32 <= isize::MAX,
        ensures
            final(self).wf(),
            final(self).projected() == old(self).projected(),
            final(self).batch_size == old(self).batch_size,
            final(self).pending() == Seq::<Seq<Cell>>::empty(),
            sent matches Ok(Some(batch)) && super::warc_batch::batch_rows(batch) == old(
                self,
            ).pending() && super::columns::batch_fields(batch) == super::warc_batch::fields_at(
                old(self).projected(),
            ),
    {
        let full = self.builder.take_empty(self.batch_size);
        match full.finish() {
            Ok(batch) => Ok(Some(batch)),
            Err(error) => Err(error),
        }
    }

    /// The last batch, where rows are still kept back.
    pub fn finish(self) -> (sent: Result<Option<WarcBatch>>)
        requires
            self.wf(),
        ensures
            match sent {
                Ok(None) => self.pending().len() == 0,
                Ok(Some(batch)) => self.pending().len() > 0 && super::warc_batch::batch_rows(batch)
                    == self.pending() && super::columns::batch_fields(batch)
                    == super::warc_batch::fields_at(self.projected()),
                Err(_) => false,
            },
    {
        if self.builder.is_empty() {
            return Ok(None);
        }
        match self.builder.finish() {
            Ok(batch) => Ok(Some(batch)),
            Err(error) => Err(error),
        }
    }
}

/// A record and the body that was read for it.
pub struct Arrival {
    pub record: super::warc_record::WarcRecordView,
    pub body: Seq<u8>,
}

/// The batches that were sent, and the rows that are kept back.
pub struct Progress {
    pub sent: Seq<Seq<Seq<Cell>>>,
    pub pending: Seq<Seq<Cell>>,
}

/// A step in a stream.
pub open spec fn stepped(
    progress: std::result::Result<Progress, Seq<char>>,
    step: spec_fn(Seq<Seq<Cell>>) -> Step,
) -> std::result::Result<Progress, Seq<char>> {
    match progress {
        Err(message) => Err(message),
        Ok(progress) => match step(progress.pending) {
            Err(message) => Err(message),
            Ok((None, pending)) => Ok(Progress { sent: progress.sent, pending }),
            Ok((Some(batch), pending)) => Ok(
                Progress { sent: progress.sent.push(batch), pending },
            ),
        },
    }
}

/// What a stream of records comes to.
pub open spec fn streamed(
    arrivals: Seq<Arrival>,
    projection: Seq<usize>,
    batch_size: nat,
) -> std::result::Result<Progress, Seq<char>>
    decreases arrivals.len(),
{
    if arrivals.len() == 0 {
        Ok(Progress { sent: Seq::empty(), pending: Seq::empty() })
    } else {
        let last = arrivals.last();
        let before = streamed(arrivals.drop_last(), projection, batch_size);
        let announced = stepped(
            before,
            |pending: Seq<Seq<Cell>>| begun(pending, last.record.content_length, projection),
        );
        stepped(
            announced,
            |pending: Seq<Seq<Cell>>|
                pushed(pending, last.record, last.body, projection, batch_size),
        )
    }
}

/// All batches of a stream.
pub open spec fn all_batches(progress: Progress) -> Seq<Seq<Seq<Cell>>> {
    if progress.pending.len() == 0 {
        progress.sent
    } else {
        progress.sent.push(progress.pending)
    }
}

/// The row of a record by itself.
pub open spec fn row_alone(arrival: Arrival, projection: Seq<usize>) -> Seq<Cell> {
    super::warc_batch::values_of(arrival.record, arrival.body, projection, Seq::empty())->Ok_0
}

pub(crate) proof fn lemma_row_alone(arrival: Arrival, projection: Seq<usize>, rows: Seq<Seq<Cell>>)
    requires
        super::warc_batch::values_of(arrival.record, arrival.body, projection, rows) is Ok,
    ensures
        super::warc_batch::values_of(arrival.record, arrival.body, projection, rows)
            == super::warc_batch::values_of(
            arrival.record,
            arrival.body,
            projection,
            Seq::empty(),
        ),
    decreases projection.len(),
{
    if projection.len() > 0 {
        lemma_row_alone(arrival, projection.drop_last(), rows);
        assert(super::warc_batch::column_in(Seq::empty(), projection.len() - 1)
            =~= Seq::<Cell>::empty());
    }
}

pub(crate) proof fn lemma_progress(arrivals: Seq<Arrival>, projection: Seq<usize>, batch_size: nat)
    requires
        batch_size > 0,
    ensures
        streamed(arrivals, projection, batch_size) matches Ok(progress) ==> {
            &&& progress.sent.flatten() + progress.pending == arrivals.map_values(
                |arrival: Arrival| row_alone(arrival, projection),
            )
            &&& progress.pending.len() < batch_size
            &&& forall|i: int|
                0 <= i < progress.sent.len() ==> 0 < (#[trigger] progress.sent[i]).len()
                    <= batch_size
        },
    decreases arrivals.len(),
{
    let rows = arrivals.map_values(|arrival: Arrival| row_alone(arrival, projection));
    if arrivals.len() > 0 {
        let shorter = arrivals.drop_last();
        let last = arrivals.last();
        lemma_progress(shorter, projection, batch_size);
        if let Ok(progress) = streamed(arrivals, projection, batch_size) {
            let before = streamed(shorter, projection, batch_size)->Ok_0;
            let fewer = shorter.map_values(|arrival: Arrival| row_alone(arrival, projection));
            let row = row_alone(last, projection);
            assert(rows =~= fewer.push(row));
            let announced = stepped(
                Ok::<Progress, Seq<char>>(before),
                |pending: Seq<Seq<Cell>>| begun(pending, last.record.content_length, projection),
            )->Ok_0;
            if announced.sent.len() > before.sent.len() {
                assert(announced.sent.drop_last() =~= before.sent);
                before.sent.lemma_flatten_push(before.pending);
                assert(announced.sent.flatten() + announced.pending =~= fewer);
            } else {
                assert(announced.sent.flatten() + announced.pending =~= fewer);
            }
            assert(super::warc_batch::values_of(
                last.record,
                last.body,
                projection,
                announced.pending,
            ) is Ok);
            lemma_row_alone(last, projection, announced.pending);
            let grown = announced.pending.push(row);
            if progress.sent.len() > announced.sent.len() {
                announced.sent.lemma_flatten_push(grown);
                assert(progress.sent.flatten() + progress.pending =~= fewer.push(row));
            } else {
                assert(progress.sent.flatten() + progress.pending =~= fewer.push(row));
            }
        }
    } else {
        assert(Seq::<Seq<Seq<Cell>>>::empty().flatten() =~= Seq::<Seq<Cell>>::empty());
        assert(rows =~= Seq::empty());
    }
}

/// The batches of a stream hold the rows of its records, each once and in the
/// order of the records.
pub proof fn law_batches_keep_records(
    arrivals: Seq<Arrival>,
    projection: Seq<usize>,
    batch_size: nat,
    progress: Progress,
)
    requires
        batch_size > 0,
        streamed(arrivals, projection, batch_size) == Ok::<Progress, Seq<char>>(progress),
    ensures
        all_batches(progress).flatten() == arrivals.map_values(
            |arrival: Arrival| row_alone(arrival, projection),
        ),
{
    lemma_progress(arrivals, projection, batch_size);
    if progress.pending.len() > 0 {
        progress.sent.lemma_flatten_push(progress.pending);
    } else {
        assert(progress.sent.flatten() + progress.pending =~= progress.sent.flatten());
    }
}

/// No batch is empty, and none has more rows than the batch size.
pub proof fn law_batches_are_bounded(
    arrivals: Seq<Arrival>,
    projection: Seq<usize>,
    batch_size: nat,
    progress: Progress,
    at: int,
)
    requires
        batch_size > 0,
        streamed(arrivals, projection, batch_size) == Ok::<Progress, Seq<char>>(progress),
        0 <= at < all_batches(progress).len(),
    ensures
        0 < all_batches(progress)[at].len() <= batch_size,
{
    lemma_progress(arrivals, projection, batch_size);
}

/// Whether rows keep to the limit on body bytes, or are no more than one.
pub open spec fn within_body_limit(rows: Seq<Seq<Cell>>, projection: Seq<usize>) -> bool {
    rows.len() == 1 || super::warc_batch::body_bytes_of(rows, projection) <= MAX_BATCH_BODY_BYTES
}

pub(crate) proof fn lemma_body_bytes_grow(
    arrival: Arrival,
    projection: Seq<usize>,
    rows: Seq<Seq<Cell>>,
    row: Seq<Cell>,
)
    requires
        super::warc::is_projection(projection),
        super::warc_batch::row_of(arrival.record, arrival.body, projection, rows) == Ok::<
            Seq<Cell>,
            Seq<char>,
        >(row),
    ensures
        super::warc_batch::body_bytes_of(rows.push(row), projection)
            == super::warc_batch::body_bytes_of(rows, projection)
            + if super::warc_batch::includes_body(projection) {
            arrival.body.len()
        } else {
            0
        },
{
    if super::warc_batch::includes_body(projection) {
        let position = projection.index_of(super::warc::BODY_COLUMN_INDEX);
        super::warc_batch::lemma_row_fits(arrival.record, arrival.body, projection, rows, row);
        let cells = super::warc_batch::column_in(rows.push(row), position);
        assert(row[position] == Cell::Body(arrival.body));
        assert(cells.drop_last() =~= super::warc_batch::column_in(rows, position));
        assert(cells.last() == row[position]);
    }
}

proof fn lemma_body_limit(arrivals: Seq<Arrival>, projection: Seq<usize>, batch_size: nat)
    requires
        super::warc::is_projection(projection),
        forall|i: int|
            0 <= i < arrivals.len() ==> (#[trigger] arrivals[i]).body.len()
                <= arrivals[i].record.content_length,
    ensures
        streamed(arrivals, projection, batch_size) matches Ok(progress) ==> {
            &&& super::warc_batch::body_bytes_of(progress.pending, projection)
                < MAX_BATCH_BODY_BYTES
            &&& forall|i: int|
                0 <= i < progress.sent.len() ==> within_body_limit(
                    #[trigger] progress.sent[i],
                    projection,
                )
        },
    decreases arrivals.len(),
{
    if arrivals.len() > 0 {
        let shorter = arrivals.drop_last();
        let last = arrivals.last();
        assert forall|i: int| 0 <= i < shorter.len() implies (#[trigger] shorter[i]).body.len()
            <= shorter[i].record.content_length by {
            assert(arrivals[i].body.len() <= arrivals[i].record.content_length);
        }
        lemma_body_limit(shorter, projection, batch_size);
        if let Ok(progress) = streamed(arrivals, projection, batch_size) {
            let before = streamed(shorter, projection, batch_size)->Ok_0;
            let announced = stepped(
                Ok::<Progress, Seq<char>>(before),
                |pending: Seq<Seq<Cell>>| begun(pending, last.record.content_length, projection),
            )->Ok_0;
            let row = super::warc_batch::row_of(
                last.record,
                last.body,
                projection,
                announced.pending,
            )->Ok_0;
            lemma_body_bytes_grow(last, projection, announced.pending, row);
            lemma_no_body_bytes(projection);
            assert(arrivals[arrivals.len() - 1].body.len() <= last.record.content_length);
        }
    } else {
        lemma_no_body_bytes(projection);
    }
}

pub(crate) proof fn lemma_no_body_bytes(projection: Seq<usize>)
    ensures
        super::warc_batch::body_bytes_of(Seq::empty(), projection) == 0,
{
    let position = projection.index_of(super::warc::BODY_COLUMN_INDEX);
    assert(super::warc_batch::column_in(Seq::empty(), position) =~= Seq::<Cell>::empty());
}

/// Where no body is longer than its record announces, a batch of more than one
/// record keeps to the limit on body bytes.
pub proof fn law_bodies_are_limited(
    arrivals: Seq<Arrival>,
    projection: Seq<usize>,
    batch_size: nat,
    progress: Progress,
    at: int,
)
    requires
        super::warc::is_projection(projection),
        forall|i: int|
            0 <= i < arrivals.len() ==> (#[trigger] arrivals[i]).body.len()
                <= arrivals[i].record.content_length,
        streamed(arrivals, projection, batch_size) == Ok::<Progress, Seq<char>>(progress),
        0 <= at < all_batches(progress).len(),
    ensures
        within_body_limit(all_batches(progress)[at], projection),
{
    lemma_body_limit(arrivals, projection, batch_size);
}

}
