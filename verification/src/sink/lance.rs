//! Writes of Lance datasets.

use vstd::prelude::*;

use super::lance_index::{supports_text_index, LanceIndexPlan};
use super::WriteSummary;
use crate::error::{Error, ErrorOrigin, Result};
use crate::error_struct::at;
use crate::schema::{validate_schema, Schema};
use crate::storage::{OpendalStorage, S3StorageConfig};
use crate::text::same_text;

verus! {

/// What a write does to the destination.
#[derive(Clone, Copy, Debug, PartialEq, Eq, Structural)]
pub enum WriteMode {
    /// Makes a dataset, which must not exist.
    Create,
    /// Adds rows to a dataset.
    Append,
    /// Replaces the rows of a dataset.
    Overwrite,
}

/// Half a gibibyte.
pub const DEFAULT_TARGET_FILE_SIZE: usize = 536870912;

/// Two mebibytes.
pub const DEFAULT_BLOB_INLINE_SIZE_THRESHOLD: usize = 2097152;

/// Sixteen mebibytes.
pub const DEFAULT_BLOB_DEDICATED_SIZE_THRESHOLD: usize = 16777216;

/// How a dataset is written.
#[derive(Debug)]
pub struct WriteOptions {
    pub mode: WriteMode,
    pub s3_config: Option<S3StorageConfig>,
    pub blob_inline_size_threshold: Option<usize>,
    pub blob_dedicated_size_threshold: Option<usize>,
    pub target_file_size: usize,
    pub blob_columns: Vec<String>,
    pub scalar_index_columns: Vec<String>,
    pub vector_index_columns: Vec<String>,
    pub text_index_columns: Vec<String>,
    pub bloom_filter_index_columns: Vec<String>,
}

impl Default for WriteOptions {
    fn default() -> (options: Self)
        ensures
            options.mode == WriteMode::Create,
            options.s3_config is None,
            options.blob_inline_size_threshold is None,
            options.blob_dedicated_size_threshold is None,
            options.target_file_size == DEFAULT_TARGET_FILE_SIZE,
            options.blob_columns@.len() == 0,
            options.scalar_index_columns@.len() == 0,
            options.vector_index_columns@.len() == 0,
            options.text_index_columns@.len() == 0,
            options.bloom_filter_index_columns@.len() == 0,
    {
        WriteOptions {
            mode: WriteMode::Create,
            s3_config: None,
            blob_inline_size_threshold: None,
            blob_dedicated_size_threshold: None,
            target_file_size: DEFAULT_TARGET_FILE_SIZE,
            blob_columns: Vec::new(),
            scalar_index_columns: Vec::new(),
            vector_index_columns: Vec::new(),
            text_index_columns: Vec::new(),
            bloom_filter_index_columns: Vec::new(),
        }
    }
}

impl WriteOptions {
    /// The size up to which a blob is stored inline, and the size above which it
    /// is stored by itself.
    pub fn blob_thresholds(&self) -> (thresholds: (usize, usize))
        ensures
            thresholds.0 == match self.blob_inline_size_threshold {
                Some(size) => size,
                None => DEFAULT_BLOB_INLINE_SIZE_THRESHOLD,
            },
            thresholds.1 == match self.blob_dedicated_size_threshold {
                Some(size) => size,
                None => DEFAULT_BLOB_DEDICATED_SIZE_THRESHOLD,
            },
    {
        let inline_size: usize = match self.blob_inline_size_threshold {
            Some(size) => size,
            None => DEFAULT_BLOB_INLINE_SIZE_THRESHOLD,
        };
        let dedicated_size: usize = match self.blob_dedicated_size_threshold {
            Some(size) => size,
            None => DEFAULT_BLOB_DEDICATED_SIZE_THRESHOLD,
        };
        (inline_size, dedicated_size)
    }
}

/// Whether a name is among columns.
pub open spec fn names_column(columns: Seq<String>, name: Seq<char>) -> bool {
    exists|i: int| 0 <= i < columns.len() && (#[trigger] columns[i])@ == name
}

/// Whether a column has an index.
pub open spec fn has_index(options: WriteOptions, name: Seq<char>) -> bool {
    names_column(options.scalar_index_columns@, name) || names_column(
        options.vector_index_columns@,
        name,
    ) || names_column(options.text_index_columns@, name) || names_column(
        options.bloom_filter_index_columns@,
        name,
    )
}

/// Why a column cannot hold blobs, if it cannot: it has to exist, hold texts,
/// and have no index.
pub open spec fn blob_problem(schema: Schema, options: WriteOptions, name: Seq<char>) -> Option<
    crate::error::ErrorView,
> {
    match crate::schema::field_named(schema.fields@, name) {
        None => Some(crate::error::argument_error("blob column not found: "@ + name)),
        Some(field) => if !super::lance_index::text_type(field.data_type) {
            Some(
                crate::error::argument_error(
                    "blob column '"@ + name + "' must be VARCHAR, not "@ + field.arrow_type@,
                ),
            )
        } else if has_index(options, name) {
            Some(
                crate::error::argument_error(
                    "blob column '"@ + name + "' cannot also be an index column"@,
                ),
            )
        } else {
            None
        },
    }
}

/// Why the first of the blob columns that cannot hold blobs cannot, if there is
/// one.
pub open spec fn first_blob_problem(
    schema: Schema,
    options: WriteOptions,
    columns: Seq<String>,
) -> Option<crate::error::ErrorView>
    decreases columns.len(),
{
    if columns.len() == 0 {
        None
    } else {
        match first_blob_problem(schema, options, columns.drop_last()) {
            Some(error) => Some(error),
            None => blob_problem(schema, options, columns.last()@),
        }
    }
}

fn contains_column(columns: &Vec<String>, name: &str) -> (found: bool)
    ensures
        found == names_column(columns@, name@),
{
    let mut i: usize = 0;
    while i < columns.len()
        invariant
            i <= columns@.len(),
            forall|j: int| 0 <= j < i ==> (#[trigger] columns@[j])@ != name@,
        decreases columns@.len() - i,
    {
        if same_text(columns[i].as_str(), name) {
            assert(columns@[i as int]@ == name@);
            return true;
        }
        i += 1;
    }
    false
}

proof fn lemma_blob_problem_stays(
    schema: Schema,
    options: WriteOptions,
    columns: Seq<String>,
    end: int,
)
    requires
        0 <= end <= columns.len(),
        first_blob_problem(schema, options, columns.take(end)) is Some,
    ensures
        first_blob_problem(schema, options, columns) == first_blob_problem(
            schema,
            options,
            columns.take(end),
        ),
    decreases columns.len() - end,
{
    if end < columns.len() {
        assert(columns.take(end + 1).drop_last() == columns.take(end));
        lemma_blob_problem_stays(schema, options, columns, end + 1);
    } else {
        assert(columns.take(end) == columns);
    }
}

/// Checks one blob column.
fn validate_blob_column(schema: &Schema, options: &WriteOptions, name: &str) -> (valid: Result<()>)
    ensures
        match valid {
            Ok(_) => blob_problem(*schema, *options, name@) is None,
            Err(error) => blob_problem(*schema, *options, name@) == Some(error@),
        },
{
    let field = match schema.field_with_name(name) {
        Some(field) => field,
        None => {
            let mut message = "blob column not found: ".to_owned();
            message.append(name);
            return Err(Error::invalid_argument(message, at("src/sink/lance.rs", 223, 24)));
        },
    };
    if !supports_text_index(&field.data_type) {
        let mut message = "blob column '".to_owned();
        message.append(name);
        message.append("' must be VARCHAR, not ");
        message.append(field.arrow_type.as_str());
        return Err(Error::invalid_argument(message, at("src/sink/lance.rs", 231, 20)));
    }
    if contains_column(&options.scalar_index_columns, name) || contains_column(
        &options.vector_index_columns,
        name,
    ) || contains_column(&options.text_index_columns, name) || contains_column(
        &options.bloom_filter_index_columns,
        name,
    ) {
        let mut message = "blob column '".to_owned();
        message.append(name);
        message.append("' cannot also be an index column");
        return Err(Error::invalid_argument(message, at("src/sink/lance.rs", 243, 20)));
    }
    Ok(())
}

/// Checks that the blob columns exist, hold texts, and have no index.
pub fn validate_blob_columns(schema: &Schema, options: &WriteOptions) -> (valid: Result<()>)
    ensures
        match valid {
            Ok(_) => first_blob_problem(*schema, *options, options.blob_columns@) is None,
            Err(error) => first_blob_problem(*schema, *options, options.blob_columns@) == Some(
                error@,
            ),
        },
{
    let columns = &options.blob_columns;
    let mut i: usize = 0;
    assert(columns@.take(0) =~= Seq::empty());
    while i < columns.len()
        invariant
            i <= columns@.len(),
            columns@ == options.blob_columns@,
            first_blob_problem(*schema, *options, columns@.take(i as int)) is None,
        decreases columns@.len() - i,
    {
        assert(columns@.take(i + 1).drop_last() == columns@.take(i as int));
        match validate_blob_column(schema, options, columns[i].as_str()) {
            Ok(_) => {},
            Err(error) => {
                proof {
                    lemma_blob_problem_stays(*schema, *options, columns@, i + 1);
                }
                return Err(error);
            },
        }
        i += 1;
    }
    assert(columns@.take(i as int) == columns@);
    Ok(())
}

/// Why a write cannot begin, if it cannot.
pub open spec fn write_problem(schema: Schema, options: WriteOptions) -> Option<
    crate::error::ErrorView,
> {
    match crate::schema::schema_problem(schema) {
        Some(error) => Some(error),
        None => match first_blob_problem(schema, options, options.blob_columns@) {
            Some(error) => Some(error),
            None => super::lance_index::plan_problem(
                schema,
                super::lance_index::requested_indexes(options),
            ),
        },
    }
}

/// Checks a write before any data is written, and plans its indexes.
pub fn plan_write(schema: &Schema, options: &WriteOptions) -> (plan: Result<LanceIndexPlan>)
    ensures
        match plan {
            Ok(plan) => {
                &&& write_problem(*schema, *options) is None
                &&& plan@.to_multiset() == super::lance_index::requested_indexes(
                    *options,
                ).to_multiset()
                &&& crate::order::sorted_by_name(plan@)
            },
            Err(error) => write_problem(*schema, *options) == Some(error@),
        },
{
    match validate_schema(schema) {
        Ok(_) => {},
        Err(error) => {
            return Err(error);
        },
    }
    match validate_blob_columns(schema, options) {
        Ok(_) => {},
        Err(error) => {
            return Err(error);
        },
    }
    LanceIndexPlan::new(schema, options)
}

/// The path of a destination, which has to be a text.
pub fn destination_text(path: Option<String>) -> (text: Result<String>)
    ensures
        match path {
            Some(path) => text == Result::<String>::Ok(path),
            None => text matches Err(error) && error@ == crate::error::internal_error(
                "destination must be valid UTF-8"@,
            ),
        },
{
    match path {
        Some(path) => Ok(path),
        None => Err(Error::message(
            "destination must be valid UTF-8".to_owned(),
            at("src/sink/lance.rs", 341, 21),
        )),
    }
}

/// What a write is called in errors.
pub open spec fn mode_context(mode: WriteMode) -> Seq<char> {
    match mode {
        WriteMode::Create => "creating Lance dataset"@,
        WriteMode::Append => "APPEND requires an existing valid Lance dataset"@,
        WriteMode::Overwrite => "OVERWRITE requires an existing valid Lance dataset"@,
    }
}

/// Checks the destination of a write, and gives what the write is called in
/// errors.
pub fn write_context(destination: &OpendalStorage, mode: WriteMode) -> (context: Result<&'static str>)
    ensures
        match context {
            Ok(context) => destination@.object_path.len() > 0 && context@ == mode_context(mode),
            Err(error) => destination@.object_path.len() == 0 && error@
                == crate::error::internal_error("Lance destination must not be a storage root"@),
        },
{
    if destination.is_root() {
        return Err(Error::message(
            "Lance destination must not be a storage root".to_owned(),
            at("src/sink/lance.rs", 368, 20),
        ));
    }
    Ok(
        match mode {
            WriteMode::Create => "creating Lance dataset",
            WriteMode::Append => "APPEND requires an existing valid Lance dataset",
            WriteMode::Overwrite => "OVERWRITE requires an existing valid Lance dataset",
        },
    )
}

/// Checks that a batch has the schema of the conversion.
pub fn check_batch(schema_matches: bool) -> (checked: Result<()>)
    ensures
        match checked {
            Ok(_) => schema_matches,
            Err(error) => !schema_matches && error@ == crate::error::internal_error(
                "batch schema does not match the conversion schema"@,
            ),
        },
{
    if schema_matches {
        Ok(())
    } else {
        Err(Error::message(
            "batch schema does not match the conversion schema".to_owned(),
            at("src/sink/lance.rs", 395, 13),
        ))
    }
}

/// What arrives on the way from the producer to the dataset.
#[derive(Clone, Copy, Debug, PartialEq, Eq, Structural)]
pub enum Received {
    /// A batch of this many rows.
    Batch(usize),
    /// The producer is done.
    Finish,
    /// The producer is gone.
    Closed,
}

/// What the dataset is given.
#[derive(Debug)]
pub enum StreamStep {
    /// The batch that arrived.
    Batch,
    /// The end of the batches.
    End,
    /// The write has to fail for this reason.
    Fail(String),
}

/// What is handed on for what arrives, as mathematical values.
pub enum StreamStepView {
    Batch,
    End,
    Fail(Seq<char>),
}

impl View for StreamStep {
    type V = StreamStepView;

    open spec fn view(&self) -> StreamStepView {
        match self {
            StreamStep::Batch => StreamStepView::Batch,
            StreamStep::End => StreamStepView::End,
            StreamStep::Fail(reason) => StreamStepView::Fail(reason@),
        }
    }
}

/// What is handed on for what arrives. A producer that is gone without being
/// done is a failure, not the end.
pub open spec fn step_for(received: Received) -> StreamStepView {
    match received {
        Received::Batch(_) => StreamStepView::Batch,
        Received::Finish => StreamStepView::End,
        Received::Closed => StreamStepView::Fail("conversion aborted before finish"@),
    }
}

/// What is handed on for what arrives. A producer that is gone without being
/// done is a failure, not the end.
pub fn stream_step(received: Received) -> (step: StreamStep)
    ensures
        step@ == step_for(received),
{
    match received {
        Received::Batch(_) => StreamStep::Batch,
        Received::Finish => StreamStep::End,
        Received::Closed => StreamStep::Fail("conversion aborted before finish".to_owned()),
    }
}

/// The rows of what arrives.
pub open spec fn rows_in(received: Received) -> nat {
    match received {
        Received::Batch(rows) => rows as nat,
        _ => 0,
    }
}

/// How many rows are handed on before the end; nothing where the end never
/// comes.
pub open spec fn rows_before_end(arrivals: Seq<Received>) -> Option<nat>
    decreases arrivals.len(),
{
    if arrivals.len() == 0 {
        None
    } else {
        match step_for(arrivals[0]) {
            StreamStepView::Fail(_) => None,
            StreamStepView::End => Some(0),
            StreamStepView::Batch => match rows_before_end(arrivals.skip(1)) {
                Some(more) => Some(rows_in(arrivals[0]) + more),
                None => None,
            },
        }
    }
}

/// A stream comes to its end only where the producer says that it is done:
/// losing the producer never makes part of the input look like all of it.
pub proof fn law_lost_producer_is_no_end(arrivals: Seq<Received>)
    ensures
        rows_before_end(arrivals) is Some <==> exists|i: int|
            0 <= i < arrivals.len() && arrivals[i] == Received::Finish && forall|j: int|
                0 <= j < i ==> (#[trigger] arrivals[j]) is Batch,
    decreases arrivals.len(),
{
    if arrivals.len() > 0 {
        let rest = arrivals.skip(1);
        law_lost_producer_is_no_end(rest);
        if rows_before_end(arrivals) is Some {
            if arrivals[0] == Received::Finish {
                assert(arrivals[0] == Received::Finish && forall|j: int|
                    0 <= j < 0 ==> (#[trigger] arrivals[j]) is Batch);
            } else {
                let i = choose|i: int|
                    0 <= i < rest.len() && rest[i] == Received::Finish && forall|j: int|
                        0 <= j < i ==> (#[trigger] rest[j]) is Batch;
                assert(arrivals[i + 1] == Received::Finish);
                assert forall|j: int| 0 <= j < i + 1 implies (#[trigger] arrivals[j]) is Batch by {
                    if j > 0 {
                        assert(rest[j - 1] is Batch);
                    }
                }
            }
        }
        if exists|i: int|
            0 <= i < arrivals.len() && arrivals[i] == Received::Finish && forall|j: int|
                0 <= j < i ==> (#[trigger] arrivals[j]) is Batch {
            let i = choose|i: int|
                0 <= i < arrivals.len() && arrivals[i] == Received::Finish && forall|j: int|
                    0 <= j < i ==> (#[trigger] arrivals[j]) is Batch;
            if i > 0 {
                assert(arrivals[0] is Batch);
                assert(rest[i - 1] == Received::Finish);
                assert forall|j: int| 0 <= j < i - 1 implies (#[trigger] rest[j]) is Batch by {
                    assert(arrivals[j + 1] is Batch);
                }
            }
        }
    }
}

/// Counts the rows of a batch. The count starts over when it is full.
pub fn count_rows(rows_written: u64, batch_rows: usize) -> (count: u64)
    ensures
        count == rows_written.wrapping_add(batch_rows as u64),
{
    rows_written.wrapping_add(batch_rows as u64)
}

/// What a write comes to, from how writing the dataset ended and the rows that
/// were counted. `None` stands for a panic.
pub fn write_outcome(written: Option<Result<()>>, rows_written: u64) -> (outcome: Result<
    WriteSummary,
>)
    ensures
        match written {
            None => outcome matches Err(error) && error@ == crate::error::internal_error(
                "Lance writer task panicked"@,
            ),
            Some(Err(error)) => outcome == Result::<WriteSummary>::Err(error),
            Some(Ok(_)) => outcome == Result::<WriteSummary>::Ok(WriteSummary { rows_written }),
        },
{
    match written {
        None => Err(Error::message(
            "Lance writer task panicked".to_owned(),
            at("src/sink/lance.rs", 561, 21),
        )),
        Some(Err(error)) => Err(error),
        Some(Ok(_)) => Ok(WriteSummary { rows_written }),
    }
}

/// How far a writer is.
#[derive(Clone, Copy, Debug, PartialEq, Eq, Structural)]
pub enum WriterState {
    /// It takes batches.
    Open,
    /// It takes no more batches, and its worker is still to be waited for.
    Closing,
    /// The dataset is written.
    Finished,
    /// The dataset is not written.
    Failed,
}

/// What to do with a batch.
#[derive(Clone, Copy, Debug, PartialEq, Eq, Structural)]
pub enum BatchAction {
    /// Send it to the worker.
    Send,
    /// Close the input and wait for the worker.
    Abort,
}

/// The state of a writer that pushes batches to a worker.
#[derive(Debug)]
pub struct LanceWriter {
    state: WriterState,
}

/// What happens to a writer.
pub enum WriterEvent {
    /// A batch comes, and has the schema of the conversion or another.
    Batch { schema_matches: bool },
    /// The worker did not take a batch, and was waited for.
    Refused,
    /// The end comes, was sent or was not taken, and the worker wrote the
    /// dataset or failed.
    Finish { sent: bool, written: bool },
    /// The write is given up.
    Abort,
    /// The worker was waited for.
    Joined,
}

/// The state of a writer behind an event.
pub open spec fn next_state(state: WriterState, event: WriterEvent) -> WriterState {
    match event {
        WriterEvent::Batch { schema_matches } => if schema_matches {
            state
        } else {
            closed(state)
        },
        WriterEvent::Refused => joined_state(closed(state)),
        WriterEvent::Finish { sent, written } => if state != WriterState::Open {
            state
        } else if sent && written {
            WriterState::Finished
        } else {
            WriterState::Failed
        },
        WriterEvent::Abort => closed(state),
        WriterEvent::Joined => joined_state(state),
    }
}

/// The state once the worker was waited for.
pub open spec fn joined_state(state: WriterState) -> WriterState {
    if state == WriterState::Closing {
        WriterState::Failed
    } else {
        state
    }
}

/// The state of a writer behind events.
pub open spec fn state_after(events: Seq<WriterEvent>) -> WriterState
    decreases events.len(),
{
    if events.len() == 0 {
        WriterState::Open
    } else {
        next_state(state_after(events.drop_last()), events.last())
    }
}

/// A writer that is finished or has failed stays so, and one that takes no
/// batches never takes any again.
pub proof fn law_done_is_final(state: WriterState, event: WriterEvent)
    ensures
        state == WriterState::Finished || state == WriterState::Failed ==> next_state(state, event)
            == state,
        state != WriterState::Open ==> next_state(state, event) != WriterState::Open,
{
}

/// A writer is finished only where the end was sent and the worker wrote the
/// dataset, and nothing closed the input before.
pub proof fn law_finished_means_written(events: Seq<WriterEvent>)
    requires
        state_after(events) == WriterState::Finished,
    ensures
        exists|i: int|
            0 <= i < events.len() && #[trigger] events[i] == (WriterEvent::Finish {
                sent: true,
                written: true,
            }) && state_after(events.take(i)) == WriterState::Open,
    decreases events.len(),
{
    let before = events.drop_last();
    let last = events.len() - 1;
    if state_after(before) == WriterState::Finished {
        law_finished_means_written(before);
        let i = choose|i: int|
            0 <= i < before.len() && #[trigger] before[i] == (WriterEvent::Finish {
                sent: true,
                written: true,
            }) && state_after(before.take(i)) == WriterState::Open;
        assert(before.take(i) =~= events.take(i));
        assert(events[i] == (WriterEvent::Finish { sent: true, written: true }));
    } else {
        assert(events.take(last) =~= before);
        assert(events[last] == (WriterEvent::Finish { sent: true, written: true }));
    }
}

/// The error for a writer that takes nothing any more.
pub open spec fn done_error() -> crate::error::ErrorView {
    crate::error::internal_error("writer is already finished or failed"@)
}

/// The state once the input is closed.
pub open spec fn closed(state: WriterState) -> WriterState {
    if state == WriterState::Open {
        WriterState::Closing
    } else {
        state
    }
}

/// What a worker that was waited for has to say. An error of waiting is given by
/// its text.
pub type Joined = std::result::Result<Result<WriteSummary>, String>;

/// What a worker that was waited for comes to.
pub open spec fn tells_joined(outcome: Result<WriteSummary>, joined: Joined) -> bool {
    match joined {
        Ok(result) => outcome == result,
        Err(message) => outcome matches Err(error) && error@ == crate::error::in_context(
            crate::error::caused_error(
                crate::error::ErrorKind::Task,
                "async task error"@,
                crate::error_struct::ErrorStatus::Permanent,
                message@,
            ),
            "Lance writer task failed"@,
        ),
    }
}

impl LanceWriter {
    /// How far the writer is.
    pub closed spec fn state(self) -> WriterState {
        self.state
    }

    /// A writer that takes batches.
    pub fn open() -> (writer: Self)
        ensures
            writer.state() == WriterState::Open,
    {
        LanceWriter { state: WriterState::Open }
    }

    pub fn current_state(&self) -> (state: WriterState)
        ensures
            state == self.state(),
    {
        self.state
    }

    /// Decides on a batch. A batch of another schema ends the write.
    pub fn write_batch(&mut self, schema_matches: bool) -> (action: Result<BatchAction>)
        ensures
            final(self).state() == next_state(
                old(self).state(),
                WriterEvent::Batch { schema_matches },
            ),
            match action {
                Ok(BatchAction::Send) => old(self).state() == WriterState::Open && schema_matches,
                Ok(BatchAction::Abort) => old(self).state() == WriterState::Open && !schema_matches,
                Err(error) => old(self).state() != WriterState::Open && error@ == done_error(),
            },
    {
        match self.state {
            WriterState::Open => {},
            _ => {
                return Err(Error::message(
                    "writer is already finished or failed".to_owned(),
                    at("src/sink/lance.rs", 765, 28),
                ));
            },
        }
        if schema_matches {
            Ok(BatchAction::Send)
        } else {
            self.close_input();
            Ok(BatchAction::Abort)
        }
    }

    /// Ends the handling of a batch that the worker did not take: the input is
    /// closed, the worker was waited for, and its error is passed on.
    pub fn batch_refused(&mut self, joined: Joined) -> (error: Error)
        ensures
            final(self).state() == next_state(old(self).state(), WriterEvent::Refused),
            closed(old(self).state()) == WriterState::Closing ==> match joined {
                Ok(Ok(_)) => error@ == crate::error::internal_error(
                    "Lance writer stopped before accepting a batch"@,
                ),
                _ => tells_joined(Err(error), joined),
            },
            closed(old(self).state()) != WriterState::Closing ==> error@
                == crate::error::internal_error("writer is closed"@),
    {
        self.close_input();
        match self.join_worker(joined) {
            Ok(_) => Error::message(
                "Lance writer stopped before accepting a batch".to_owned(),
                at("src/sink/lance.rs", 795, 22),
            ),
            Err(error) => error,
        }
    }

    /// Begins to finish: whether the end can be sent to the worker.
    pub fn begin_finish(&self) -> (open: Result<()>)
        ensures
            match open {
                Ok(_) => self.state() == WriterState::Open,
                Err(error) => self.state() != WriterState::Open && error@ == done_error(),
            },
    {
        match self.state {
            WriterState::Open => Ok(()),
            _ => Err(Error::message(
                "writer is already finished or failed".to_owned(),
                at("src/sink/lance.rs", 813, 22),
            )),
        }
    }

    /// Finishes, once the end was sent, or was not taken, and the worker was
    /// waited for.
    pub fn finish(&mut self, sent: bool, joined: Joined) -> (summary: Result<WriteSummary>)
        ensures
            final(self).state() == next_state(
                old(self).state(),
                WriterEvent::Finish { sent, written: joined matches Ok(Ok(_)) },
            ),
            old(self).state() != WriterState::Open ==> (summary matches Err(error) && error@
                == done_error()),
            old(self).state() == WriterState::Open ==> match joined {
                Ok(Ok(written)) => if sent {
                    summary == Result::<WriteSummary>::Ok(written)
                } else {
                    summary matches Err(error) && error@ == crate::error::internal_error(
                        "Lance writer stopped before finish"@,
                    )
                },
                _ => tells_joined(summary, joined),
            },
    {
        match self.begin_finish() {
            Ok(_) => {},
            Err(error) => {
                return Err(error);
            },
        }
        self.close_input();
        let summary = match self.join_worker(joined) {
            Ok(summary) => summary,
            Err(error) => {
                return Err(error);
            },
        };
        if !sent {
            return Err(Error::message(
                "Lance writer stopped before finish".to_owned(),
                at("src/sink/lance.rs", 855, 24),
            ));
        }
        self.state = WriterState::Finished;
        Ok(summary)
    }

    /// Gives the write up. The result tells whether the worker is to be waited
    /// for.
    pub fn abort(&mut self) -> (wait: bool)
        ensures
            final(self).state() == next_state(old(self).state(), WriterEvent::Abort),
            wait == (final(self).state() == WriterState::Closing),
    {
        self.close_input();
        match self.state {
            WriterState::Closing => true,
            _ => false,
        }
    }

    fn close_input(&mut self)
        ensures
            final(self).state() == closed(old(self).state()),
    {
        match self.state {
            WriterState::Open => {
                self.state = WriterState::Closing;
            },
            _ => {},
        }
    }

    /// Takes note of a worker that was waited for.
    pub fn join_worker(&mut self, joined: Joined) -> (summary: Result<WriteSummary>)
        ensures
            final(self).state() == next_state(old(self).state(), WriterEvent::Joined),
            old(self).state() == WriterState::Closing ==> tells_joined(summary, joined),
            old(self).state() != WriterState::Closing ==> (summary matches Err(error) && error@
                == crate::error::internal_error("writer is closed"@)),
    {
        match self.state {
            WriterState::Closing => {},
            _ => {
                return Err(Error::message(
                    "writer is closed".to_owned(),
                    at("src/sink/lance.rs", 901, 28),
                ));
            },
        }
        self.state = WriterState::Failed;
        match joined {
            Ok(result) => result,
            Err(message) => Err(
                Error::from_component(
                    ErrorOrigin::Task,
                    message,
                    at("src/sink/lance.rs", 911, 17),
                ).with_context(
                    "Lance writer task failed",
                ),
            ),
        }
    }
}

/// Where a write can begin, every blob column exists, holds texts, and has no
/// index.
pub proof fn law_blobs_have_no_index(schema: Schema, options: WriteOptions, at: int)
    requires
        write_problem(schema, options) is None,
        0 <= at < options.blob_columns@.len(),
    ensures
        !has_index(options, options.blob_columns@[at]@),
        crate::schema::field_named(schema.fields@, options.blob_columns@[at]@) matches Some(field)
            && super::lance_index::text_type(field.data_type),
{
    lemma_no_blob_problem(schema, options, options.blob_columns@, at);
}

proof fn lemma_no_blob_problem(
    schema: Schema,
    options: WriteOptions,
    columns: Seq<String>,
    at: int,
)
    requires
        first_blob_problem(schema, options, columns) is None,
        0 <= at < columns.len(),
    ensures
        blob_problem(schema, options, columns[at]@) is None,
    decreases columns.len(),
{
    if at < columns.len() - 1 {
        lemma_no_blob_problem(schema, options, columns.drop_last(), at);
    }
}

}
