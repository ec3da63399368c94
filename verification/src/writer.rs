//! Writes of datasets in local directories.

use vstd::prelude::*;

use crate::error::{Error, ErrorOrigin, IoFailure, Result};
use crate::error_struct::at;
use crate::sink::WriteSummary;
use crate::text::{contains_scheme_separator, file_name};

verus! {

/// Why a path names no local dataset, if it does not.
pub open spec fn destination_problem(path: Seq<char>) -> Option<Seq<char>> {
    if crate::text::has_scheme_separator(path) {
        Some("only local Lance destinations are supported"@)
    } else if crate::text::file_name_of(path) is None {
        Some("destination must name a new dataset directory"@)
    } else {
        None
    }
}

/// The name of a dataset directory.
pub fn destination_name(path: &str) -> (name: Result<String>)
    ensures
        match name {
            Ok(name) => destination_problem(path@) is None && crate::text::file_name_of(path@)
                == Some(name@),
            Err(error) => destination_problem(path@) matches Some(message) && error@
                == crate::error::internal_error(message),
        },
{
    if contains_scheme_separator(path) {
        return Err(Error::message(
            "only local Lance destinations are supported".to_owned(),
            at("src/writer.rs", 34, 20),
        ));
    }
    match file_name(path) {
        Some(name) => Ok(name),
        None => Err(Error::message(
            "destination must name a new dataset directory".to_owned(),
            at("src/writer.rs", 41, 21),
        )),
    }
}

/// How the attempt to make a directory ended.
#[derive(Debug)]
pub enum Reservation {
    /// The directory is new.
    Created,
    /// Something is there: a directory, or something else.
    Occupied { is_directory: bool, message: String },
    /// The directory cannot be made.
    Refused { failure: IoFailure, message: String },
}

/// The error for a directory that could not be made.
pub open spec fn reservation_error(
    destination: Seq<char>,
    failure: IoFailure,
    message: Seq<char>,
) -> crate::error::ErrorView {
    crate::error::in_context(
        crate::error::caused_error(
            crate::error::ErrorKind::Io,
            "I/O error"@,
            crate::error::io_status(failure),
            message,
        ),
        "creating destination "@ + destination
            + " (must not exist unless OVERWRITE is enabled)"@,
    )
}

/// The error for a directory that could not be made.
fn refuse_reservation(destination: &str, failure: IoFailure, message: String) -> (error: Error)
    ensures
        error@ == reservation_error(destination@, failure, message@),
{
    let mut context = "creating destination ".to_owned();
    context.append(destination);
    context.append(" (must not exist unless OVERWRITE is enabled)");
    Error::from_io(failure, message, at("src/writer.rs", 85, 5)).with_context(context.as_str())
}

/// Whether the destination is owned by the write, or nothing where the write
/// cannot begin.
pub open spec fn owns(overwrite: bool, reservation: Reservation) -> Option<bool> {
    match reservation {
        Reservation::Created => Some(true),
        Reservation::Occupied { is_directory, .. } => if overwrite && is_directory {
            Some(false)
        } else {
            None
        },
        Reservation::Refused { .. } => None,
    }
}

/// Whether the directory is removed behind a write.
pub open spec fn is_removed(failed: bool, owned: bool) -> bool {
    failed && owned
}

/// A directory that was there is never removed, however the write ends. One that
/// the write made is removed where the write fails.
pub proof fn law_only_own_directories_are_removed(
    overwrite: bool,
    reservation: Reservation,
    failed: bool,
    owned: bool,
)
    requires
        owns(overwrite, reservation) == Some(owned),
    ensures
        is_removed(failed, owned) ==> reservation is Created && failed,
        reservation is Created && failed ==> is_removed(failed, owned),
        reservation matches Reservation::Occupied { is_directory, .. } ==> overwrite && is_directory,
{
}

/// A write begins in a directory that is new, or in one that is there and may be
/// overwritten, and nowhere else.
pub proof fn law_writes_begin_in_directories(overwrite: bool, reservation: Reservation)
    ensures
        reservation is Created ==> owns(overwrite, reservation) == Some(true),
        reservation matches Reservation::Occupied { is_directory, .. } ==> (owns(
            overwrite,
            reservation,
        ) is Some <==> overwrite && is_directory),
        reservation is Refused ==> owns(overwrite, reservation) is None,
{
}

/// Whether the destination is owned by the write: it is where the write made the
/// directory. A directory that is there can be overwritten, but stays its
/// owner's.
pub fn reserve_destination(destination: &str, overwrite: bool, reservation: Reservation) -> (owned:
    Result<bool>)
    ensures
        match reservation {
            Reservation::Created => owned == Result::<bool>::Ok(true),
            Reservation::Occupied { is_directory, message } => if !overwrite {
                owned matches Err(error) && error@ == reservation_error(
                    destination@,
                    IoFailure::Other,
                    message@,
                )
            } else if is_directory {
                owned == Result::<bool>::Ok(false)
            } else {
                owned matches Err(error) && error@ == crate::error::internal_error(
                    "overwrite requires an existing Lance dataset directory"@,
                )
            },
            Reservation::Refused { failure, message } => owned matches Err(error) && error@
                == reservation_error(destination@, failure, message@),
        },
        match owned {
            Ok(owned) => owns(overwrite, reservation) == Some(owned),
            Err(_) => owns(overwrite, reservation) is None,
        },
{
    match reservation {
        Reservation::Created => Ok(true),
        Reservation::Occupied { is_directory, message } => {
            if !overwrite {
                Err(refuse_reservation(destination, IoFailure::Other, message))
            } else if is_directory {
                Ok(false)
            } else {
                Err(
                    Error::message(
                        "overwrite requires an existing Lance dataset directory".to_owned(),
                        at("src/writer.rs", 175, 21),
                    ),
                )
            }
        },
        Reservation::Refused { failure, message } => Err(
            refuse_reservation(destination, failure, message),
        ),
    }
}

/// Whether the directory is removed behind a write: only where the write failed
/// and made the directory itself.
pub fn removes_destination(failed: bool, owned: bool) -> (removes: bool)
    ensures
        removes == (failed && owned),
        removes == is_removed(failed, owned),
{
    failed && owned
}

/// The progress of a write that counts the rows it hands on.
#[derive(Clone, Copy, Debug, PartialEq, Eq, Structural)]
pub struct LanceSink {
    pub open: bool,
    pub rows_written: u64,
    pub committed: bool,
    pub failed: bool,
}

/// Why a sink takes nothing, if it does not.
pub open spec fn sink_problem(sink: LanceSink) -> Option<Seq<char>> {
    if sink.committed || sink.failed {
        Some("writer is already finished or failed"@)
    } else if !sink.open {
        Some("writer is closed"@)
    } else {
        None
    }
}

/// What happens to a sink.
pub enum SinkEvent {
    /// A batch comes, and has the schema of the conversion or another.
    Batch { schema_matches: bool },
    /// A batch of this many rows was sent.
    Sent { rows: u64 },
    /// The worker did not take a batch, and was waited for.
    Refused,
    /// The end comes, was sent or was not taken, and the worker wrote the
    /// dataset or failed.
    Finish { sent: bool, written: bool },
}

/// A sink behind an event.
pub open spec fn next_sink(sink: LanceSink, event: SinkEvent) -> LanceSink {
    match event {
        SinkEvent::Batch { schema_matches } => if sink.committed || sink.failed || schema_matches {
            sink
        } else {
            LanceSink { open: false, failed: true, ..sink }
        },
        SinkEvent::Sent { rows } => LanceSink {
            rows_written: (sink.rows_written + rows) as u64,
            ..sink
        },
        SinkEvent::Refused => LanceSink { open: false, failed: true, ..sink },
        SinkEvent::Finish { sent, written } => if sink_problem(sink) is Some {
            sink
        } else if !written {
            LanceSink { open: false, failed: true, ..sink }
        } else {
            LanceSink { open: false, committed: sent, ..sink }
        },
    }
}

/// A sink behind events.
pub open spec fn sink_after(sink: LanceSink, events: Seq<SinkEvent>) -> LanceSink
    decreases events.len(),
{
    if events.len() == 0 {
        sink
    } else {
        next_sink(sink_after(sink, events.drop_last()), events.last())
    }
}

/// The rows of an event.
pub open spec fn sent_rows(event: SinkEvent) -> nat {
    match event {
        SinkEvent::Sent { rows } => rows as nat,
        _ => 0,
    }
}

/// The rows of events.
pub open spec fn all_sent_rows(events: Seq<SinkEvent>) -> nat {
    events.map_values(|event: SinkEvent| sent_rows(event)).fold_left(
        0nat,
        |sum: nat, rows: nat| sum + rows,
    )
}

/// A sink counts the rows that were sent, and no others.
pub proof fn law_sent_rows_are_counted(sink: LanceSink, events: Seq<SinkEvent>)
    requires
        sink.rows_written + all_sent_rows(events) <= u64::MAX,
    ensures
        sink_after(sink, events).rows_written == sink.rows_written + all_sent_rows(events),
    decreases events.len(),
{
    let rows = events.map_values(|event: SinkEvent| sent_rows(event));
    if events.len() > 0 {
        let shorter = events.drop_last();
        assert(rows.drop_last() =~= shorter.map_values(|event: SinkEvent| sent_rows(event)));
        assert(rows.last() == sent_rows(events.last()));
        law_sent_rows_are_counted(sink, shorter);
    }
}

/// A sink is committed only by an end that was sent and a worker that wrote the
/// dataset, while it was open and had not failed. Then it stays committed.
pub proof fn law_committed_means_written(sink: LanceSink, event: SinkEvent)
    ensures
        sink.committed ==> next_sink(sink, event).committed,
        !sink.committed && next_sink(sink, event).committed ==> sink.open && !sink.failed && event
            == (SinkEvent::Finish { sent: true, written: true }),
        sink.open && !sink.failed && !sink.committed ==> next_sink(
            sink,
            SinkEvent::Finish { sent: true, written: true },
        ).committed,
{
}

/// A sink that failed stays so, and one that is closed never opens again. A batch
/// of another schema fails it, one that is not taken does too, and so does a
/// worker that failed.
pub proof fn law_failures_are_final(sink: LanceSink, event: SinkEvent)
    ensures
        sink.failed ==> next_sink(sink, event).failed,
        !sink.open ==> !next_sink(sink, event).open,
        next_sink(sink, SinkEvent::Refused).failed,
        sink_problem(sink) is None ==> {
            &&& next_sink(sink, SinkEvent::Batch { schema_matches: false }).failed
            &&& next_sink(sink, SinkEvent::Batch { schema_matches: true }) == sink
            &&& next_sink(sink, SinkEvent::Finish { sent: true, written: false }).failed
            &&& !next_sink(sink, SinkEvent::Finish { sent: true, written: true }).failed
            &&& !next_sink(sink, SinkEvent::Finish { sent: true, written: true }).open
        },
{
}

/// How waiting for a worker ended: its own result, or the text of the error of
/// waiting.
pub type Waited = std::result::Result<Result<()>, String>;

/// Whether an error is that of a worker that was waited for.
pub open spec fn is_worker_error(error: crate::error::ErrorView, waited: Waited) -> bool {
    match waited {
        Ok(Ok(_)) => false,
        Ok(Err(own)) => error == own@,
        Err(message) => error == crate::error::in_context(
            crate::error::caused_error(
                crate::error::ErrorKind::Task,
                "async task error"@,
                crate::error_struct::ErrorStatus::Permanent,
                message@,
            ),
            "Lance writer task failed"@,
        ),
    }
}

/// The result of a worker that was waited for.
fn worker_result(waited: Waited) -> (result: Result<()>)
    ensures
        match result {
            Ok(_) => waited matches Ok(Ok(_)),
            Err(error) => is_worker_error(error@, waited),
        },
{
    match waited {
        Ok(result) => result,
        Err(message) => Err(
            Error::from_component(
                ErrorOrigin::Task,
                message,
                at("src/writer.rs", 362, 13),
            ).with_context(
                "Lance writer task failed",
            ),
        ),
    }
}

impl LanceSink {
    /// A sink that takes batches.
    pub fn new() -> (sink: Self)
        ensures
            sink == (LanceSink { open: true, rows_written: 0, committed: false, failed: false }),
    {
        LanceSink { open: true, rows_written: 0, committed: false, failed: false }
    }

    /// Checks a batch before it is sent. A batch of another schema fails the
    /// write.
    pub fn begin_batch(&mut self, schema_matches: bool) -> (checked: Result<()>)
        ensures
            *final(self) == next_sink(*old(self), SinkEvent::Batch { schema_matches }),
            match checked {
                Ok(_) => {
                    &&& sink_problem(*old(self)) is None && schema_matches
                    &&& *final(self) == *old(self)
                },
                Err(error) => if old(self).committed || old(self).failed {
                    &&& error@ == crate::error::internal_error(
                        "writer is already finished or failed"@,
                    )
                    &&& *final(self) == *old(self)
                } else if !schema_matches {
                    &&& error@ == crate::error::internal_error(
                        "batch schema does not match the conversion schema"@,
                    )
                    &&& *final(self) == (LanceSink { open: false, failed: true, ..*old(self) })
                } else {
                    &&& !old(self).open
                    &&& error@ == crate::error::internal_error("writer is closed"@)
                    &&& *final(self) == *old(self)
                },
            },
    {
        if self.committed || self.failed {
            return Err(Error::message(
                "writer is already finished or failed".to_owned(),
                at("src/writer.rs", 410, 24),
            ));
        }
        if !schema_matches {
            self.failed = true;
            self.open = false;
            return Err(
                Error::message(
                    "batch schema does not match the conversion schema".to_owned(),
                    at("src/writer.rs", 419, 17),
                ),
            );
        }
        if !self.open {
            return Err(Error::message(
                "writer is closed".to_owned(),
                at("src/writer.rs", 426, 24),
            ));
        }
        Ok(())
    }

    /// Counts the rows of a batch that was sent.
    pub fn batch_sent(&mut self, rows: u64)
        requires
            old(self).rows_written + rows <= u64::MAX,
        ensures
            *final(self) == (LanceSink {
                rows_written: (old(self).rows_written + rows) as u64,
                ..*old(self)
            }),
            *final(self) == next_sink(*old(self), SinkEvent::Sent { rows }),
    {
        self.rows_written = self.rows_written + rows;
    }

    /// Fails the write, once the worker did not take a batch and was waited for.
    pub fn batch_refused(&mut self, waited: Waited) -> (error: Error)
        ensures
            *final(self) == next_sink(*old(self), SinkEvent::Refused),
            *final(self) == (LanceSink { open: false, failed: true, ..*old(self) }),
            match waited {
                Ok(Ok(_)) => error@ == crate::error::internal_error(
                    "Lance writer stopped before accepting a batch"@,
                ),
                _ => is_worker_error(error@, waited),
            },
    {
        self.failed = true;
        self.open = false;
        match worker_result(waited) {
            Ok(_) => Error::message(
                "Lance writer stopped before accepting a batch".to_owned(),
                at("src/writer.rs", 463, 22),
            ),
            Err(error) => error,
        }
    }

    /// Finishes the write, once the end was sent, or was not taken, and the
    /// worker was waited for.
    pub fn finish(&mut self, sent: bool, waited: Waited) -> (summary: Result<WriteSummary>)
        ensures
            *final(self) == next_sink(
                *old(self),
                SinkEvent::Finish { sent, written: waited matches Ok(Ok(_)) },
            ),
            match sink_problem(*old(self)) {
                Some(message) => {
                    &&& summary matches Err(error) && error@ == crate::error::internal_error(
                        message,
                    )
                    &&& *final(self) == *old(self)
                },
                None => match waited {
                    Ok(Ok(_)) => if sent {
                        &&& summary == Result::<WriteSummary>::Ok(
                            WriteSummary { rows_written: old(self).rows_written },
                        )
                        &&& *final(self) == (LanceSink {
                            open: false,
                            committed: true,
                            ..*old(self)
                        })
                    } else {
                        &&& summary matches Err(error) && error@ == crate::error::internal_error(
                            "Lance writer stopped before finish"@,
                        )
                        &&& *final(self) == (LanceSink { open: false, ..*old(self) })
                    },
                    _ => {
                        &&& summary matches Err(error) && is_worker_error(error@, waited)
                        &&& *final(self) == (LanceSink { open: false, failed: true, ..*old(self) })
                    },
                },
            },
    {
        if self.committed || self.failed {
            return Err(Error::message(
                "writer is already finished or failed".to_owned(),
                at("src/writer.rs", 510, 24),
            ));
        }
        if !self.open {
            return Err(Error::message(
                "writer is closed".to_owned(),
                at("src/writer.rs", 516, 24),
            ));
        }
        self.open = false;
        match worker_result(waited) {
            Ok(_) => {},
            Err(error) => {
                self.failed = true;
                return Err(error);
            },
        }
        if !sent {
            return Err(Error::message(
                "Lance writer stopped before finish".to_owned(),
                at("src/writer.rs", 530, 24),
            ));
        }
        self.committed = true;
        Ok(WriteSummary { rows_written: self.rows_written })
    }
}

}
