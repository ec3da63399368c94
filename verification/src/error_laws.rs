//! What holds of errors, whatever went wrong.

use vstd::prelude::*;

use crate::error::{ErrorView, HttpFailure, IoFailure};
use crate::error_struct::{ErrorDetails, ErrorStatus};
use crate::writer::LanceSink;

verus! {

/// A context stands in front of the message, the outer before the inner, and
/// changes nothing else.
pub proof fn law_contexts_stand_in_front(error: ErrorView, inner: Seq<char>, outer: Seq<char>)
    ensures
        crate::error::in_context(error, inner).details.message == inner + seq![':', ' ']
            + error.details.message,
        crate::error::in_context(
            crate::error::in_context(error, inner),
            outer,
        ).details.message == outer + seq![':', ' '] + inner + seq![':', ' ']
            + error.details.message,
        crate::error::in_context(error, inner).kind == error.kind,
        crate::error::in_context(error, inner).details.status == error.details.status,
        crate::error::in_context(error, inner).details.source == error.details.source,
        crate::error::in_context(error, inner).details.placed == error.details.placed,
{
    reveal_strlit(": ");
    assert(": "@ =~= seq![':', ' ']);
    assert(outer + ": "@ + (inner + ": "@ + error.details.message) =~= outer + ": "@ + inner + ": "@
        + error.details.message);
}

/// An error in words starts with its message and says whether a retry may help.
/// The place follows, and then the cause, where they are known.
pub proof fn law_errors_tell_all_they_know(
    message: Seq<char>,
    status: ErrorStatus,
    place: Seq<char>,
    source: Seq<char>,
    placed: bool,
)
    ensures
        ({
            let bare = ErrorDetails { message, status, source: None, placed };
            let caused = ErrorDetails { source: Some(source), ..bare };
            let words = crate::error_struct::details_text(bare, None);
            &&& words == message + " ("@ + match status {
                ErrorStatus::Temporary => "temporary"@,
                ErrorStatus::Permanent => "permanent"@,
            } + ")"@
            &&& crate::error_struct::details_text(bare, Some(place)) == words + " at "@ + place
            &&& crate::error_struct::details_text(caused, None) == words + ", caused by: "@
                + source
            &&& crate::error_struct::details_text(caused, Some(place)) == words + " at "@ + place
                + ", caused by: "@ + source
        }),
{
}

/// A failed request is worth a retry where no connection was made, where it timed
/// out, where the server failed, or where it asked to slow down.
pub proof fn law_requests_are_worth_a_retry(failure: HttpFailure, code: u16)
    ensures
        failure.connect ==> crate::error::http_status(failure) == ErrorStatus::Temporary,
        failure.timeout ==> crate::error::http_status(failure) == ErrorStatus::Temporary,
        !failure.connect && !failure.timeout ==> {
            &&& failure.status is None ==> crate::error::http_status(failure)
                == ErrorStatus::Permanent
            &&& failure.status == Some(code) ==> (crate::error::http_status(failure)
                == ErrorStatus::Temporary <==> code / 100 == 5 || code == 429)
        },
{
}

/// A failed operation is worth a retry where it was interrupted, would have
/// blocked or timed out, and only there.
pub proof fn law_operations_are_worth_a_retry(failure: IoFailure)
    ensures
        crate::error::io_status(failure) == ErrorStatus::Temporary <==> failure is Interrupted
            || failure is WouldBlock || failure is TimedOut,
        crate::error::io_status(failure) == ErrorStatus::Permanent <==> failure is Other,
{
}

/// A bad argument and an inner failure are permanent and have no cause.
pub proof fn law_own_errors_are_permanent(message: Seq<char>)
    ensures
        crate::error::argument_error(message).kind == crate::error::ErrorKind::InvalidArgument,
        crate::error::internal_error(message).kind == crate::error::ErrorKind::Internal,
        crate::error::argument_error(message).details.status == ErrorStatus::Permanent,
        crate::error::internal_error(message).details.status == ErrorStatus::Permanent,
        crate::error::argument_error(message).details.source is None,
        crate::error::internal_error(message).details.source is None,
        crate::error::argument_error(message).details.message == message,
        crate::error::internal_error(message).details.message == message,
{
}

/// A path names a local dataset where its last part is a name and no `://` stands
/// in it. A path with `://` never does.
pub proof fn law_destinations_are_local(directory: Seq<char>, name: Seq<char>)
    requires
        crate::text_laws::is_file_name(name),
    ensures
        crate::text::has_scheme_separator(directory.push('/') + name)
            <==> crate::writer::destination_problem(directory.push('/') + name) is Some,
        !crate::text::has_scheme_separator(name) ==> crate::writer::destination_problem(name) is None,
        crate::writer::destination_problem(directory + seq![':', '/', '/'] + name) is Some,
        crate::writer::destination_problem(directory.push('/').push('.').push('.')) is Some,
        crate::writer::destination_problem(Seq::empty()) is Some,
{
    crate::text_laws::law_file_name_is_the_last_part(directory, name);
    crate::text_laws::law_path_ends_are_normal(directory);
    let remote = directory + seq![':', '/', '/'] + name;
    crate::text_laws::law_scheme_is_separated(remote);
    assert(crate::text_laws::separated(remote, directory, name));
}

/// A sink takes rows while it is open and neither committed nor failed.
pub proof fn law_sinks_take_rows_while_open(sink: LanceSink)
    ensures
        crate::writer::sink_problem(sink) is None <==> sink.open && !sink.committed && !sink.failed,
{
}

}
