//! The errors of the library.

use vstd::prelude::*;

use crate::error_struct::{ErrorStatus, ErrorStruct, Place};

verus! {

#[derive(Debug)]
pub enum Error {
    InvalidArgument(ErrorStruct),
    Internal(ErrorStruct),
    Arrow(ErrorStruct),
    Io(ErrorStruct),
    Lance(ErrorStruct),
    OpenDal(ErrorStruct),
    Parquet(ErrorStruct),
    Http(ErrorStruct),
    Task(ErrorStruct),
    Url(ErrorStruct),
    Utf8(ErrorStruct),
}

pub type Result<T> = std::result::Result<T, Error>;

/// The part of the system that an error comes from.
#[derive(Clone, Copy, Debug, PartialEq, Eq, Structural)]
pub enum ErrorKind {
    InvalidArgument,
    Internal,
    Arrow,
    Io,
    Lance,
    OpenDal,
    Parquet,
    Http,
    Task,
    Url,
    Utf8,
}

/// An error as mathematical values.
pub struct ErrorView {
    pub kind: ErrorKind,
    pub details: crate::error_struct::ErrorDetails,
}

impl View for Error {
    type V = ErrorView;

    open spec fn view(&self) -> ErrorView {
        match self {
            Error::InvalidArgument(inner) => ErrorView {
                kind: ErrorKind::InvalidArgument,
                details: inner@,
            },
            Error::Internal(inner) => ErrorView { kind: ErrorKind::Internal, details: inner@ },
            Error::Arrow(inner) => ErrorView { kind: ErrorKind::Arrow, details: inner@ },
            Error::Io(inner) => ErrorView { kind: ErrorKind::Io, details: inner@ },
            Error::Lance(inner) => ErrorView { kind: ErrorKind::Lance, details: inner@ },
            Error::OpenDal(inner) => ErrorView { kind: ErrorKind::OpenDal, details: inner@ },
            Error::Parquet(inner) => ErrorView { kind: ErrorKind::Parquet, details: inner@ },
            Error::Http(inner) => ErrorView { kind: ErrorKind::Http, details: inner@ },
            Error::Task(inner) => ErrorView { kind: ErrorKind::Task, details: inner@ },
            Error::Url(inner) => ErrorView { kind: ErrorKind::Url, details: inner@ },
            Error::Utf8(inner) => ErrorView { kind: ErrorKind::Utf8, details: inner@ },
        }
    }
}

impl Clone for Error {
    fn clone(&self) -> (copy: Self)
        ensures
            copy@ == self@,
            copy.place() == self.place(),
    {
        match self {
            Error::InvalidArgument(inner) => Error::InvalidArgument(inner.clone()),
            Error::Internal(inner) => Error::Internal(inner.clone()),
            Error::Arrow(inner) => Error::Arrow(inner.clone()),
            Error::Io(inner) => Error::Io(inner.clone()),
            Error::Lance(inner) => Error::Lance(inner.clone()),
            Error::OpenDal(inner) => Error::OpenDal(inner.clone()),
            Error::Parquet(inner) => Error::Parquet(inner.clone()),
            Error::Http(inner) => Error::Http(inner.clone()),
            Error::Task(inner) => Error::Task(inner.clone()),
            Error::Url(inner) => Error::Url(inner.clone()),
            Error::Utf8(inner) => Error::Utf8(inner.clone()),
        }
    }
}

/// A permanent error without a cause.
pub open spec fn bare_error(kind: ErrorKind, message: Seq<char>) -> ErrorView {
    ErrorView {
        kind,
        details: crate::error_struct::bare_details(message, ErrorStatus::Permanent),
    }
}

/// The error for something that went wrong inside.
pub open spec fn internal_error(message: Seq<char>) -> ErrorView {
    bare_error(ErrorKind::Internal, message)
}

/// The error for an argument that cannot be used.
pub open spec fn argument_error(message: Seq<char>) -> ErrorView {
    bare_error(ErrorKind::InvalidArgument, message)
}

/// The error for a failure that another component reported.
pub open spec fn caused_error(
    kind: ErrorKind,
    message: Seq<char>,
    status: ErrorStatus,
    source: Seq<char>,
) -> ErrorView {
    ErrorView {
        kind,
        details: crate::error_struct::ErrorDetails {
            message,
            status,
            source: Some(source),
            placed: true,
        },
    }
}

/// `error` with `context` in front of its message.
pub open spec fn in_context(error: ErrorView, context: Seq<char>) -> ErrorView {
    ErrorView {
        details: crate::error_struct::ErrorDetails {
            message: context + ": "@ + error.details.message,
            ..error.details
        },
        ..error
    }
}

/// A component whose failures are always permanent.
#[derive(Clone, Copy, Debug, PartialEq, Eq, Structural)]
pub enum ErrorOrigin {
    Arrow,
    Lance,
    Parquet,
    Task,
    Url,
    Utf8,
}

/// The kind of the errors of a component.
pub open spec fn origin_kind(origin: ErrorOrigin) -> ErrorKind {
    match origin {
        ErrorOrigin::Arrow => ErrorKind::Arrow,
        ErrorOrigin::Lance => ErrorKind::Lance,
        ErrorOrigin::Parquet => ErrorKind::Parquet,
        ErrorOrigin::Task => ErrorKind::Task,
        ErrorOrigin::Url => ErrorKind::Url,
        ErrorOrigin::Utf8 => ErrorKind::Utf8,
    }
}

/// The message of the errors of a component.
pub open spec fn origin_message(origin: ErrorOrigin) -> Seq<char> {
    match origin {
        ErrorOrigin::Arrow => "Arrow error"@,
        ErrorOrigin::Lance => "Lance error"@,
        ErrorOrigin::Parquet => "Parquet error"@,
        ErrorOrigin::Task => "async task error"@,
        ErrorOrigin::Url => "URL parse error"@,
        ErrorOrigin::Utf8 => "UTF-8 decode error"@,
    }
}

/// How an input or output operation failed.
#[derive(Clone, Copy, Debug, PartialEq, Eq, Structural)]
pub enum IoFailure {
    Interrupted,
    WouldBlock,
    TimedOut,
    Other,
}

/// What is known of a failed HTTP request.
#[derive(Clone, Copy, Debug, PartialEq, Eq, Structural)]
pub struct HttpFailure {
    pub connect: bool,
    pub timeout: bool,
    pub status: Option<u16>,
}

/// A failed request may succeed later where no connection was made, where it
/// timed out, or where the server failed (5xx) or asked to slow down (429).
pub open spec fn http_status(failure: HttpFailure) -> ErrorStatus {
    if failure.connect || failure.timeout || (failure.status matches Some(code) && (500 <= code
        < 600 || code == 429)) {
        ErrorStatus::Temporary
    } else {
        ErrorStatus::Permanent
    }
}

/// An interrupted, blocked or timed-out operation may succeed later.
pub open spec fn io_status(failure: IoFailure) -> ErrorStatus {
    match failure {
        IoFailure::Other => ErrorStatus::Permanent,
        _ => ErrorStatus::Temporary,
    }
}

impl Error {
    /// The details of the error.
    pub open spec fn details(self) -> ErrorStruct {
        match self {
            Error::InvalidArgument(inner) => inner,
            Error::Internal(inner) => inner,
            Error::Arrow(inner) => inner,
            Error::Io(inner) => inner,
            Error::Lance(inner) => inner,
            Error::OpenDal(inner) => inner,
            Error::Parquet(inner) => inner,
            Error::Http(inner) => inner,
            Error::Task(inner) => inner,
            Error::Url(inner) => inner,
            Error::Utf8(inner) => inner,
        }
    }

    /// The place that the error was raised at, as `file:line:column`.
    pub open spec fn place(self) -> Option<Seq<char>> {
        self.details().place()
    }

    /// An error for something that went wrong inside, raised at `place`.
    pub fn message(message: String, place: Place) -> (error: Self)
        ensures
            error@ == internal_error(message@),
            error.place() == Some(place@),
    {
        Error::Internal(ErrorStruct::new(message, ErrorStatus::Permanent, place))
    }

    /// An error for an argument that cannot be used, raised at `place`.
    pub fn invalid_argument(message: String, place: Place) -> (error: Self)
        ensures
            error@ == argument_error(message@),
            error.place() == Some(place@),
    {
        Error::InvalidArgument(ErrorStruct::new(message, ErrorStatus::Permanent, place))
    }

    /// Whether trying again may help.
    pub fn status(&self) -> (status: ErrorStatus)
        ensures
            status == self@.details.status,
    {
        self.inner().status
    }

    /// The details of the error.
    pub fn inner(&self) -> (inner: &ErrorStruct)
        ensures
            *inner == self.details(),
            inner@ == self@.details,
    {
        match self {
            Error::InvalidArgument(inner) => inner,
            Error::Internal(inner) => inner,
            Error::Arrow(inner) => inner,
            Error::Io(inner) => inner,
            Error::Lance(inner) => inner,
            Error::OpenDal(inner) => inner,
            Error::Parquet(inner) => inner,
            Error::Http(inner) => inner,
            Error::Task(inner) => inner,
            Error::Url(inner) => inner,
            Error::Utf8(inner) => inner,
        }
    }

    /// The details of the error, to be changed in place.
    pub fn inner_mut(&mut self) -> (inner: &mut ErrorStruct)
        ensures
            *inner == old(self).details(),
            final(self).details() == *final(inner),
            final(self)@ == (ErrorView { details: final(inner)@, ..old(self)@ }),
    {
        match self {
            Error::InvalidArgument(inner) => inner,
            Error::Internal(inner) => inner,
            Error::Arrow(inner) => inner,
            Error::Io(inner) => inner,
            Error::Lance(inner) => inner,
            Error::OpenDal(inner) => inner,
            Error::Parquet(inner) => inner,
            Error::Http(inner) => inner,
            Error::Task(inner) => inner,
            Error::Url(inner) => inner,
            Error::Utf8(inner) => inner,
        }
    }

    /// Puts `context` in front of the message.
    pub fn with_context(self, context: &str) -> (error: Self)
        ensures
            error@ == in_context(self@, context@),
            error.place() == self.place(),
    {
        let mut error = self;
        let inner = error.inner_mut();
        let mut message = context.to_owned();
        message.append(": ");
        message.append(inner.message.as_str());
        inner.message = message;
        error
    }

    /// The error in words.
    pub fn to_text(&self) -> (text: String)
        ensures
            text@ == crate::error_struct::details_text(self@.details, self.place()),
    {
        self.inner().to_text()
    }

    /// A failure that a component reported, with the text of its own error and
    /// the place that it came up at.
    pub fn from_component(origin: ErrorOrigin, source: String, place: Place) -> (error: Self)
        ensures
            error@ == caused_error(
                origin_kind(origin),
                origin_message(origin),
                ErrorStatus::Permanent,
                source@,
            ),
            error.place() == Some(place@),
    {
        let message = match origin {
            ErrorOrigin::Arrow => "Arrow error",
            ErrorOrigin::Lance => "Lance error",
            ErrorOrigin::Parquet => "Parquet error",
            ErrorOrigin::Task => "async task error",
            ErrorOrigin::Url => "URL parse error",
            ErrorOrigin::Utf8 => "UTF-8 decode error",
        };
        let inner = ErrorStruct::new(
            message.to_owned(),
            ErrorStatus::Permanent,
            place,
        ).with_source(source);
        match origin {
            ErrorOrigin::Arrow => Error::Arrow(inner),
            ErrorOrigin::Lance => Error::Lance(inner),
            ErrorOrigin::Parquet => Error::Parquet(inner),
            ErrorOrigin::Task => Error::Task(inner),
            ErrorOrigin::Url => Error::Url(inner),
            ErrorOrigin::Utf8 => Error::Utf8(inner),
        }
    }

    /// A failed HTTP request.
    pub fn from_http(failure: HttpFailure, source: String, place: Place) -> (error: Self)
        ensures
            error@ == caused_error(ErrorKind::Http, "HTTP error"@, http_status(failure), source@),
            error.place() == Some(place@),
    {
        let refused = match failure.status {
            Some(code) => (500 <= code && code < 600) || code == 429,
            None => false,
        };
        let status = if failure.connect || failure.timeout || refused {
            ErrorStatus::Temporary
        } else {
            ErrorStatus::Permanent
        };
        Error::Http(ErrorStruct::new("HTTP error".to_owned(), status, place).with_source(source))
    }

    /// A failed input or output operation.
    pub fn from_io(failure: IoFailure, source: String, place: Place) -> (error: Self)
        ensures
            error@ == caused_error(ErrorKind::Io, "I/O error"@, io_status(failure), source@),
            error.place() == Some(place@),
    {
        let status = match failure {
            IoFailure::Interrupted | IoFailure::WouldBlock | IoFailure::TimedOut =>
                ErrorStatus::Temporary,
            IoFailure::Other => ErrorStatus::Permanent,
        };
        Error::Io(ErrorStruct::new("I/O error".to_owned(), status, place).with_source(source))
    }

    /// A failed operation of the storage layer.
    pub fn from_storage(temporary: bool, source: String, place: Place) -> (error: Self)
        ensures
            error@ == caused_error(
                ErrorKind::OpenDal,
                "OpenDAL error"@,
                if temporary {
                    ErrorStatus::Temporary
                } else {
                    ErrorStatus::Permanent
                },
                source@,
            ),
            error.place() == Some(place@),
    {
        let status = if temporary {
            ErrorStatus::Temporary
        } else {
            ErrorStatus::Permanent
        };
        Error::OpenDal(
            ErrorStruct::new("OpenDAL error".to_owned(), status, place).with_source(source),
        )
    }
}

/// Puts `context` in front of the message of a failure.
pub fn context<T>(result: Result<T>, place: &str) -> (outcome: Result<T>)
    ensures
        match result {
            Ok(value) => outcome == std::result::Result::<T, Error>::Ok(value),
            Err(error) => outcome matches Err(found) && found@ == in_context(error@, place@)
                && found.place() == error.place(),
        },
{
    match result {
        Ok(value) => Ok(value),
        Err(error) => Err(error.with_context(place)),
    }
}

}
