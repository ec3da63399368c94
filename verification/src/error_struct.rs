//! What every error carries: a message, whether a retry may help, the cause and
//! the place it was raised at.

use vstd::prelude::*;

use crate::text::decimal;

verus! {

/// Whether an operation that failed may succeed when it is tried again.
#[derive(Clone, Copy, Debug, PartialEq, Eq, Structural)]
pub enum ErrorStatus {
    Temporary,
    Permanent,
}

/// The word for a status.
pub open spec fn status_text(status: ErrorStatus) -> Seq<char> {
    match status {
        ErrorStatus::Temporary => "temporary"@,
        ErrorStatus::Permanent => "permanent"@,
    }
}

impl ErrorStatus {
    /// The word for this status.
    pub fn as_str(&self) -> (text: &'static str)
        ensures
            text@ == status_text(*self),
    {
        match self {
            ErrorStatus::Temporary => "temporary",
            ErrorStatus::Permanent => "permanent",
        }
    }
}

/// The details of an error. `source` holds the text of the error that caused
/// this one, `location` the file, line and column it was raised at.
#[derive(Debug)]
pub struct ErrorStruct {
    pub message: String,
    pub status: ErrorStatus,
    pub source: Option<String>,
    pub location: Option<String>,
}

/// The details of an error as mathematical values. Of the place, they tell
/// whether it is known.
pub struct ErrorDetails {
    pub message: Seq<char>,
    pub status: ErrorStatus,
    pub source: Option<Seq<char>>,
    pub placed: bool,
}

impl Clone for ErrorStruct {
    fn clone(&self) -> (copy: Self)
        ensures
            copy@ == self@,
            copy.place() == self.place(),
    {
        ErrorStruct {
            message: self.message.clone(),
            status: self.status,
            source: copy_text(&self.source),
            location: copy_text(&self.location),
        }
    }
}

/// A copy of an optional text.
pub fn copy_text(text: &Option<String>) -> (copy: Option<String>)
    ensures
        optional_text(copy) == optional_text(*text),
{
    match text {
        Some(text) => Some(text.clone()),
        None => None,
    }
}

/// The characters of an optional text.
pub open spec fn optional_text(text: Option<String>) -> Option<Seq<char>> {
    match text {
        Some(text) => Some(text@),
        None => None,
    }
}

impl View for ErrorStruct {
    type V = ErrorDetails;

    open spec fn view(&self) -> ErrorDetails {
        ErrorDetails {
            message: self.message@,
            status: self.status,
            source: optional_text(self.source),
            placed: self.location is Some,
        }
    }
}

/// A place in a source file.
#[derive(Clone, Copy, Debug, PartialEq, Eq)]
pub struct Place {
    pub file: &'static str,
    pub line: u32,
    pub column: u32,
}

impl View for Place {
    type V = Seq<char>;

    /// The place as `file:line:column`.
    open spec fn view(&self) -> Seq<char> {
        self.file@ + ":"@ + crate::text::decimal_text(self.line as nat) + ":"@
            + crate::text::decimal_text(self.column as nat)
    }
}

impl Place {
    /// The place as `file:line:column`.
    pub fn to_text(&self) -> (text: String)
        ensures
            text@ == self@,
    {
        let mut text = self.file.to_owned();
        text.append(":");
        text.append(decimal(self.line as u128).as_str());
        text.append(":");
        text.append(decimal(self.column as u128).as_str());
        text
    }
}

/// An error without a cause, raised at a known place.
pub open spec fn bare_details(message: Seq<char>, status: ErrorStatus) -> ErrorDetails {
    ErrorDetails { message, status, source: None, placed: true }
}

/// The place in the file of this library that is called `file`.
pub(crate) fn at(file: &'static str, line: u32, column: u32) -> (place: Place)
    ensures
        place == (Place { file, line, column }),
{
    Place { file, line, column }
}

/// An error in words: the message, the status, the place and the cause.
pub open spec fn details_text(details: ErrorDetails, place: Option<Seq<char>>) -> Seq<char> {
    let head = details.message + " ("@ + status_text(details.status) + ")"@;
    let placed = match place {
        Some(location) => head + " at "@ + location,
        None => head,
    };
    match details.source {
        Some(source) => placed + ", caused by: "@ + source,
        None => placed,
    }
}

impl ErrorStruct {
    /// The place that the error was raised at, as `file:line:column`.
    pub open spec fn place(self) -> Option<Seq<char>> {
        optional_text(self.location)
    }

    /// An error without a cause that is raised at `place`.
    pub fn new(message: String, status: ErrorStatus, place: Place) -> (error: Self)
        ensures
            error@ == bare_details(message@, status),
            error.place() == Some(place@),
    {
        ErrorStruct { message, status, source: None, location: Some(place.to_text()) }
    }

    /// Records the text of the error that caused this one.
    pub fn with_source(self, source: String) -> (error: Self)
        requires
            self.source is None,
        ensures
            error@ == (ErrorDetails { source: Some(source@), ..self@ }),
            error.place() == self.place(),
    {
        ErrorStruct {
            message: self.message,
            status: self.status,
            source: Some(source),
            location: self.location,
        }
    }

    /// The text of the error that caused this one.
    pub fn source(&self) -> (source: Option<&String>)
        ensures
            match source {
                Some(source) => self@.source == Some(source@),
                None => self@.source is None,
            },
    {
        self.source.as_ref()
    }

    /// The error in words.
    pub fn to_text(&self) -> (text: String)
        ensures
            text@ == details_text(self@, self.place()),
    {
        let mut text = self.message.clone();
        text.append(" (");
        text.append(self.status.as_str());
        text.append(")");
        if let Some(location) = &self.location {
            text.append(" at ");
            text.append(location.as_str());
        }
        if let Some(source) = &self.source {
            text.append(", caused by: ");
            text.append(source.as_str());
        }
        text
    }
}

}
