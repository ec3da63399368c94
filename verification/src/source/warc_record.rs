//! WARC records and the values of their columns.

use vstd::prelude::*;

use super::columns::Cell;
use super::warc::{BODY_COLUMN_INDEX, COLUMN_COUNT};
use crate::error::{Error, Result};
use crate::error_struct::at;
use crate::text::{decimal, parse_u64, utf8_failure, utf8_text};

verus! {

/// The headers that columns are made of.
#[derive(Clone, Copy, Debug, PartialEq, Eq, Structural)]
pub enum WarcHeader {
    ContentType,
    ConcurrentTo,
    BlockDigest,
    PayloadDigest,
    IPAddress,
    RefersTo,
    TargetURI,
    Truncated,
    WarcInfoID,
    Filename,
    Profile,
    IdentifiedPayloadType,
    SegmentNumber,
    SegmentOriginID,
    SegmentTotalLength,
}

/// The header that a column of texts is made of.
pub open spec fn string_header_at(index: int) -> Option<WarcHeader> {
    if index == 4 {
        Some(WarcHeader::ContentType)
    } else if index == 5 {
        Some(WarcHeader::ConcurrentTo)
    } else if index == 6 {
        Some(WarcHeader::BlockDigest)
    } else if index == 7 {
        Some(WarcHeader::PayloadDigest)
    } else if index == 8 {
        Some(WarcHeader::IPAddress)
    } else if index == 9 {
        Some(WarcHeader::RefersTo)
    } else if index == 10 {
        Some(WarcHeader::TargetURI)
    } else if index == 11 {
        Some(WarcHeader::Truncated)
    } else if index == 12 {
        Some(WarcHeader::WarcInfoID)
    } else if index == 13 {
        Some(WarcHeader::Filename)
    } else if index == 14 {
        Some(WarcHeader::Profile)
    } else if index == 15 {
        Some(WarcHeader::IdentifiedPayloadType)
    } else if index == 17 {
        Some(WarcHeader::SegmentOriginID)
    } else {
        None
    }
}

/// The header that a column of texts is made of.
pub fn string_header(index: usize) -> (header: Option<WarcHeader>)
    ensures
        header == string_header_at(index as int),
{
    match index {
        4 => Some(WarcHeader::ContentType),
        5 => Some(WarcHeader::ConcurrentTo),
        6 => Some(WarcHeader::BlockDigest),
        7 => Some(WarcHeader::PayloadDigest),
        8 => Some(WarcHeader::IPAddress),
        9 => Some(WarcHeader::RefersTo),
        10 => Some(WarcHeader::TargetURI),
        11 => Some(WarcHeader::Truncated),
        12 => Some(WarcHeader::WarcInfoID),
        13 => Some(WarcHeader::Filename),
        14 => Some(WarcHeader::Profile),
        15 => Some(WarcHeader::IdentifiedPayloadType),
        17 => Some(WarcHeader::SegmentOriginID),
        _ => None,
    }
}

/// The header that a column is made of, if it is made of one.
pub open spec fn header_at(index: int) -> Option<WarcHeader> {
    if index == 16 {
        Some(WarcHeader::SegmentNumber)
    } else if index == 18 {
        Some(WarcHeader::SegmentTotalLength)
    } else {
        string_header_at(index)
    }
}

/// The headers that the columns are made of, in order.
pub open spec fn headers_at(projection: Seq<usize>) -> Seq<WarcHeader>
    decreases projection.len(),
{
    if projection.len() == 0 {
        Seq::empty()
    } else {
        let headers = headers_at(projection.drop_last());
        match header_at(projection.last() as int) {
            Some(header) => headers.push(header),
            None => headers,
        }
    }
}

/// The headers that the columns at `projection` are made of. The others need
/// not be read.
pub fn projected_headers(projection: &Vec<usize>) -> (headers: Vec<WarcHeader>)
    ensures
        headers@ == headers_at(projection@),
{
    let mut headers: Vec<WarcHeader> = Vec::new();
    let mut i: usize = 0;
    assert(projection@.take(0) =~= Seq::empty());
    while i < projection.len()
        invariant
            i <= projection@.len(),
            headers@ == headers_at(projection@.take(i as int)),
        decreases projection@.len() - i,
    {
        assert(projection@.take(i + 1).drop_last() == projection@.take(i as int));
        let header = match projection[i] {
            16 => Some(WarcHeader::SegmentNumber),
            18 => Some(WarcHeader::SegmentTotalLength),
            index => string_header(index),
        };
        if let Some(header) = header {
            headers.push(header);
        }
        i += 1;
    }
    assert(projection@.take(i as int) == projection@);
    headers
}

/// A record without its body. The headers hold their values as they stand in
/// the archive.
#[derive(Debug)]
pub struct WarcRecord {
    pub id: String,
    pub content_length: u64,
    pub date_millis: i64,
    pub record_type: String,
    pub headers: Vec<(WarcHeader, Vec<u8>)>,
}

/// A record as mathematical values.
pub struct WarcRecordView {
    pub id: Seq<char>,
    pub content_length: u64,
    pub date_millis: i64,
    pub record_type: Seq<char>,
    pub headers: Seq<(WarcHeader, Seq<u8>)>,
}

/// Headers as mathematical values.
pub open spec fn headers_view(headers: Seq<(WarcHeader, Vec<u8>)>) -> Seq<(WarcHeader, Seq<u8>)> {
    headers.map_values(|header: (WarcHeader, Vec<u8>)| (header.0, header.1@))
}

impl View for WarcRecord {
    type V = WarcRecordView;

    open spec fn view(&self) -> WarcRecordView {
        WarcRecordView {
            id: self.id@,
            content_length: self.content_length,
            date_millis: self.date_millis,
            record_type: self.record_type@,
            headers: headers_view(self.headers@),
        }
    }
}

/// The value of a header.
pub open spec fn header_bytes(
    headers: Seq<(WarcHeader, Seq<u8>)>,
    header: WarcHeader,
) -> Option<Seq<u8>>
    decreases headers.len(),
{
    if headers.len() == 0 {
        None
    } else if headers[0].0 == header {
        Some(headers[0].1)
    } else {
        header_bytes(headers.skip(1), header)
    }
}

/// The text of a header, or what is wrong with it.
pub open spec fn header_text(
    headers: Seq<(WarcHeader, Seq<u8>)>,
    header: WarcHeader,
) -> std::result::Result<Option<Seq<char>>, Seq<char>> {
    match header_bytes(headers, header) {
        None => Ok(None),
        Some(bytes) => if vstd::utf8::valid_utf8(bytes) {
            Ok(Some(vstd::utf8::decode_utf8(bytes)))
        } else {
            Err(
                "panic in WARC parser: called `Result::unwrap()` on an `Err` value: "@
                    + crate::text::utf8_failure_text(bytes),
            )
        },
    }
}

/// Whether a result holds the text that was expected.
pub open spec fn tells_text(
    result: Result<Option<String>>,
    expected: std::result::Result<Option<Seq<char>>, Seq<char>>,
) -> bool {
    match result {
        Ok(text) => expected == Ok::<Option<Seq<char>>, Seq<char>>(
            crate::error_struct::optional_text(text),
        ),
        Err(error) => expected matches Err(message) && error@ == crate::error::internal_error(
            message,
        ),
    }
}

/// The text of a header.
pub fn optional_header(record: &WarcRecord, header: WarcHeader) -> (text: Result<Option<String>>)
    ensures
        tells_text(text, header_text(record@.headers, header)),
{
    let headers = &record.headers;
    let ghost view = record@.headers;
    let mut i: usize = 0;
    assert(view.skip(0) == view);
    while i < headers.len()
        invariant
            i <= headers@.len(),
            view == record@.headers,
            view == headers_view(headers@),
            header_bytes(view, header) == header_bytes(view.skip(i as int), header),
        decreases headers@.len() - i,
    {
        assert(view.skip(i as int)[0] == view[i as int]);
        assert(view.skip(i as int).skip(1) == view.skip(i + 1));
        if headers[i].0 == header {
            let bytes = headers[i].1.as_slice();
            match utf8_text(bytes) {
                Some(text) => {
                    return Ok(Some(text));
                },
                None => {
                    let mut message =
                        "panic in WARC parser: called `Result::unwrap()` on an `Err` value: ".to_owned();
                    message.append(utf8_failure(bytes).as_str());
                    return Err(Error::message(message, at("src/source/warc_record.rs", 262, 32)));
                },
            }
        }
        i += 1;
    }
    Ok(None)
}

/// The integer that a text holds, if there is a text.
pub open spec fn count_of(
    value: Option<Seq<char>>,
    name: Seq<char>,
) -> std::result::Result<Option<u64>, Seq<char>> {
    match value {
        None => Ok(None),
        Some(text) => match crate::text::u64_value(text) {
            Some(number) => Ok(Some(number)),
            None => Err("invalid WARC "@ + name + ": "@ + text),
        },
    }
}

/// The integer that a text holds, if there is a text.
pub fn optional_u64(value: Option<String>, name: &str) -> (count: Result<Option<u64>>)
    ensures
        match count {
            Ok(count) => count_of(crate::error_struct::optional_text(value), name@) == Ok::<
                Option<u64>,
                Seq<char>,
            >(count),
            Err(error) => count_of(crate::error_struct::optional_text(value), name@) matches Err(
                message,
            ) && error@ == crate::error::internal_error(message),
        },
{
    match value {
        None => Ok(None),
        Some(text) => match parse_u64(text.as_str()) {
            Some(number) => Ok(Some(number)),
            None => {
                let mut message = "invalid WARC ".to_owned();
                message.append(name);
                message.append(": ");
                message.append(text.as_str());
                Err(Error::message(message, at("src/source/warc_record.rs", 307, 21)))
            },
        },
    }
}

/// The value of a column made of a header that holds an integer.
pub open spec fn count_cell(
    record: WarcRecordView,
    header: WarcHeader,
    name: Seq<char>,
) -> std::result::Result<Cell, Seq<char>> {
    match header_text(record.headers, header) {
        Err(message) => Err(message),
        Ok(text) => match count_of(text, name) {
            Err(message) => Err(message),
            Ok(count) => Ok(Cell::Count(count)),
        },
    }
}

/// The value of a record in the column at `index`, which is not the body.
pub open spec fn metadata_cell(record: WarcRecordView, index: int) -> std::result::Result<
    Cell,
    Seq<char>,
> {
    if index == 0 {
        Ok(Cell::Text(Some(record.id)))
    } else if index == 1 {
        Ok(Cell::Count(Some(record.content_length)))
    } else if index == 2 {
        Ok(Cell::Millis(record.date_millis))
    } else if index == 3 {
        Ok(Cell::Text(Some(record.record_type)))
    } else if index == 16 {
        count_cell(record, WarcHeader::SegmentNumber, "segment number"@)
    } else if index == 18 {
        count_cell(record, WarcHeader::SegmentTotalLength, "segment total length"@)
    } else {
        match string_header_at(index) {
            None => Err(
                "invalid WARC string column index: "@ + crate::text::decimal_text(index as nat),
            ),
            Some(header) => match header_text(record.headers, header) {
                Err(message) => Err(message),
                Ok(text) => Ok(Cell::Text(text)),
            },
        }
    }
}

/// A value that is about to be added to a column.
#[derive(Debug)]
pub enum Metadata {
    Text(Option<String>),
    Count(Option<u64>),
    Millis(i64),
}

impl View for Metadata {
    type V = Cell;

    open spec fn view(&self) -> Cell {
        match self {
            Metadata::Text(text) => Cell::Text(crate::error_struct::optional_text(*text)),
            Metadata::Count(count) => Cell::Count(*count),
            Metadata::Millis(millis) => Cell::Millis(*millis),
        }
    }
}

/// The value of a record in the column at `index`.
pub fn metadata_value(record: &WarcRecord, index: usize) -> (value: Result<Metadata>)
    requires
        index < COLUMN_COUNT,
        index != BODY_COLUMN_INDEX,
    ensures
        match value {
            Ok(value) => metadata_cell(record@, index as int) == Ok::<Cell, Seq<char>>(value@),
            Err(error) => metadata_cell(record@, index as int) matches Err(message) && error@
                == crate::error::internal_error(message),
        },
{
    match index {
        0 => Ok(Metadata::Text(Some(record.id.clone()))),
        1 => Ok(Metadata::Count(Some(record.content_length))),
        2 => Ok(Metadata::Millis(record.date_millis)),
        3 => Ok(Metadata::Text(Some(record.record_type.clone()))),
        16 => count_value(record, WarcHeader::SegmentNumber, "segment number"),
        18 => count_value(record, WarcHeader::SegmentTotalLength, "segment total length"),
        _ => match string_header(index) {
            None => {
                let mut message = "invalid WARC string column index: ".to_owned();
                message.append(decimal(index as u128).as_str());
                Err(Error::message(message, at("src/source/warc_record.rs", 401, 21)))
            },
            Some(header) => match optional_header(record, header) {
                Ok(text) => Ok(Metadata::Text(text)),
                Err(error) => Err(error),
            },
        },
    }
}

fn count_value(record: &WarcRecord, header: WarcHeader, name: &str) -> (value: Result<Metadata>)
    ensures
        match value {
            Ok(value) => count_cell(record@, header, name@) == Ok::<Cell, Seq<char>>(value@),
            Err(error) => count_cell(record@, header, name@) matches Err(message) && error@
                == crate::error::internal_error(message),
        },
{
    match optional_header(record, header) {
        Err(error) => Err(error),
        Ok(text) => match optional_u64(text, name) {
            Ok(count) => Ok(Metadata::Count(count)),
            Err(error) => Err(error),
        },
    }
}

}
