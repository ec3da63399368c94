//! JSON and CDXJ indexes of WARC archives.

use std::ops::Range;

use vstd::prelude::*;
use vstd::slice::slice_subrange;

use super::read_parallelism;
use super::work_units::{build_index_work_units, WarcIndexEntry};
use crate::error::{Error, Result};
use crate::error_struct::at;
use crate::gzip::{gunzip, GzipFailure};
use crate::json::{get, parse_object, JsonField};
use crate::text::{
    decimal, ends_with, file_name, find_from, parse_u64, same_text, to_chars, trim, utf8_text,
};

verus! {

/// A message that names a line.
pub open spec fn line_message(before: Seq<char>, line_number: nat, after: Seq<char>) -> Seq<char> {
    before + crate::text::decimal_text(line_number) + after
}

/// An error whose message names a line.
fn line_error(before: &str, line_number: u128, after: &str) -> (error: Error)
    ensures
        error@ == crate::error::internal_error(
            line_message(before@, line_number as nat, after@),
        ),
{
    let mut message = before.to_owned();
    message.append(decimal(line_number).as_str());
    message.append(after);
    Error::message(message, at("src/source/warc_index.rs", 35, 5))
}

/// Whether an index entry for `filename` speaks of the archive at
/// `source_path`: the path ends in it, or both have the same last component.
pub open spec fn filename_matches(source_path: Seq<char>, filename: Seq<char>) -> bool {
    filename.is_suffix_of(source_path) || crate::text::file_name_of(source_path)
        == crate::text::file_name_of(filename)
}

/// Whether an index entry for `filename` speaks of the archive at
/// `source_path`.
pub fn index_filename_matches(source_path: &str, filename: &str) -> (matches: bool)
    ensures
        matches == filename_matches(source_path@, filename@),
{
    if ends_with(source_path, filename) {
        return true;
    }
    match (file_name(source_path), file_name(filename)) {
        (Some(left), Some(right)) => same_text(left.as_str(), right.as_str()),
        (None, None) => true,
        _ => false,
    }
}

/// The integer that a member holds, as a number or as a text of digits.
pub open spec fn field_u64(field: crate::json::JsonFieldView) -> Option<u64> {
    match field {
        crate::json::JsonFieldView::Number(number) => Some(number),
        crate::json::JsonFieldView::Text(text) => crate::text::u64_value(text),
        crate::json::JsonFieldView::Other => None,
    }
}

/// The integer member called `name`, or what is wrong with it.
pub open spec fn member_u64(
    members: Seq<(Seq<char>, crate::json::JsonFieldView)>,
    name: Seq<char>,
    line_number: nat,
) -> std::result::Result<u64, Seq<char>> {
    match crate::json::member_of(members, name) {
        None => Err(line_message("WARC index line "@, line_number, " has no "@ + name)),
        Some(field) => match field_u64(field) {
            None => Err(line_message("WARC index line "@, line_number, " has invalid "@ + name)),
            Some(number) => Ok(number),
        },
    }
}

/// The integer member called `name`.
pub fn json_u64(members: &Vec<(String, JsonField)>, name: &str, line_number: u128) -> (number:
    Result<u64>)
    ensures
        match number {
            Ok(number) => member_u64(
                crate::json::members_view(members@),
                name@,
                line_number as nat,
            ) == Ok::<u64, Seq<char>>(number),
            Err(error) => member_u64(
                crate::json::members_view(members@),
                name@,
                line_number as nat,
            ) matches Err(message) && error@ == crate::error::internal_error(message),
        },
{
    match get(members, name) {
        None => {
            let mut after = " has no ".to_owned();
            after.append(name);
            Err(line_error("WARC index line ", line_number, after.as_str()))
        },
        Some(field) => {
            let number = match field {
                JsonField::Number(number) => Some(*number),
                JsonField::Text(text) => parse_u64(text.as_str()),
                JsonField::Other => None,
            };
            match number {
                Some(number) => Ok(number),
                None => {
                    let mut after = " has invalid ".to_owned();
                    after.append(name);
                    Err(line_error("WARC index line ", line_number, after.as_str()))
                },
            }
        },
    }
}

/// What a line of an index comes to.
pub enum LineOutcome {
    /// The line says nothing about the archive.
    Skipped,
    /// The line lists a record.
    Listed(WarcIndexEntry),
    /// The line is not usable.
    Refused(Seq<char>),
}

/// What the JSON object of a line comes to.
pub open spec fn object_outcome(
    members: Seq<(Seq<char>, crate::json::JsonFieldView)>,
    source_path: Seq<char>,
    line_number: nat,
) -> LineOutcome {
    if crate::json::member_of(members, "filename"@) matches Some(
        crate::json::JsonFieldView::Text(filename),
    ) && !filename_matches(source_path, filename) {
        LineOutcome::Skipped
    } else {
        match member_u64(members, "offset"@, line_number) {
            Err(message) => LineOutcome::Refused(message),
            Ok(offset) => match member_u64(members, "length"@, line_number) {
                Err(message) => LineOutcome::Refused(message),
                Ok(length) => if length == 0 {
                    LineOutcome::Refused(
                        line_message("WARC index line "@, line_number, " has zero length"@),
                    )
                } else {
                    LineOutcome::Listed(WarcIndexEntry { offset, length })
                },
            },
        }
    }
}

/// Whether a result says what a line comes to.
pub open spec fn tells_outcome(
    result: Result<Option<WarcIndexEntry>>,
    outcome: LineOutcome,
) -> bool {
    match result {
        Ok(None) => outcome is Skipped,
        Ok(Some(entry)) => outcome == LineOutcome::Listed(entry),
        Err(error) => outcome matches LineOutcome::Refused(message) && error@
            == crate::error::internal_error(message),
    }
}

/// The entry that the JSON object of a line lists for the archive at
/// `source_path`. Objects that name another file are passed over.
pub fn entry_of_object(
    members: &Vec<(String, JsonField)>,
    source_path: &str,
    line_number: u128,
) -> (entry: Result<Option<WarcIndexEntry>>)
    ensures
        tells_outcome(
            entry,
            object_outcome(
                crate::json::members_view(members@),
                source_path@,
                line_number as nat,
            ),
        ),
{
    if let Some(JsonField::Text(filename)) = get(members, "filename") {
        if !index_filename_matches(source_path, filename.as_str()) {
            return Ok(None);
        }
    }
    let offset: u64 = match json_u64(members, "offset", line_number) {
        Ok(offset) => offset,
        Err(error) => {
            return Err(error);
        },
    };
    let length: u64 = match json_u64(members, "length", line_number) {
        Ok(length) => length,
        Err(error) => {
            return Err(error);
        },
    };
    if length == 0 {
        return Err(line_error("WARC index line ", line_number, " has zero length"));
    }
    Ok(Some(WarcIndexEntry { offset, length }))
}

/// What a line of text comes to: blank lines and comments are passed over, and
/// the JSON object starts at the first brace.
pub open spec fn text_outcome(
    line: Seq<char>,
    source_path: Seq<char>,
    line_number: nat,
) -> LineOutcome {
    let text = crate::text::trimmed(line);
    if text.len() == 0 || text[0] == '#' {
        LineOutcome::Skipped
    } else {
        match crate::text::from_first(text, '{') {
            None => LineOutcome::Refused(
                line_message("WARC index line "@, line_number, " is not JSON or CDXJ"@),
            ),
            Some(json) => match crate::json::json_members(json) {
                Err(problem) => LineOutcome::Refused(
                    line_message("invalid WARC index line "@, line_number, ": "@ + problem),
                ),
                Ok(members) => object_outcome(members, source_path, line_number),
            },
        }
    }
}

/// What a line comes to.
pub open spec fn line_outcome(
    line: Seq<u8>,
    source_path: Seq<char>,
    line_number: nat,
) -> LineOutcome {
    if vstd::utf8::valid_utf8(line) {
        text_outcome(vstd::utf8::decode_utf8(line), source_path, line_number)
    } else {
        LineOutcome::Refused(
            line_message(
                "reading WARC index line "@,
                line_number,
                ": stream did not contain valid UTF-8"@,
            ),
        )
    }
}

/// The entry that a line lists for the archive at `source_path`.
pub fn entry_of_line(line: &[u8], source_path: &str, line_number: u128) -> (entry: Result<
    Option<WarcIndexEntry>,
>)
    ensures
        tells_outcome(entry, line_outcome(line@, source_path@, line_number as nat)),
{
    let decoded = match utf8_text(line) {
        Some(decoded) => decoded,
        None => {
            return Err(
                line_error(
                    "reading WARC index line ",
                    line_number,
                    ": stream did not contain valid UTF-8",
                ),
            );
        },
    };
    let text = trim(decoded.as_str());
    let chars = to_chars(text);
    if chars.len() == 0 || chars[0] == '#' {
        return Ok(None);
    }
    match find_from(text, '{') {
        None => Err(line_error("WARC index line ", line_number, " is not JSON or CDXJ")),
        Some(json) => match parse_object(json) {
            Err(problem) => {
                let mut after = ": ".to_owned();
                after.append(problem.as_str());
                Err(line_error("invalid WARC index line ", line_number, after.as_str()))
            },
            Ok(members) => entry_of_object(&members, source_path, line_number),
        },
    }
}

/// Where the first line of `bytes` ends: its line feed, or -1.
pub open spec fn line_feed(bytes: Seq<u8>) -> int
    decreases bytes.len(),
{
    if bytes.len() == 0 {
        -1
    } else if bytes[0] == 10 {
        0
    } else {
        let rest = line_feed(bytes.skip(1));
        if rest < 0 {
            -1
        } else {
            rest + 1
        }
    }
}

/// A line without the carriage return in front of its line feed.
pub open spec fn without_return(line: Seq<u8>) -> Seq<u8> {
    if line.len() > 0 && line.last() == 13 {
        line.drop_last()
    } else {
        line
    }
}

/// What lines are read to: the entries so far, or what is wrong with a line.
pub open spec fn then_line(
    so_far: std::result::Result<Seq<WarcIndexEntry>, Seq<char>>,
    outcome: LineOutcome,
) -> std::result::Result<Seq<WarcIndexEntry>, Seq<char>> {
    match so_far {
        Err(message) => Err(message),
        Ok(entries) => match outcome {
            LineOutcome::Skipped => Ok(entries),
            LineOutcome::Listed(entry) => Ok(entries.push(entry)),
            LineOutcome::Refused(message) => Err(message),
        },
    }
}

/// The entries of an index whose first `line_number` lines came to `so_far`,
/// from the bytes behind them. A line ends in a line feed; the last one may
/// lack it, unless reading failed there.
pub open spec fn rest_of_index(
    so_far: Seq<WarcIndexEntry>,
    line_number: nat,
    bytes: Seq<u8>,
    failure: Option<crate::gzip::GzipFailureView>,
    source_path: Seq<char>,
) -> std::result::Result<Seq<WarcIndexEntry>, Seq<char>>
    decreases bytes.len(),
    via rest_of_index_decreases
{
    let end = line_feed(bytes);
    if end >= 0 {
        let line = without_return(bytes.take(end));
        match line_outcome(line, source_path, line_number + 1) {
            LineOutcome::Refused(message) => Err(message),
            LineOutcome::Skipped => rest_of_index(
                so_far,
                line_number + 1,
                bytes.skip(end + 1),
                failure,
                source_path,
            ),
            LineOutcome::Listed(entry) => rest_of_index(
                so_far.push(entry),
                line_number + 1,
                bytes.skip(end + 1),
                failure,
                source_path,
            ),
        }
    } else {
        match failure {
            Some(failure) => Err(
                line_message(
                    "reading WARC index line "@,
                    line_number + 1,
                    ": "@ + failure.message,
                ),
            ),
            None => if bytes.len() == 0 {
                Ok(so_far)
            } else {
                then_line(Ok(so_far), line_outcome(bytes, source_path, line_number + 1))
            },
        }
    }
}

#[via_fn]
proof fn rest_of_index_decreases(
    so_far: Seq<WarcIndexEntry>,
    line_number: nat,
    bytes: Seq<u8>,
    failure: Option<crate::gzip::GzipFailureView>,
    source_path: Seq<char>,
) {
    lemma_line_feed(bytes);
}

proof fn lemma_line_feed(bytes: Seq<u8>)
    ensures
        -1 <= line_feed(bytes) < bytes.len(),
    decreases bytes.len(),
{
    if bytes.len() > 0 && bytes[0] != 10 {
        lemma_line_feed(bytes.skip(1));
    }
}

/// The entries that an index lists for the archive at `source_path`. An index
/// without any is refused.
pub open spec fn index_entries(
    bytes: Seq<u8>,
    failure: Option<crate::gzip::GzipFailureView>,
    source_path: Seq<char>,
) -> std::result::Result<Seq<WarcIndexEntry>, Seq<char>> {
    match rest_of_index(Seq::empty(), 0, bytes, failure, source_path) {
        Err(message) => Err(message),
        Ok(entries) => if entries.len() == 0 {
            Err("WARC index contains no entries for the source file"@)
        } else {
            Ok(entries)
        },
    }
}

/// Whether a result holds the entries that were `expected`.
pub open spec fn tells_entries(
    result: Result<Vec<WarcIndexEntry>>,
    expected: std::result::Result<Seq<WarcIndexEntry>, Seq<char>>,
) -> bool {
    match result {
        Ok(entries) => expected == Ok::<Seq<WarcIndexEntry>, Seq<char>>(entries@),
        Err(error) => expected matches Err(message) && error@ == crate::error::internal_error(
            message,
        ),
    }
}

/// The position of the first line feed from `from` on.
fn find_line_feed(bytes: &[u8], from: usize) -> (end: Option<usize>)
    requires
        from <= bytes@.len(),
    ensures
        match end {
            Some(end) => from <= end < bytes@.len() && line_feed(bytes@.skip(from as int)) == end
                - from,
            None => line_feed(bytes@.skip(from as int)) == -1,
        },
{
    let mut i: usize = from;
    while i < bytes.len()
        invariant
            from <= i <= bytes@.len(),
            ({
                let here = line_feed(bytes@.skip(i as int));
                let whole = line_feed(bytes@.skip(from as int));
                if here < 0 {
                    whole == -1
                } else {
                    whole == here + (i - from)
                }
            }),
        decreases bytes@.len() - i,
    {
        assert(bytes@.skip(i as int)[0] == bytes@[i as int]);
        if bytes[i] == 10 {
            return Some(i);
        }
        proof {
            assert(bytes@.skip(i as int).skip(1) == bytes@.skip(i + 1));
            lemma_line_feed(bytes@.skip(i + 1));
        }
        i += 1;
    }
    None
}

/// The entries that the bytes of an index list for the archive at
/// `source_path`. `failure` tells why the index could not be read any further.
pub fn parse_index_lines(bytes: &[u8], failure: &Option<GzipFailure>, source_path: &str) -> (entries:
    Result<Vec<WarcIndexEntry>>)
    ensures
        tells_entries(
            entries,
            index_entries(bytes@, crate::gzip::failure_view(*failure), source_path@),
        ),
{
    let ghost stopped = crate::gzip::failure_view(*failure);
    let ghost whole = rest_of_index(Seq::empty(), 0, bytes@, stopped, source_path@);
    let mut entries: Vec<WarcIndexEntry> = Vec::new();
    let mut start: usize = 0;
    let mut line_number: u128 = 0;
    let size: usize = bytes.len();
    assert(bytes@.skip(0) == bytes@);
    loop
        invariant_except_break
            start <= size,
            size == bytes@.len(),
            line_number <= start,
            stopped == crate::gzip::failure_view(*failure),
            whole == rest_of_index(
                entries@,
                line_number as nat,
                bytes@.skip(start as int),
                stopped,
                source_path@,
            ),
            whole == rest_of_index(Seq::empty(), 0, bytes@, stopped, source_path@),
        ensures
            whole == Ok::<Seq<WarcIndexEntry>, Seq<char>>(entries@),
        decreases bytes@.len() - start,
    {
        let ghost rest = bytes@.skip(start as int);
        match find_line_feed(bytes, start) {
            Some(end) => {
                let mut stop: usize = end;
                if end > start && bytes[end - 1] == 13 {
                    stop = end - 1;
                }
                let line = slice_subrange(bytes, start, stop);
                proof {
                    let full = rest.take(end - start);
                    assert(full == bytes@.subrange(start as int, end as int));
                    assert(line@ == without_return(full));
                    assert(rest.skip(end - start + 1) == bytes@.skip(end + 1));
                }
                line_number += 1;
                match entry_of_line(line, source_path, line_number) {
                    Ok(Some(entry)) => {
                        entries.push(entry);
                    },
                    Ok(None) => {},
                    Err(error) => {
                        return Err(error);
                    },
                }
                start = end + 1;
            },
            None => {
                if let Some(failure) = failure {
                    let mut after = ": ".to_owned();
                    after.append(failure.message.as_str());
                    return Err(
                        line_error("reading WARC index line ", line_number + 1, after.as_str()),
                    );
                }
                if start < size {
                    let line = slice_subrange(bytes, start, size);
                    assert(line@ == rest);
                    match entry_of_line(line, source_path, line_number + 1) {
                        Ok(Some(entry)) => {
                            entries.push(entry);
                        },
                        Ok(None) => {},
                        Err(error) => {
                            return Err(error);
                        },
                    }
                }
                break;
            },
        }
    }
    if entries.len() == 0 {
        return Err(
            Error::message(
                "WARC index contains no entries for the source file".to_owned(),
                at("src/source/warc_index.rs", 568, 13),
            ),
        );
    }
    Ok(entries)
}

/// The entries that an index file lists for the archive at `source_path`.
pub fn parse_warc_index(bytes: &[u8], gzipped: bool, source_path: &str) -> (entries: Result<
    Vec<WarcIndexEntry>,
>)
    ensures
        tells_entries(
            entries,
            index_entries(
                crate::gzip::contents(bytes@, gzipped).0,
                crate::gzip::contents(bytes@, gzipped).1,
                source_path@,
            ),
        ),
{
    if gzipped {
        let (decoded, failure) = gunzip(bytes);
        parse_index_lines(decoded.as_slice(), &failure, source_path)
    } else {
        parse_index_lines(bytes, &None, source_path)
    }
}

/// Whether every entry lists at least one byte.
pub open spec fn entries_not_empty(entries: Seq<WarcIndexEntry>) -> bool {
    forall|i: int| 0 <= i < entries.len() ==> (#[trigger] entries[i]).length > 0
}

proof fn lemma_rest_not_empty(
    so_far: Seq<WarcIndexEntry>,
    line_number: nat,
    bytes: Seq<u8>,
    failure: Option<crate::gzip::GzipFailureView>,
    source_path: Seq<char>,
)
    requires
        entries_not_empty(so_far),
    ensures
        rest_of_index(so_far, line_number, bytes, failure, source_path) matches Ok(entries)
            ==> entries_not_empty(entries),
    decreases bytes.len(),
{
    let end = line_feed(bytes);
    lemma_line_feed(bytes);
    if end >= 0 {
        let line = without_return(bytes.take(end));
        match line_outcome(line, source_path, line_number + 1) {
            LineOutcome::Refused(_) => {},
            LineOutcome::Skipped => {
                lemma_rest_not_empty(
                    so_far,
                    line_number + 1,
                    bytes.skip(end + 1),
                    failure,
                    source_path,
                );
            },
            LineOutcome::Listed(entry) => {
                lemma_rest_not_empty(
                    so_far.push(entry),
                    line_number + 1,
                    bytes.skip(end + 1),
                    failure,
                    source_path,
                );
            },
        }
    }
}

/// An index that is accepted lists at least one record, and no empty one.
pub proof fn law_accepted_index_is_not_empty(
    bytes: Seq<u8>,
    failure: Option<crate::gzip::GzipFailureView>,
    source_path: Seq<char>,
    entries: Seq<WarcIndexEntry>,
)
    requires
        index_entries(bytes, failure, source_path) == Ok::<Seq<WarcIndexEntry>, Seq<char>>(
            entries,
        ),
    ensures
        entries.len() > 0,
        entries_not_empty(entries),
{
    lemma_rest_not_empty(Seq::empty(), 0, bytes, failure, source_path);
}

/// An index that could not be read to its end is never accepted.
pub proof fn law_unreadable_index_is_refused(
    so_far: Seq<WarcIndexEntry>,
    line_number: nat,
    bytes: Seq<u8>,
    failure: crate::gzip::GzipFailureView,
    source_path: Seq<char>,
)
    ensures
        rest_of_index(so_far, line_number, bytes, Some(failure), source_path) is Err,
    decreases bytes.len(),
{
    let end = line_feed(bytes);
    lemma_line_feed(bytes);
    if end >= 0 {
        let line = without_return(bytes.take(end));
        match line_outcome(line, source_path, line_number + 1) {
            LineOutcome::Refused(_) => {},
            LineOutcome::Skipped => {
                law_unreadable_index_is_refused(
                    so_far,
                    line_number + 1,
                    bytes.skip(end + 1),
                    failure,
                    source_path,
                );
            },
            LineOutcome::Listed(entry) => {
                law_unreadable_index_is_refused(
                    so_far.push(entry),
                    line_number + 1,
                    bytes.skip(end + 1),
                    failure,
                    source_path,
                );
            },
        }
    }
}

/// What an index comes to: the ranges that are read, or why none are.
pub open spec fn indexed_reads(
    entries: std::result::Result<Seq<WarcIndexEntry>, Seq<char>>,
    max_read_parallelism: nat,
) -> std::result::Result<Seq<Range<u64>>, Seq<char>> {
    match entries {
        Err(message) => Err(message),
        Ok(entries) => super::work_units::planned_units(entries, max_read_parallelism),
    }
}

/// The ranges of the archive at `source_path` that an index file lists, and how
/// many of them are read at once.
pub fn plan_indexed_reads(
    bytes: &[u8],
    gzipped: bool,
    source_path: &str,
    max_read_parallelism: usize,
) -> (reads: Result<(Vec<Range<u64>>, usize)>)
    ensures
        ({
            let entries = index_entries(
                crate::gzip::contents(bytes@, gzipped).0,
                crate::gzip::contents(bytes@, gzipped).1,
                source_path@,
            );
            match reads {
                Ok((units, parallelism)) => {
                    &&& indexed_reads(entries, max_read_parallelism as nat) == Ok::<
                        Seq<Range<u64>>,
                        Seq<char>,
                    >(units@)
                    &&& parallelism == super::parallelism_for(
                        units@.len(),
                        max_read_parallelism as nat,
                    )
                },
                Err(error) => indexed_reads(entries, max_read_parallelism as nat) matches Err(
                    message,
                ) && error@ == crate::error::internal_error(message),
            }
        }),
{
    let entries = match parse_warc_index(bytes, gzipped, source_path) {
        Ok(entries) => entries,
        Err(error) => {
            return Err(error);
        },
    };
    match build_index_work_units(entries, max_read_parallelism) {
        Ok(units) => {
            let parallelism = read_parallelism(units.len(), max_read_parallelism);
            Ok((units, parallelism))
        },
        Err(error) => Err(error),
    }
}

}
