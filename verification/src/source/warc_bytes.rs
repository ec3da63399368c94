//! WARC records in memory.

use std::io::Cursor;

use vstd::prelude::*;
use vstd::slice::slice_subrange;
use warc::WarcReader;

use super::columns::{Cell, WarcBatch};
use super::warc_record::{projected_headers, WarcHeader, WarcRecord};
use super::warc_stream::RecordBatcher;
use crate::error::{Error, Result};
use crate::error_struct::at;
use crate::gzip::{gunzip, GzipFailure};
use crate::text::same_text;

verus! {

/// What the head of a record says.
#[derive(Debug)]
pub struct WarcHead {
    /// The number of bytes that the head takes up.
    pub size: usize,
    pub content_length: u64,
    pub id: String,
    pub date_millis: i64,
    pub record_type: String,
}

/// What the head of a record says, as mathematical values.
pub struct WarcHeadView {
    pub size: usize,
    pub content_length: u64,
    pub id: Seq<char>,
    pub date_millis: i64,
    pub record_type: Seq<char>,
}

impl View for WarcHead {
    type V = WarcHeadView;

    open spec fn view(&self) -> WarcHeadView {
        WarcHeadView {
            size: self.size,
            content_length: self.content_length,
            id: self.id@,
            date_millis: self.date_millis,
            record_type: self.record_type@,
        }
    }
}

/// The first item of `warc::WarcReader::stream_records` on bytes: none, the head
/// of a record, or what is wrong with it.
pub uninterp spec fn first_head(bytes: Seq<u8>) -> Option<
    std::result::Result<WarcHeadView, Seq<char>>,
>;

/// Reads the first item of `warc::WarcReader::stream_records` on `bytes` with
/// `warc::StreamingIter::next_item`. It depends on `bytes` alone, where a
/// content length beyond `usize` counts as wrong. A head takes up at least one
/// byte, and no more than there are; nothing more is claimed of it.
#[verifier::external_body]
pub(crate) fn read_head(bytes: &[u8]) -> (head: Option<std::result::Result<WarcHead, String>>)
    ensures
        match head {
            None => first_head(bytes@) is None,
            Some(Ok(head)) => first_head(bytes@) == Some(
                Ok::<WarcHeadView, Seq<char>>(head@),
            ) && 0 < head.size <= bytes@.len(),
            Some(Err(message)) => first_head(bytes@) == Some(
                Err::<WarcHeadView, Seq<char>>(message@),
            ),
        },
{
    let mut cursor = Cursor::new(bytes);
    let mut head = match WarcReader::new(&mut cursor).stream_records().next_item()? {
        Err(error) => return Some(Err(error.to_string())),
        Ok(record) => WarcHead {
            size: 0,
            content_length: record.content_length(),
            id: record.warc_id().to_owned(),
            date_millis: record.date().timestamp_millis(),
            record_type: record.warc_type().to_string(),
        },
    };
    head.size = cursor.position() as usize;
    Some(Ok(head))
}

/// The headers that `warc::parser::headers` finds in the head of a record, in
/// order, each with its name as `warc::WarcHeader` writes it.
pub uninterp spec fn listed_headers(head: Seq<u8>) -> Seq<(Seq<char>, Seq<u8>)>;

/// What stands behind the first head of bytes, as long as it says, or up to the
/// end.
pub open spec fn first_body(bytes: Seq<u8>) -> Seq<u8> {
    match first_head(bytes) {
        Some(Ok(head)) => {
            let end = head.size + head.content_length;
            if end <= bytes.len() {
                bytes.subrange(head.size as int, end)
            } else {
                bytes.skip(head.size as int)
            }
        },
        _ => Seq::empty(),
    }
}

/// Headers with their names, as mathematical values.
pub open spec fn listed_view(listed: Seq<(String, Vec<u8>)>) -> Seq<(Seq<char>, Seq<u8>)> {
    listed.map_values(|header: (String, Vec<u8>)| (header.0@, header.1@))
}

/// Lists the headers of the first record of `bytes`, whose head takes up `size`
/// bytes, with `warc::parser::headers`, and writes each name as
/// `warc::WarcHeader` does. The headers depend on the head alone; nothing more
/// is claimed of them.
#[verifier::external_body]
pub(crate) fn list_headers(bytes: &[u8], size: usize) -> (listed: Vec<(String, Vec<u8>)>)
    requires
        first_head(bytes@) matches Some(Ok(head)) && head.size == size && size <= bytes@.len(),
    ensures
        listed_view(listed@) == listed_headers(bytes@.take(size as int)),
{
    match warc::parser::headers(&bytes[..size]) {
        Ok((_, (_, listed, _))) => listed.into_iter().map(
            |(name, value)| (warc::WarcHeader::from(name).into(), value.to_owned()),
        ).collect(),
        Err(_) => Vec::new(),
    }
}

/// Reads the body of the first record of `bytes` with
/// `warc::Record::into_buffered` and `warc::Record::into_raw_parts`: what stands
/// behind the head, or as much of it as there is. The room for a body is made
/// before it is read, so that a body that is cut short has to be of a moderate
/// size.
#[verifier::external_body]
pub(crate) fn read_body(bytes: &[u8]) -> (body: Vec<u8>)
    requires
        first_head(bytes@) matches Some(Ok(head)) && (head.size + head.content_length
            <= bytes@.len() || head.content_length <= u32::MAX),
    ensures
        body@ == first_body(bytes@),
{
    let mut reader = WarcReader::new(bytes);
    let mut stream = reader.stream_records();
    match stream.next_item() {
        Some(Ok(record)) => match record.into_buffered() {
            Ok(record) => record.into_raw_parts().1,
            Err(_) => Vec::new(),
        },
        _ => Vec::new(),
    }
}

/// What a header is called in an archive.
pub open spec fn name_of(header: WarcHeader) -> Seq<char> {
    match header {
        WarcHeader::ContentType => "content-type"@,
        WarcHeader::ConcurrentTo => "warc-concurrent-to"@,
        WarcHeader::BlockDigest => "warc-block-digest"@,
        WarcHeader::PayloadDigest => "warc-payload-digest"@,
        WarcHeader::IPAddress => "warc-ip-address"@,
        WarcHeader::RefersTo => "warc-refers-to"@,
        WarcHeader::TargetURI => "warc-target-uri"@,
        WarcHeader::Truncated => "warc-truncated"@,
        WarcHeader::WarcInfoID => "warc-warcinfo-id"@,
        WarcHeader::Filename => "warc-filename"@,
        WarcHeader::Profile => "warc-profile"@,
        WarcHeader::IdentifiedPayloadType => "warc-identified-payload-type"@,
        WarcHeader::SegmentNumber => "warc-segment-number"@,
        WarcHeader::SegmentOriginID => "warc-segment-origin-id"@,
        WarcHeader::SegmentTotalLength => "warc-segment-total-length"@,
    }
}

/// What a header is called in an archive.
pub fn header_name(header: WarcHeader) -> (name: &'static str)
    ensures
        name@ == name_of(header),
{
    match header {
        WarcHeader::ContentType => "content-type",
        WarcHeader::ConcurrentTo => "warc-concurrent-to",
        WarcHeader::BlockDigest => "warc-block-digest",
        WarcHeader::PayloadDigest => "warc-payload-digest",
        WarcHeader::IPAddress => "warc-ip-address",
        WarcHeader::RefersTo => "warc-refers-to",
        WarcHeader::TargetURI => "warc-target-uri",
        WarcHeader::Truncated => "warc-truncated",
        WarcHeader::WarcInfoID => "warc-warcinfo-id",
        WarcHeader::Filename => "warc-filename",
        WarcHeader::Profile => "warc-profile",
        WarcHeader::IdentifiedPayloadType => "warc-identified-payload-type",
        WarcHeader::SegmentNumber => "warc-segment-number",
        WarcHeader::SegmentOriginID => "warc-segment-origin-id",
        WarcHeader::SegmentTotalLength => "warc-segment-total-length",
    }
}

/// The value of the header called `name`: the last one that is listed.
pub open spec fn header_value(
    listed: Seq<(Seq<char>, Seq<u8>)>,
    name: Seq<char>,
) -> Option<Seq<u8>>
    decreases listed.len(),
{
    if listed.len() == 0 {
        None
    } else if listed.last().0 == name {
        Some(listed.last().1)
    } else {
        header_value(listed.drop_last(), name)
    }
}

/// The headers that are listed, each with its value.
pub open spec fn present_headers(
    headers: Seq<WarcHeader>,
    listed: Seq<(Seq<char>, Seq<u8>)>,
) -> Seq<(WarcHeader, Seq<u8>)>
    decreases headers.len(),
{
    if headers.len() == 0 {
        Seq::empty()
    } else {
        let before = present_headers(headers.drop_last(), listed);
        match header_value(listed, name_of(headers.last())) {
            Some(value) => before.push((headers.last(), value)),
            None => before,
        }
    }
}

/// The first record of bytes, with the headers that the columns at
/// `projection` are made of.
pub open spec fn first_record(
    bytes: Seq<u8>,
    head: WarcHeadView,
    projection: Seq<usize>,
) -> super::warc_record::WarcRecordView {
    let headers = super::warc_record::headers_at(projection);
    super::warc_record::WarcRecordView {
        id: head.id,
        content_length: head.content_length,
        date_millis: head.date_millis,
        record_type: head.record_type,
        headers: present_headers(headers, listed_headers(bytes.take(head.size as int))),
    }
}

/// The first record of bytes, with its body where the columns at `projection`
/// hold it.
pub open spec fn first_arrival(
    bytes: Seq<u8>,
    head: WarcHeadView,
    projection: Seq<usize>,
) -> super::warc_stream::Arrival {
    super::warc_stream::Arrival {
        record: first_record(bytes, head, projection),
        body: if super::warc_batch::includes_body(projection) {
            first_body(bytes)
        } else {
            Seq::empty()
        },
    }
}

/// The records of bytes, up to the first one that is not whole.
pub open spec fn records_in(bytes: Seq<u8>, projection: Seq<usize>) -> Seq<
    super::warc_stream::Arrival,
>
    decreases bytes.len(),
{
    match first_head(bytes) {
        Some(Ok(head)) => {
            let end = head.size + head.content_length + 4;
            if end <= bytes.len() {
                seq![first_arrival(bytes, head, projection)] + records_in(
                    bytes.skip(end),
                    projection,
                )
            } else {
                Seq::empty()
            }
        },
        _ => Seq::empty(),
    }
}

/// The value of the header called `name`.
fn find_header<'a>(listed: &'a Vec<(String, Vec<u8>)>, name: &str) -> (value: Option<&'a Vec<u8>>)
    ensures
        match value {
            Some(value) => header_value(listed_view(listed@), name@) == Some(value@),
            None => header_value(listed_view(listed@), name@) is None,
        },
{
    let ghost view = listed_view(listed@);
    let mut end: usize = listed.len();
    assert(view.take(end as int) == view);
    while end > 0
        invariant
            end <= listed@.len(),
            view == listed_view(listed@),
            header_value(view, name@) == header_value(view.take(end as int), name@),
        decreases end,
    {
        assert(view.take(end as int).drop_last() == view.take(end - 1));
        assert(view.take(end as int).last() == view[end - 1]);
        if same_text(listed[end - 1].0.as_str(), name) {
            return Some(&listed[end - 1].1);
        }
        end -= 1;
    }
    None
}

/// Picks the values of headers, where they are listed.
fn pick_headers(headers: &Vec<WarcHeader>, listed: &Vec<(String, Vec<u8>)>) -> (picked: Vec<
    (WarcHeader, Vec<u8>),
>)
    ensures
        super::warc_record::headers_view(picked@) == present_headers(
            headers@,
            listed_view(listed@),
        ),
{
    let mut picked: Vec<(WarcHeader, Vec<u8>)> = Vec::new();
    let mut i: usize = 0;
    assert(headers@.take(0) =~= Seq::empty());
    assert(super::warc_record::headers_view(picked@) =~= Seq::empty());
    while i < headers.len()
        invariant
            i <= headers@.len(),
            super::warc_record::headers_view(picked@) == present_headers(
                headers@.take(i as int),
                listed_view(listed@),
            ),
        decreases headers@.len() - i,
    {
        assert(headers@.take(i + 1).drop_last() == headers@.take(i as int));
        let ghost before = picked@;
        if let Some(value) = find_header(listed, header_name(headers[i])) {
            let copy = value.clone();
            assert(copy@ =~= value@);
            picked.push((headers[i], copy));
            assert(super::warc_record::headers_view(picked@)
                =~= super::warc_record::headers_view(before).push((headers@[i as int], copy@)));
        }
        i += 1;
    }
    assert(headers@.take(i as int) == headers@);
    picked
}

/// Why what stands behind a body does not end the record, if it does not: two
/// empty lines end it.
pub open spec fn ending_problem(
    rest: Seq<u8>,
    failure: Option<crate::gzip::GzipFailureView>,
) -> Option<Seq<char>> {
    if rest.len() < 4 {
        match failure {
            Some(failure) => if failure.unexpected_end {
                Some("WARC parse error: Unexpected end of body."@)
            } else {
                Some("WARC parse error: Error reading data source."@)
            },
            None => Some("WARC parse error: Unexpected end of body."@),
        }
    } else if rest.take(4) == seq![13u8, 10, 13, 10] {
        None
    } else {
        Some("WARC parse error: Error parsing headers."@)
    }
}

/// Why a body that is cut short cannot be read.
pub open spec fn cut_short_message(
    failure: Option<crate::gzip::GzipFailureView>,
    projection: Seq<usize>,
) -> Seq<char> {
    match failure {
        None => "WARC parse error: Unexpected end of body."@,
        Some(failure) => if super::warc_batch::includes_body(projection) {
            "WARC body error: "@ + failure.message
        } else {
            "WARC parse error: Error reading data source."@
        },
    }
}

/// What records in memory come to, from the batches so far and the bytes behind
/// them. `failure` tells why there are no more bytes. A record that is cut short
/// is refused, but its headers are looked at first.
pub open spec fn rest_of_records(
    progress: super::warc_stream::Progress,
    bytes: Seq<u8>,
    failure: Option<crate::gzip::GzipFailureView>,
    projection: Seq<usize>,
    batch_size: nat,
) -> std::result::Result<super::warc_stream::Progress, Seq<char>>
    decreases bytes.len(),
{
    match first_head(bytes) {
        None => match failure {
            Some(_) => Err("WARC parse error: Error reading data source."@),
            None => Ok(progress),
        },
        Some(Err(problem)) => Err("WARC parse error: "@ + problem),
        Some(Ok(head)) => {
            let announced = super::warc_stream::stepped(
                Ok(progress),
                |pending: Seq<Seq<Cell>>|
                    super::warc_stream::begun(pending, head.content_length, projection),
            );
            let end = head.size + head.content_length;
            let arrival = first_arrival(bytes, head, projection);
            let added = super::warc_stream::stepped(
                announced,
                |pending: Seq<Seq<Cell>>|
                    super::warc_stream::pushed(
                        pending,
                        arrival.record,
                        arrival.body,
                        projection,
                        batch_size,
                    ),
            );
            match added {
                Err(message) => Err(message),
                Ok(progress) => if end > bytes.len() {
                    Err(cut_short_message(failure, projection))
                } else {
                    match ending_problem(bytes.skip(end), failure) {
                        Some(message) => Err(message),
                        None => rest_of_records(
                            progress,
                            bytes.skip(end + 4),
                            failure,
                            projection,
                            batch_size,
                        ),
                    }
                },
            }
        },
    }
}

/// The batches of records in memory.
pub open spec fn batches_of(
    bytes: Seq<u8>,
    failure: Option<crate::gzip::GzipFailureView>,
    projection: Seq<usize>,
    batch_size: nat,
) -> std::result::Result<Seq<Seq<Seq<Cell>>>, Seq<char>> {
    let start = super::warc_stream::Progress { sent: Seq::empty(), pending: Seq::empty() };
    match rest_of_records(start, bytes, failure, projection, batch_size) {
        Err(message) => Err(message),
        Ok(progress) => Ok(super::warc_stream::all_batches(progress)),
    }
}

/// The rows of batches.
pub open spec fn rows_of_batches(batches: Seq<WarcBatch>) -> Seq<Seq<Seq<Cell>>> {
    batches.map_values(|batch: WarcBatch| super::warc_batch::batch_rows(batch))
}

/// Whether a result holds the batches that were `expected`, of the columns at
/// `projection`.
pub open spec fn tells_batches(
    result: Result<Vec<WarcBatch>>,
    projection: Seq<usize>,
    expected: std::result::Result<Seq<Seq<Seq<Cell>>>, Seq<char>>,
) -> bool {
    match result {
        Ok(batches) => {
            &&& expected == Ok::<Seq<Seq<Seq<Cell>>>, Seq<char>>(rows_of_batches(batches@))
            &&& forall|i: int|
                0 <= i < batches@.len() ==> super::columns::batch_fields(#[trigger] batches@[i])
                    == super::warc_batch::fields_at(projection)
        },
        Err(error) => expected matches Err(message) && error@ == crate::error::internal_error(
            message,
        ),
    }
}

/// Checks that two empty lines end a record.
fn check_ending(rest: &[u8], failure: &Option<GzipFailure>) -> (ended: Result<()>)
    ensures
        match ended {
            Ok(_) => ending_problem(rest@, crate::gzip::failure_view(*failure)) is None,
            Err(error) => ending_problem(rest@, crate::gzip::failure_view(*failure)) matches Some(
                message,
            ) && error@ == crate::error::internal_error(message),
        },
{
    if rest.len() < 4 {
        if let Some(failure) = failure {
            if !failure.unexpected_end {
                return Err(
                    Error::message(
                        "WARC parse error: Error reading data source.".to_owned(),
                        at("src/source/warc_bytes.rs", 508, 21),
                    ),
                );
            }
        }
        return Err(Error::message(
            "WARC parse error: Unexpected end of body.".to_owned(),
            at("src/source/warc_bytes.rs", 515, 20),
        ));
    }
    if rest[0] == 13 && rest[1] == 10 && rest[2] == 13 && rest[3] == 10 {
        assert(rest@.take(4) =~= seq![13u8, 10, 13, 10]);
        return Ok(());
    }
    proof {
        if rest@.take(4) == seq![13u8, 10, 13, 10] {
            assert(rest@[0] == rest@.take(4)[0]);
            assert(rest@[1] == rest@.take(4)[1]);
            assert(rest@[2] == rest@.take(4)[2]);
            assert(rest@[3] == rest@.take(4)[3]);
        }
    }
    Err(Error::message(
        "WARC parse error: Error parsing headers.".to_owned(),
        at("src/source/warc_bytes.rs", 532, 9),
    ))
}

/// The error for a body that is cut short.
fn cut_short(failure: &Option<GzipFailure>, include_body: bool) -> (error: Error)
    ensures
        forall|projection: Seq<usize>|
            super::warc_batch::includes_body(projection) == include_body ==> error@
                == crate::error::internal_error(
                #[trigger] cut_short_message(crate::gzip::failure_view(*failure), projection),
            ),
{
    match failure {
        None => Error::message(
            "WARC parse error: Unexpected end of body.".to_owned(),
            at("src/source/warc_bytes.rs", 548, 17),
        ),
        Some(failure) => if include_body {
            let mut message = "WARC body error: ".to_owned();
            message.append(failure.message.as_str());
            Error::message(message, at("src/source/warc_bytes.rs", 555, 13))
        } else {
            Error::message(
                "WARC parse error: Error reading data source.".to_owned(),
                at("src/source/warc_bytes.rs", 557, 13),
            )
        },
    }
}

/// The batches of the records in `bytes`. `failure` tells why there are no more
/// bytes.
pub fn parse_records(
    bytes: &[u8],
    failure: &Option<GzipFailure>,
    batch_size: usize,
    projection: Vec<usize>,
) -> (batches: Result<Vec<WarcBatch>>)
    requires
        batch_size > 0,
        batch_size * 32 <= isize::MAX,
        super::warc::is_projection(projection@),
    ensures
        tells_batches(
            batches,
            projection@,
            batches_of(
                bytes@,
                crate::gzip::failure_view(*failure),
                projection@,
                batch_size as nat,
            ),
        ),
{
    let ghost stopped = crate::gzip::failure_view(*failure);
    let ghost columns = projection@;
    let headers = projected_headers(&projection);
    let mut batcher = RecordBatcher::new(batch_size, projection);
    let include_body = batcher.includes_body();
    let mut batches: Vec<WarcBatch> = Vec::new();
    let mut start: usize = 0;
    let ghost whole = rest_of_records(
        super::warc_stream::Progress { sent: Seq::empty(), pending: Seq::empty() },
        bytes@,
        stopped,
        columns,
        batch_size as nat,
    );
    proof {
        assert(rows_of_batches(batches@) =~= Seq::empty());
        assert(bytes@.skip(0) =~= bytes@);
    }
    loop
        invariant_except_break
            start <= bytes@.len(),
            stopped == crate::gzip::failure_view(*failure),
            columns == projection@,
            batcher.wf(),
            batcher.projected() == columns,
            batcher.batch_size() == batch_size,
            include_body == super::warc_batch::includes_body(columns),
            headers@ == super::warc_record::headers_at(columns),
            forall|i: int|
                0 <= i < batches@.len() ==> super::columns::batch_fields(#[trigger] batches@[i])
                    == super::warc_batch::fields_at(columns),
            whole == rest_of_records(
                super::warc_stream::Progress {
                    sent: rows_of_batches(batches@),
                    pending: batcher.pending(),
                },
                bytes@.skip(start as int),
                stopped,
                columns,
                batch_size as nat,
            ),
            batches_of(bytes@, stopped, columns, batch_size as nat) == (match whole {
                Err(message) => Err(message),
                Ok(progress) => Ok(super::warc_stream::all_batches(progress)),
            }),
        ensures
            batcher.wf(),
            batcher.projected() == columns,
            forall|i: int|
                0 <= i < batches@.len() ==> super::columns::batch_fields(#[trigger] batches@[i])
                    == super::warc_batch::fields_at(columns),
            whole == Ok::<super::warc_stream::Progress, Seq<char>>(
                super::warc_stream::Progress {
                    sent: rows_of_batches(batches@),
                    pending: batcher.pending(),
                },
            ),
        decreases bytes@.len() - start,
    {
        let rest = slice_subrange(bytes, start, bytes.len());
        assert(rest@ =~= bytes@.skip(start as int));
        let head = match read_head(rest) {
            None => {
                if failure.is_some() {
                    return Err(
                        Error::message(
                            "WARC parse error: Error reading data source.".to_owned(),
                            at("src/source/warc_bytes.rs", 654, 25),
                        ),
                    );
                }
                break;
            },
            Some(Err(problem)) => {
                let mut message = "WARC parse error: ".to_owned();
                message.append(problem.as_str());
                return Err(Error::message(message, at("src/source/warc_bytes.rs", 665, 28)));
            },
            Some(Ok(head)) => head,
        };
        let ghost sent_before = batches@;
        match batcher.begin_record(head.content_length) {
            Err(error) => {
                return Err(error);
            },
            Ok(None) => {},
            Ok(Some(batch)) => {
                batches.push(batch);
                assert(rows_of_batches(batches@) =~= rows_of_batches(sent_before).push(
                    super::warc_batch::batch_rows(batch),
                ));
            },
        }
        let left: usize = rest.len() - head.size;
        let whole_body = head.content_length <= left as u64;
        let listed = list_headers(rest, head.size);
        let record = WarcRecord {
            id: head.id,
            content_length: head.content_length,
            date_millis: head.date_millis,
            record_type: head.record_type,
            headers: pick_headers(&headers, &listed),
        };
        assert(record@ == first_record(rest@, head@, columns));
        let ghost sent_between = batches@;
        let body = if include_body {
            Some(read_body(rest))
        } else {
            None
        };
        match batcher.push_record(&record, body) {
            Err(error) => {
                return Err(error);
            },
            Ok(None) => {},
            Ok(Some(batch)) => {
                batches.push(batch);
                assert(rows_of_batches(batches@) =~= rows_of_batches(sent_between).push(
                    super::warc_batch::batch_rows(batch),
                ));
            },
        }
        if !whole_body {
            return Err(cut_short(failure, include_body));
        }
        let end: usize = head.size + head.content_length as usize;
        let behind = slice_subrange(rest, end, rest.len());
        assert(behind@ =~= rest@.skip(end as int));
        match check_ending(behind, failure) {
            Ok(_) => {},
            Err(error) => {
                return Err(error);
            },
        }
        assert(rest@.skip(end + 4) =~= bytes@.skip(start + end + 4));
        start = start + end + 4;
    }
    let ghost sent = batches@;
    match batcher.finish() {
        Err(error) => {
            return Err(error);
        },
        Ok(None) => {},
        Ok(Some(batch)) => {
            batches.push(batch);
            assert(rows_of_batches(batches@) =~= rows_of_batches(sent).push(
                super::warc_batch::batch_rows(batch),
            ));
        },
    }
    Ok(batches)
}

/// The batches of the records in a range of an archive. Where the archive is
/// gzipped, the range holds whole members.
pub fn parse_indexed_warc_bytes(
    bytes: &[u8],
    gzipped: bool,
    batch_size: usize,
    projection: Vec<usize>,
) -> (batches: Result<Vec<WarcBatch>>)
    requires
        batch_size > 0,
        batch_size * 32 <= isize::MAX,
        super::warc::is_projection(projection@),
    ensures
        tells_batches(
            batches,
            projection@,
            batches_of(
                crate::gzip::contents(bytes@, gzipped).0,
                crate::gzip::contents(bytes@, gzipped).1,
                projection@,
                batch_size as nat,
            ),
        ),
{
    if gzipped {
        let (decoded, failure) = gunzip(bytes);
        parse_records(decoded.as_slice(), &failure, batch_size, projection)
    } else {
        parse_records(bytes, &None, batch_size, projection)
    }
}

proof fn lemma_rest_is_streamed(
    arrivals: Seq<super::warc_stream::Arrival>,
    progress: super::warc_stream::Progress,
    bytes: Seq<u8>,
    failure: Option<crate::gzip::GzipFailureView>,
    projection: Seq<usize>,
    batch_size: nat,
)
    requires
        super::warc_stream::streamed(arrivals, projection, batch_size) == Ok::<
            super::warc_stream::Progress,
            Seq<char>,
        >(progress),
        rest_of_records(progress, bytes, failure, projection, batch_size) is Ok,
    ensures
        super::warc_stream::streamed(
            arrivals + records_in(bytes, projection),
            projection,
            batch_size,
        ) == rest_of_records(progress, bytes, failure, projection, batch_size),
    decreases bytes.len(),
{
    match first_head(bytes) {
        Some(Ok(head)) => {
            let end = head.size + head.content_length;
            let arrival = first_arrival(bytes, head, projection);
            let more = arrivals.push(arrival);
            assert(more.drop_last() =~= arrivals);
            let after = super::warc_stream::streamed(more, projection, batch_size);
            lemma_rest_is_streamed(
                more,
                after->Ok_0,
                bytes.skip(end + 4),
                failure,
                projection,
                batch_size,
            );
            assert(more + records_in(bytes.skip(end + 4), projection) =~= arrivals + records_in(
                bytes,
                projection,
            ));
        },
        _ => {
            assert(arrivals + records_in(bytes, projection) =~= arrivals);
        },
    }
}

proof fn lemma_bodies_fit(bytes: Seq<u8>, projection: Seq<usize>, at: int)
    requires
        0 <= at < records_in(bytes, projection).len(),
    ensures
        records_in(bytes, projection)[at].body.len() <= records_in(
            bytes,
            projection,
        )[at].record.content_length,
    decreases bytes.len(),
{
    if let Some(Ok(head)) = first_head(bytes) {
        let end = head.size + head.content_length + 4;
        if at > 0 && end <= bytes.len() {
            lemma_bodies_fit(bytes.skip(end), projection, at - 1);
        }
    }
}

/// Records in memory come to the batches that a stream of the same records comes
/// to. No body is longer than its record announces.
pub proof fn law_memory_is_a_stream(
    bytes: Seq<u8>,
    failure: Option<crate::gzip::GzipFailureView>,
    projection: Seq<usize>,
    batch_size: nat,
    batches: Seq<Seq<Seq<Cell>>>,
)
    requires
        batches_of(bytes, failure, projection, batch_size) == Ok::<
            Seq<Seq<Seq<Cell>>>,
            Seq<char>,
        >(batches),
    ensures
        super::warc_stream::streamed(
            records_in(bytes, projection),
            projection,
            batch_size,
        ) matches Ok(progress) && super::warc_stream::all_batches(progress) == batches,
        forall|i: int|
            0 <= i < records_in(bytes, projection).len() ==> (#[trigger] records_in(
                bytes,
                projection,
            )[i]).body.len() <= records_in(bytes, projection)[i].record.content_length,
{
    lemma_rest_is_streamed(
        Seq::empty(),
        super::warc_stream::Progress { sent: Seq::empty(), pending: Seq::empty() },
        bytes,
        failure,
        projection,
        batch_size,
    );
    assert(Seq::empty() + records_in(bytes, projection) =~= records_in(bytes, projection));
    assert forall|i: int| 0 <= i < records_in(bytes, projection).len() implies (
    #[trigger] records_in(bytes, projection)[i]).body.len() <= records_in(
        bytes,
        projection,
    )[i].record.content_length by {
        lemma_bodies_fit(bytes, projection, i);
    }
}

proof fn lemma_header_behind(
    pairs: Seq<(WarcHeader, Seq<u8>)>,
    last: (WarcHeader, Seq<u8>),
    header: WarcHeader,
)
    ensures
        super::warc_record::header_bytes(pairs.push(last), header)
            == match super::warc_record::header_bytes(pairs, header) {
            Some(value) => Some(value),
            None => if last.0 == header {
                Some(last.1)
            } else {
                None
            },
        },
    decreases pairs.len(),
{
    let more = pairs.push(last);
    if pairs.len() == 0 {
        assert(super::warc_record::header_bytes(more.skip(1), header) is None);
    } else {
        lemma_header_behind(pairs.skip(1), last, header);
        assert(more.skip(1) =~= pairs.skip(1).push(last));
    }
}

proof fn lemma_present_header(
    headers: Seq<WarcHeader>,
    listed: Seq<(Seq<char>, Seq<u8>)>,
    header: WarcHeader,
)
    ensures
        super::warc_record::header_bytes(present_headers(headers, listed), header)
            == if headers.contains(header) {
            header_value(listed, name_of(header))
        } else {
            None
        },
    decreases headers.len(),
{
    if headers.len() > 0 {
        let before = headers.drop_last();
        lemma_present_header(before, listed, header);
        if let Some(value) = header_value(listed, name_of(headers.last())) {
            lemma_header_behind(present_headers(before, listed), (headers.last(), value), header);
        }
        if headers.contains(header) && !before.contains(header) {
            let at = choose|at: int| 0 <= at < headers.len() && headers[at] == header;
            if at < before.len() {
                assert(before[at] == header);
            }
        }
        if before.contains(header) {
            let at = choose|at: int| 0 <= at < before.len() && before[at] == header;
            assert(headers[at] == header);
        }
        if headers.last() == header {
            assert(headers[headers.len() - 1] == header);
        }
    }
}

/// A column that is made of a header holds the value of that header, whatever
/// the other columns are.
pub proof fn law_columns_hold_their_headers(
    bytes: Seq<u8>,
    head: WarcHeadView,
    projection: Seq<usize>,
    at: int,
)
    requires
        0 <= at < projection.len(),
    ensures
        super::warc_record::header_at(projection[at] as int) matches Some(header)
            ==> super::warc_record::header_bytes(
            first_record(bytes, head, projection).headers,
            header,
        ) == header_value(listed_headers(bytes.take(head.size as int)), name_of(header)),
{
    if let Some(header) = super::warc_record::header_at(projection[at] as int) {
        super::warc_batch::lemma_header_is_listed(projection, at);
        lemma_present_header(
            super::warc_record::headers_at(projection),
            listed_headers(bytes.take(head.size as int)),
            header,
        );
    }
}

/// A column of a record has the same value, or the same problem, under any
/// projection that it belongs to.
pub proof fn law_columns_are_independent(
    bytes: Seq<u8>,
    head: WarcHeadView,
    left: Seq<usize>,
    left_at: int,
    right: Seq<usize>,
    right_at: int,
)
    requires
        0 <= left_at < left.len(),
        0 <= right_at < right.len(),
        left[left_at] == right[right_at],
    ensures
        super::warc_batch::cell_at(
            first_arrival(bytes, head, left).record,
            first_arrival(bytes, head, left).body,
            left[left_at] as int,
        ) == super::warc_batch::cell_at(
            first_arrival(bytes, head, right).record,
            first_arrival(bytes, head, right).body,
            right[right_at] as int,
        ),
{
    law_columns_hold_their_headers(bytes, head, left, left_at);
    law_columns_hold_their_headers(bytes, head, right, right_at);
    assert(left.contains(left[left_at]));
    assert(right.contains(right[right_at]));
}

/// The batches of an archive that is called `name`.
pub open spec fn archive_batches(
    name: Seq<char>,
    bytes: Seq<u8>,
    projection: Seq<usize>,
    batch_size: nat,
) -> std::result::Result<Seq<Seq<Seq<Cell>>>, Seq<char>> {
    let read = crate::gzip::contents(bytes, super::warc::names_gzip(name));
    batches_of(read.0, read.1, projection, batch_size)
}

/// A gzipped archive comes to the batches of the plain archive that it holds,
/// and so to the same rows.
pub proof fn law_gzip_changes_nothing(
    plain_name: Seq<char>,
    plain: Seq<u8>,
    gzip_name: Seq<char>,
    gzipped: Seq<u8>,
    projection: Seq<usize>,
    batch_size: nat,
)
    requires
        !super::warc::names_gzip(plain_name),
        super::warc::names_gzip(gzip_name),
        crate::gzip::gunzipped(gzipped) == (plain, None::<crate::gzip::GzipFailureView>),
    ensures
        archive_batches(gzip_name, gzipped, projection, batch_size) == archive_batches(
            plain_name,
            plain,
            projection,
            batch_size,
        ),
{
}

}
