//! What holds of indexes of archives, whatever they list.

use vstd::prelude::*;

use super::warc_index::LineOutcome;
use super::work_units::WarcIndexEntry;
use crate::json::JsonFieldView;

verus! {

/// An index that names a file speaks of every archive of that name, whatever the
/// directories of the two are.
pub proof fn law_archives_are_known_by_their_names(
    directory: Seq<char>,
    listed_directory: Seq<char>,
    name: Seq<char>,
)
    requires
        crate::text_laws::is_file_name(name),
    ensures
        super::warc_index::filename_matches(
            directory.push('/') + name,
            listed_directory.push('/') + name,
        ),
        super::warc_index::filename_matches(directory.push('/') + name, name),
        super::warc_index::filename_matches(name, listed_directory.push('/') + name),
        super::warc_index::filename_matches(name, name),
{
    crate::text_laws::law_file_name_is_the_last_part(directory, name);
    crate::text_laws::law_file_name_is_the_last_part(listed_directory, name);
}

/// An index that names another file says nothing about an archive, unless the
/// path of the archive ends in what the index names.
pub proof fn law_other_archives_are_passed_over(
    directory: Seq<char>,
    name: Seq<char>,
    listed_directory: Seq<char>,
    listed_name: Seq<char>,
)
    requires
        crate::text_laws::is_file_name(name),
        crate::text_laws::is_file_name(listed_name),
        name != listed_name,
    ensures
        super::warc_index::filename_matches(
            directory.push('/') + name,
            listed_directory.push('/') + listed_name,
        ) <==> (listed_directory.push('/') + listed_name).is_suffix_of(directory.push('/') + name),
        super::warc_index::filename_matches(directory.push('/') + name, listed_name)
            <==> listed_name.is_suffix_of(name),
{
    crate::text_laws::law_file_name_is_the_last_part(directory, name);
    crate::text_laws::law_file_name_is_the_last_part(listed_directory, listed_name);
    let path = directory.push('/') + name;
    let length = listed_name.len() as int;
    let count = path.len() as int;
    if listed_name.is_suffix_of(path) && listed_name.len() <= name.len() {
        assert(name.subrange(name.len() - length, name.len() as int) =~= path.subrange(
            count - length,
            count,
        ));
    }
    if listed_name.is_suffix_of(path) && listed_name.len() > name.len() {
        assert(path.subrange(count - length, count)[length - name.len() - 1] == '/');
    }
    if listed_name.is_suffix_of(name) {
        assert(name.subrange(name.len() - length, name.len() as int) =~= path.subrange(
            count - length,
            count,
        ));
    }
}

/// Whether a member holds a number: as a number, or as its digits.
pub open spec fn holds(
    members: Seq<(Seq<char>, JsonFieldView)>,
    name: Seq<char>,
    number: u64,
) -> bool {
    ||| crate::json::member_of(members, name) == Some(JsonFieldView::Number(number))
    ||| crate::json::member_of(members, name) matches Some(JsonFieldView::Text(text))
        && crate::text::u64_value(text) == Some(number)
}

/// Whether an object says nothing of a file, or names one that the archive is
/// known by.
pub open spec fn concerns(
    members: Seq<(Seq<char>, JsonFieldView)>,
    source_path: Seq<char>,
) -> bool {
    crate::json::member_of(members, "filename"@) matches Some(JsonFieldView::Text(filename))
        ==> super::warc_index::filename_matches(source_path, filename)
}

/// An object that concerns the archive lists the record at its offset, of its
/// length, which is not zero. An object that does not is passed over.
pub proof fn law_objects_list_their_ranges(
    members: Seq<(Seq<char>, JsonFieldView)>,
    source_path: Seq<char>,
    line_number: nat,
    offset: u64,
    length: u64,
)
    ensures
        concerns(members, source_path) && holds(members, "offset"@, offset) && holds(
            members,
            "length"@,
            length,
        ) && length > 0 ==> super::warc_index::object_outcome(members, source_path, line_number)
            == LineOutcome::Listed(WarcIndexEntry { offset, length }),
        concerns(members, source_path) && holds(members, "length"@, 0)
            ==> super::warc_index::object_outcome(
            members,
            source_path,
            line_number,
        ) is Refused,
        !concerns(members, source_path) ==> super::warc_index::object_outcome(
            members,
            source_path,
            line_number,
        ) is Skipped,
        super::warc_index::object_outcome(members, source_path, line_number) == LineOutcome::Listed(
            WarcIndexEntry { offset, length },
        ) ==> concerns(members, source_path) && holds(members, "offset"@, offset) && holds(
            members,
            "length"@,
            length,
        ) && length > 0,
        super::warc_index::object_outcome(members, source_path, line_number) is Skipped
            ==> !concerns(members, source_path),
{
}

/// A member is found by its name: it is the first that is called so.
pub proof fn law_member_is_found_by_name(
    before: Seq<(Seq<char>, JsonFieldView)>,
    name: Seq<char>,
    field: JsonFieldView,
    after: Seq<(Seq<char>, JsonFieldView)>,
)
    requires
        forall|i: int| 0 <= i < before.len() ==> (#[trigger] before[i]).0 != name,
    ensures
        crate::json::member_of(before.push((name, field)) + after, name) == Some(field),
        crate::json::member_of(before, name) is None,
    decreases before.len(),
{
    let members = before.push((name, field)) + after;
    if before.len() > 0 {
        let shorter = before.skip(1);
        assert(members.skip(1) =~= shorter.push((name, field)) + after);
        assert forall|i: int| 0 <= i < shorter.len() implies (#[trigger] shorter[i]).0 != name by {
            assert(shorter[i] == before[i + 1]);
        }
        law_member_is_found_by_name(shorter, name, field, after);
        assert(before[0].0 != name);
        assert(members[0] == before[0]);
    }
}

/// What stands in front of the first brace of a line, such as the key and the
/// time of a CDXJ line, makes no difference, and neither does white space around
/// the line.
pub proof fn law_keys_in_front_make_no_difference(
    white_before: Seq<char>,
    key: Seq<char>,
    rest: Seq<char>,
    white_after: Seq<char>,
    source_path: Seq<char>,
    line_number: nat,
)
    requires
        crate::text_laws::all_white(white_before),
        crate::text_laws::all_white(white_after),
        crate::text_laws::lacks(key, '{'),
        key.len() > 0 ==> key[0] != '#' && !crate::text::is_white(key[0]),
        rest.len() > 0 ==> !crate::text::is_white(rest.last()),
    ensures
        super::warc_index::text_outcome(
            white_before + (key + seq!['{'] + rest) + white_after,
            source_path,
            line_number,
        ) == super::warc_index::text_outcome(seq!['{'] + rest, source_path, line_number),
        crate::json::json_members(seq!['{'] + rest) matches Ok(members)
            ==> super::warc_index::text_outcome(seq!['{'] + rest, source_path, line_number)
            == super::warc_index::object_outcome(members, source_path, line_number),
        crate::json::json_members(seq!['{'] + rest) is Err
            ==> super::warc_index::text_outcome(
            seq!['{'] + rest,
            source_path,
            line_number,
        ) is Refused,
{
    let text = key + seq!['{'] + rest;
    let none = Seq::<char>::empty();
    let json = seq!['{'] + rest;
    crate::text_laws::law_trimming_keeps_the_text(white_before, text, white_after);
    assert(none + json + none =~= json);
    crate::text_laws::law_trimming_keeps_the_text(none, json, none);
    crate::text_laws::law_found_from_the_first(key, '{', rest);
    assert(none + seq!['{'] + rest =~= json);
    crate::text_laws::law_found_from_the_first(none, '{', rest);
}

/// Blank lines and comments are passed over. A line without a brace that is
/// neither is refused.
pub proof fn law_comments_are_passed_over(
    white_before: Seq<char>,
    text: Seq<char>,
    white_after: Seq<char>,
    source_path: Seq<char>,
    line_number: nat,
)
    requires
        crate::text_laws::all_white(white_before),
        crate::text_laws::all_white(white_after),
        text.len() > 0 ==> !crate::text::is_white(text[0]) && !crate::text::is_white(
            text.last(),
        ),
    ensures
        text.len() == 0 || text[0] == '#' ==> super::warc_index::text_outcome(
            white_before + text + white_after,
            source_path,
            line_number,
        ) is Skipped,
        text.len() > 0 && text[0] != '#' && crate::text_laws::lacks(text, '{')
            ==> super::warc_index::text_outcome(
            white_before + text + white_after,
            source_path,
            line_number,
        ) is Refused,
{
    crate::text_laws::law_trimming_keeps_the_text(white_before, text, white_after);
    if crate::text_laws::lacks(text, '{') {
        crate::text_laws::law_found_from_the_first(text, '{', Seq::empty());
    }
}

/// Whether bytes hold no line feed.
pub open spec fn one_line(bytes: Seq<u8>) -> bool {
    forall|i: int| 0 <= i < bytes.len() ==> #[trigger] bytes[i] != 10
}

proof fn lemma_line_feed_behind(line: Seq<u8>, rest: Seq<u8>)
    requires
        one_line(line),
    ensures
        super::warc_index::line_feed(line.push(10) + rest) == line.len(),
        super::warc_index::line_feed(line) == -1,
    decreases line.len(),
{
    let bytes = line.push(10) + rest;
    if line.len() > 0 {
        let shorter = line.skip(1);
        assert forall|i: int| 0 <= i < shorter.len() implies #[trigger] shorter[i] != 10 by {
            assert(shorter[i] == line[i + 1]);
        }
        lemma_line_feed_behind(shorter, rest);
        assert(bytes.skip(1) =~= shorter.push(10) + rest);
        assert(line[0] != 10);
        assert(bytes[0] == line[0]);
    }
}

/// The lines of an index are read one after the other: each is passed over, adds
/// its entry behind those before, or ends the reading.
pub proof fn law_lines_follow_one_another(
    so_far: Seq<WarcIndexEntry>,
    line_number: nat,
    line: Seq<u8>,
    rest: Seq<u8>,
    failure: Option<crate::gzip::GzipFailureView>,
    source_path: Seq<char>,
)
    requires
        one_line(line),
        line.len() > 0 ==> line.last() != 13,
    ensures
        super::warc_index::rest_of_index(
            so_far,
            line_number,
            line.push(10) + rest,
            failure,
            source_path,
        ) == match super::warc_index::line_outcome(line, source_path, line_number + 1) {
            LineOutcome::Skipped => super::warc_index::rest_of_index(
                so_far,
                line_number + 1,
                rest,
                failure,
                source_path,
            ),
            LineOutcome::Listed(entry) => super::warc_index::rest_of_index(
                so_far.push(entry),
                line_number + 1,
                rest,
                failure,
                source_path,
            ),
            LineOutcome::Refused(message) => Err(message),
        },
        super::warc_index::rest_of_index(
            so_far,
            line_number,
            line.push(13).push(10) + rest,
            failure,
            source_path,
        ) == super::warc_index::rest_of_index(
            so_far,
            line_number,
            line.push(10) + rest,
            failure,
            source_path,
        ),
        super::warc_index::rest_of_index(so_far, line_number, Seq::empty(), None, source_path)
            == Ok::<Seq<WarcIndexEntry>, Seq<char>>(so_far),
{
    let bytes = line.push(10) + rest;
    lemma_line_feed_behind(line, rest);
    assert(bytes.take(line.len() as int) =~= line);
    assert(bytes.skip(line.len() as int + 1) =~= rest);
    let returned = line.push(13);
    let more = returned.push(10) + rest;
    lemma_line_feed_behind(returned, rest);
    assert(more.take(returned.len() as int) =~= returned);
    assert(returned.drop_last() =~= line);
    assert(more.skip(returned.len() as int + 1) =~= rest);
    lemma_line_feed_behind(Seq::empty(), rest);
}

/// The last line of an index may end in a line feed or not.
pub proof fn law_last_line_feed_is_optional(
    so_far: Seq<WarcIndexEntry>,
    line_number: nat,
    line: Seq<u8>,
    source_path: Seq<char>,
)
    requires
        one_line(line),
        line.len() > 0,
        line.last() != 13,
    ensures
        super::warc_index::rest_of_index(so_far, line_number, line, None, source_path)
            == super::warc_index::rest_of_index(
            so_far,
            line_number,
            line.push(10),
            None,
            source_path,
        ),
{
    let none = Seq::<u8>::empty();
    law_lines_follow_one_another(so_far, line_number, line, none, None, source_path);
    assert(line.push(10) + none =~= line.push(10));
    lemma_line_feed_behind(line, none);
    match super::warc_index::line_outcome(line, source_path, line_number + 1) {
        LineOutcome::Listed(entry) => {
            law_lines_follow_one_another(
                so_far.push(entry),
                line_number + 1,
                line,
                none,
                None,
                source_path,
            );
            assert(super::warc_index::rest_of_index(
                so_far.push(entry),
                line_number + 1,
                none,
                None,
                source_path,
            ) == Ok::<Seq<WarcIndexEntry>, Seq<char>>(so_far.push(entry)));
        },
        _ => {
            law_lines_follow_one_another(
                so_far,
                line_number + 1,
                line,
                none,
                None,
                source_path,
            );
        },
    }
}

/// A line of a CDXJ index that names a file lists its record for every archive of
/// that name: the index is accepted, and has that one entry.
pub proof fn law_published_index_serves_a_copy(
    directory: Seq<char>,
    listed_directory: Seq<char>,
    name: Seq<char>,
    key: Seq<char>,
    rest: Seq<char>,
    members: Seq<(Seq<char>, JsonFieldView)>,
    offset: u64,
    length: u64,
)
    requires
        crate::text_laws::is_file_name(name),
        crate::text_laws::lacks(key, '{'),
        key.len() > 0 ==> key[0] != '#' && !crate::text::is_white(key[0]),
        rest.len() > 0 ==> !crate::text::is_white(rest.last()),
        one_line(vstd::utf8::encode_utf8(key + seq!['{'] + rest)),
        vstd::utf8::encode_utf8(key + seq!['{'] + rest).last() != 13,
        crate::json::json_members(seq!['{'] + rest) == Ok::<
            Seq<(Seq<char>, JsonFieldView)>,
            Seq<char>,
        >(members),
        crate::json::member_of(members, "filename"@) == Some(
            JsonFieldView::Text(listed_directory.push('/') + name),
        ),
        holds(members, "offset"@, offset),
        holds(members, "length"@, length),
        length > 0,
    ensures
        super::warc_index::index_entries(
            vstd::utf8::encode_utf8(key + seq!['{'] + rest).push(10),
            None,
            directory.push('/') + name,
        ) == Ok::<Seq<WarcIndexEntry>, Seq<char>>(seq![WarcIndexEntry { offset, length }]),
{
    broadcast use vstd::utf8::encode_utf8_decode_utf8;
    broadcast use vstd::utf8::encode_utf8_valid_utf8;

    let text = key + seq!['{'] + rest;
    let line = vstd::utf8::encode_utf8(text);
    let path = directory.push('/') + name;
    let none = Seq::<char>::empty();
    law_archives_are_known_by_their_names(directory, listed_directory, name);
    law_keys_in_front_make_no_difference(none, key, rest, none, path, 1);
    assert(none + text + none =~= text);
    law_objects_list_their_ranges(members, path, 1, offset, length);
    assert(vstd::utf8::decode_utf8(line) == text);
    let entry = WarcIndexEntry { offset, length };
    assert(super::warc_index::line_outcome(line, path, 1) == LineOutcome::Listed(entry));
    let empty = Seq::<WarcIndexEntry>::empty();
    assert(line.push(10) + Seq::<u8>::empty() =~= line.push(10));
    law_lines_follow_one_another(empty, 0, line, Seq::empty(), None, path);
    law_lines_follow_one_another(empty.push(entry), 1, line, Seq::empty(), None, path);
    assert(empty.push(entry) =~= seq![entry]);
}

/// An index that cannot be read beyond some line is refused, and so is one
/// without any entry for the archive.
pub proof fn law_index_needs_an_entry(
    bytes: Seq<u8>,
    failure: Option<crate::gzip::GzipFailureView>,
    source_path: Seq<char>,
)
    ensures
        failure is Some ==> super::warc_index::index_entries(bytes, failure, source_path) is Err,
        super::warc_index::index_entries(bytes, failure, source_path) matches Ok(entries)
            ==> entries.len() > 0,
        super::warc_index::index_entries(Seq::empty(), None, source_path) is Err,
{
    if let Some(failure) = failure {
        super::warc_index::law_unreadable_index_is_refused(
            Seq::empty(),
            0,
            bytes,
            failure,
            source_path,
        );
    }
    lemma_line_feed_behind(Seq::empty(), Seq::empty());
}

/// What a line comes to is what is said of it: passed over, listed as it is, or
/// refused for the same reason.
pub proof fn law_lines_are_told(
    result: crate::error::Result<Option<WarcIndexEntry>>,
    outcome: super::warc_index::LineOutcome,
)
    requires
        super::warc_index::tells_outcome(result, outcome),
    ensures
        outcome is Skipped ==> (result matches Ok(found) && found is None),
        outcome matches super::warc_index::LineOutcome::Listed(entry) ==> (result matches Ok(found)
            && found == Some(entry)),
        outcome matches super::warc_index::LineOutcome::Refused(message) ==> (result matches Err(
            error,
        ) && error@.details.message == message),
{
}

/// The entries that an index lists are told one by one and in order, or the reason
/// why there are none.
pub proof fn law_entries_are_told(
    result: crate::error::Result<Vec<WarcIndexEntry>>,
    expected: std::result::Result<Seq<WarcIndexEntry>, Seq<char>>,
)
    requires
        super::warc_index::tells_entries(result, expected),
    ensures
        expected matches Ok(entries) ==> (result matches Ok(found) && found@ == entries),
        expected matches Err(message) ==> (result matches Err(error) && error@.details.message
            == message),
{
}

/// A message about a line names the line by its number, between what is said
/// before and after.
pub proof fn law_messages_name_the_line(before: Seq<char>, line_number: u64, after: Seq<char>)
    ensures
        ({
            let message = super::warc_index::line_message(before, line_number as nat, after);
            &&& before.is_prefix_of(message)
            &&& after.is_suffix_of(message)
            &&& before.len() + after.len() < message.len()
            &&& crate::text::u64_value(
                message.subrange(before.len() as int, message.len() - after.len()),
            ) == Some(line_number)
        }),
{
    let number = crate::text::decimal_text(line_number as nat);
    let message = super::warc_index::line_message(before, line_number as nat, after);
    crate::text_laws::law_written_numbers_are_read_back(line_number);
    assert(message.subrange(0, before.len() as int) =~= before);
    assert(message.subrange(message.len() - after.len(), message.len() as int) =~= after);
    assert(message.subrange(before.len() as int, message.len() - after.len()) =~= number);
}

}
