//! What holds of values that are handed over, whatever they are.

use vstd::prelude::*;

use crate::ffi::{LanceS3Config, LanceWriteConfig, RawList};
use crate::sink::lance::WriteMode;

verus! {

/// A text arrives as it was sent, and what is not UTF-8 is refused.
pub proof fn law_texts_arrive(text: Seq<char>, bytes: Seq<u8>)
    ensures
        crate::ffi::text_in(vstd::utf8::encode_utf8(text)) == crate::ffi::TextOutcome::Ok(text),
        match crate::ffi::text_in(bytes) {
            Ok(found) => vstd::utf8::encode_utf8(found) == bytes,
            Err(error) => !vstd::utf8::valid_utf8(bytes) && error.kind
                == crate::error::ErrorKind::Utf8,
        },
{
    broadcast use vstd::utf8::encode_utf8_valid_utf8;
    broadcast use vstd::utf8::encode_utf8_decode_utf8;
    broadcast use vstd::utf8::decode_utf8_encode_utf8;

}

/// An optional text arrives as it was sent. A null pointer and an empty text are
/// no text.
pub proof fn law_optional_texts_arrive(bytes: Vec<u8>, text: Seq<char>)
    requires
        bytes@ == vstd::utf8::encode_utf8(text),
    ensures
        crate::ffi::optional_text_in(None) == crate::ffi::OptionalOutcome::Ok(None),
        crate::ffi::optional_text_in(Some(bytes)) == crate::ffi::OptionalOutcome::Ok(
            if text.len() > 0 {
                Some(text)
            } else {
                None
            },
        ),
{
    law_texts_arrive(text, bytes@);
}

/// What is not UTF-8 is no optional text either.
pub proof fn law_bad_optional_texts_are_refused(bytes: Vec<u8>)
    requires
        !vstd::utf8::valid_utf8(bytes@),
    ensures
        crate::ffi::optional_text_in(Some(bytes)) is Err,
{
}

/// Whether a value is a text.
pub open spec fn is_text(value: Option<Vec<u8>>) -> bool {
    value matches Some(bytes) && vstd::utf8::valid_utf8(bytes@)
}

/// Whether a value holds a text.
pub open spec fn holds(value: Option<Vec<u8>>, text: Seq<char>) -> bool {
    value matches Some(bytes) && bytes@ == vstd::utf8::encode_utf8(text)
}

/// The texts of a list arrive one by one and in order. The list is refused where
/// one of them is none, and only there.
pub proof fn law_lists_arrive(values: Seq<Option<Vec<u8>>>, missing: Seq<char>)
    ensures
        match crate::ffi::texts_in(values, missing) {
            Ok(texts) => texts.len() == values.len() && forall|i: int|
                0 <= i < values.len() ==> holds(#[trigger] values[i], texts[i]),
            Err(_) => exists|i: int| 0 <= i < values.len() && !is_text(#[trigger] values[i]),
        },
    decreases values.len(),
{
    if values.len() > 0 {
        let shorter = values.drop_last();
        law_lists_arrive(shorter, missing);
        assert(values[values.len() - 1] == values.last());
        match crate::ffi::texts_in(values, missing) {
            Ok(texts) => {
                let before = crate::ffi::texts_in(shorter, missing)->Ok_0;
                law_texts_arrive(texts.last(), values.last()->0@);
                assert forall|i: int| 0 <= i < values.len() implies holds(
                    #[trigger] values[i],
                    texts[i],
                ) by {
                    if i < shorter.len() {
                        assert(shorter[i] == values[i]);
                        assert(holds(shorter[i], before[i]));
                    }
                }
            },
            Err(_) => {
                if crate::ffi::texts_in(shorter, missing) is Err {
                    let i = choose|i: int|
                        0 <= i < shorter.len() && !is_text(#[trigger] shorter[i]);
                    assert(!is_text(values[i]));
                } else {
                    assert(!is_text(values[values.len() - 1]));
                }
            },
        }
    }
}

/// A list of no texts is empty, whether or not it is a null pointer. Another list
/// is that of its texts, and no null pointer.
pub proof fn law_lists_have_values(list: RawList)
    ensures
        list.count == 0 ==> crate::ffi::list_in(list) == crate::ffi::TextsOutcome::Ok(
            Seq::empty(),
        ),
        list.count > 0 && list.values is None ==> crate::ffi::list_in(list) is Err,
        list.count > 0 && list.values is Some ==> match crate::ffi::list_in(list) {
            Ok(texts) => texts.len() == list.values->0@.len() && forall|i: int|
                0 <= i < texts.len() ==> holds(#[trigger] list.values->0@[i], texts[i]),
            Err(_) => exists|i: int|
                0 <= i < list.values->0@.len() && !is_text(#[trigger] list.values->0@[i]),
        },
{
    if list.values is Some {
        law_lists_arrive(list.values->0@, "null string list value"@);
    }
}

/// A size arrives as it was sent. A negative one is no size, and zero is one only
/// where it is allowed.
pub proof fn law_sizes_arrive(value: i64, size: usize, name: Seq<char>, allow_zero: bool)
    ensures
        value < 0 ==> crate::ffi::threshold_in(value, name, allow_zero)
            == crate::ffi::SizeOutcome::Ok(None),
        value == size && (size > 0 || allow_zero) ==> crate::ffi::threshold_in(
            value,
            name,
            allow_zero,
        ) == crate::ffi::SizeOutcome::Ok(Some(size)),
        value == 0 && !allow_zero ==> crate::ffi::threshold_in(value, name, allow_zero) is Err,
        value > usize::MAX ==> crate::ffi::threshold_in(value, name, allow_zero) is Err,
{
}

/// Zero, one and two stand for the write modes, and other numbers for none.
pub proof fn law_modes_are_numbered(mode: i32)
    ensures
        crate::ffi::mode_in(mode) == crate::ffi::ModeOutcome::Ok(WriteMode::Create) <==> mode == 0,
        crate::ffi::mode_in(mode) == crate::ffi::ModeOutcome::Ok(WriteMode::Append) <==> mode == 1,
        crate::ffi::mode_in(mode) == crate::ffi::ModeOutcome::Ok(WriteMode::Overwrite) <==> mode
            == 2,
        crate::ffi::mode_in(mode) is Err <==> mode < 0 || mode > 2,
{
}

/// A configuration arrives field by field. It is refused where one of its texts
/// is, and only there.
pub proof fn law_configurations_arrive(config: LanceS3Config)
    ensures
        match crate::ffi::s3_config_in(Some(config)) {
            Ok(Some(found)) => {
                &&& crate::ffi::optional_text_in(config.endpoint)
                    == crate::ffi::OptionalOutcome::Ok(found.endpoint)
                &&& crate::ffi::optional_text_in(config.region)
                    == crate::ffi::OptionalOutcome::Ok(found.region)
                &&& crate::ffi::optional_text_in(config.key_id)
                    == crate::ffi::OptionalOutcome::Ok(found.key_id)
                &&& crate::ffi::optional_text_in(config.secret)
                    == crate::ffi::OptionalOutcome::Ok(found.secret)
                &&& crate::ffi::optional_text_in(config.session_token)
                    == crate::ffi::OptionalOutcome::Ok(found.session_token)
                &&& found.use_ssl <==> config.use_ssl != 0
                &&& found.virtual_host_style <==> config.virtual_host_style != 0
            },
            Ok(None) => false,
            Err(_) => {
                ||| crate::ffi::optional_text_in(config.endpoint) is Err
                ||| crate::ffi::optional_text_in(config.region) is Err
                ||| crate::ffi::optional_text_in(config.key_id) is Err
                ||| crate::ffi::optional_text_in(config.secret) is Err
                ||| crate::ffi::optional_text_in(config.session_token) is Err
            },
        },
        crate::ffi::s3_config_in(None) == crate::ffi::S3Outcome::Ok(None),
{
}

/// Options arrive field by field, and a dataset has files of half a gibibyte
/// unless a size is given. Options are refused where one of them is, and only
/// there. Zero is a size for blobs that are stored inline, and no other.
pub proof fn law_options_arrive(config: LanceWriteConfig, s3: Option<LanceS3Config>)
    ensures
        match crate::ffi::options_in(config, s3) {
            Ok(options) => {
                &&& crate::ffi::mode_in(config.mode) == crate::ffi::ModeOutcome::Ok(options.mode)
                &&& crate::ffi::s3_config_in(s3) == crate::ffi::S3Outcome::Ok(options.s3_config)
                &&& config.blob_inline_size_threshold < 0
                    <==> options.blob_inline_size_threshold is None
                &&& options.blob_inline_size_threshold matches Some(size) ==> size
                    == config.blob_inline_size_threshold
                &&& config.blob_dedicated_size_threshold < 0
                    <==> options.blob_dedicated_size_threshold is None
                &&& options.blob_dedicated_size_threshold matches Some(size) ==> size
                    == config.blob_dedicated_size_threshold && size > 0
                &&& config.target_file_size < 0 ==> options.target_file_size == 536870912
                &&& config.target_file_size >= 0 ==> options.target_file_size
                    == config.target_file_size && options.target_file_size > 0
                &&& crate::ffi::list_in(config.blob_columns) == crate::ffi::TextsOutcome::Ok(
                    options.blob_columns,
                )
                &&& crate::ffi::list_in(config.scalar_index_columns)
                    == crate::ffi::TextsOutcome::Ok(options.scalar_index_columns)
                &&& crate::ffi::list_in(config.vector_index_columns)
                    == crate::ffi::TextsOutcome::Ok(options.vector_index_columns)
                &&& crate::ffi::list_in(config.text_index_columns)
                    == crate::ffi::TextsOutcome::Ok(options.text_index_columns)
                &&& crate::ffi::list_in(config.bloom_filter_index_columns)
                    == crate::ffi::TextsOutcome::Ok(options.bloom_filter_index_columns)
            },
            Err(_) => {
                ||| config.mode < 0 || config.mode > 2
                ||| crate::ffi::s3_config_in(s3) is Err
                ||| config.blob_inline_size_threshold > usize::MAX
                ||| config.blob_dedicated_size_threshold == 0
                ||| config.blob_dedicated_size_threshold > usize::MAX
                ||| config.target_file_size == 0
                ||| config.target_file_size > usize::MAX
                ||| crate::ffi::list_in(config.blob_columns) is Err
                ||| crate::ffi::list_in(config.scalar_index_columns) is Err
                ||| crate::ffi::list_in(config.vector_index_columns) is Err
                ||| crate::ffi::list_in(config.text_index_columns) is Err
                ||| crate::ffi::list_in(config.bloom_filter_index_columns) is Err
            },
        },
{
}

/// Columns that are found have the name that was asked for. Only a name that no
/// column has is not found.
pub proof fn law_found_columns_have_the_name(name: Seq<char>, from: int)
    requires
        0 <= from,
    ensures
        match crate::ffi::column_from(name, from) {
            Some(column) => from <= column < 20 && crate::source::warc::column_at(
                column as int,
            ).name == name,
            None => forall|other: int|
                from <= other < 20 ==> #[trigger] crate::source::warc::column_at(other).name
                    != name,
        },
    decreases 20 - from,
{
    if from < 20 && crate::source::warc::column_at(from).name != name {
        law_found_columns_have_the_name(name, from + 1);
    }
}

/// Whether a value names a column.
pub open spec fn names(value: Option<Vec<u8>>, column: int) -> bool {
    0 <= column < 20 && holds(value, crate::source::warc::column_at(column).name)
}

/// Whether a value names no column.
pub open spec fn names_nothing(value: Option<Vec<u8>>) -> bool {
    forall|column: int| !#[trigger] names(value, column)
}

/// The columns that are named are chosen one by one and in order. A choice is
/// refused where one of the names is none, and only there.
pub proof fn law_columns_are_chosen_in_order(values: Seq<Option<Vec<u8>>>)
    ensures
        match crate::ffi::columns_in(values) {
            Ok(columns) => columns.len() == values.len() && forall|i: int|
                0 <= i < values.len() ==> names(#[trigger] values[i], columns[i] as int),
            Err(_) => exists|i: int| 0 <= i < values.len() && names_nothing(#[trigger] values[i]),
        },
    decreases values.len(),
{
    if values.len() > 0 {
        let shorter = values.drop_last();
        let at = values.len() - 1;
        law_columns_are_chosen_in_order(shorter);
        assert(values[at] == values.last());
        match crate::ffi::columns_in(values) {
            Ok(columns) => {
                let before = crate::ffi::columns_in(shorter)->Ok_0;
                let name = crate::ffi::text_in(values.last()->0@)->Ok_0;
                law_texts_arrive(name, values.last()->0@);
                law_found_columns_have_the_name(name, 0);
                assert forall|i: int| 0 <= i < values.len() implies names(
                    #[trigger] values[i],
                    columns[i] as int,
                ) by {
                    if i < shorter.len() {
                        assert(shorter[i] == values[i]);
                        assert(names(shorter[i], before[i] as int));
                    }
                }
            },
            Err(_) => {
                if crate::ffi::columns_in(shorter) is Err {
                    let i = choose|i: int|
                        0 <= i < shorter.len() && names_nothing(#[trigger] shorter[i]);
                    assert(names_nothing(values[i]));
                } else {
                    assert forall|column: int| !#[trigger] names(values[at], column) by {
                        if names(values[at], column) {
                            let name = crate::source::warc::column_at(column).name;
                            law_texts_arrive(name, values.last()->0@);
                            law_found_columns_have_the_name(name, 0);
                        }
                    }
                    assert(names_nothing(values[at]));
                }
            },
        }
    }
}

/// Null characters are replaced one by one, and nothing else is.
pub proof fn law_nulls_are_replaced(front: Seq<char>, rest: Seq<char>)
    ensures
        crate::ffi::without_nulls(front + rest) == crate::ffi::without_nulls(front)
            + crate::ffi::without_nulls(rest),
        crate::ffi::without_nulls(seq!['\0']) == seq!['\\', '0'],
        crate::text_laws::lacks(front, '\0') ==> crate::ffi::without_nulls(front) == front,
    decreases front.len() + rest.len(),
{
    let null = seq!['\0'];
    assert(null.drop_last() =~= Seq::empty());
    assert(crate::ffi::without_nulls(null.drop_last()) =~= Seq::empty());
    assert(crate::ffi::without_nulls(null) =~= seq!['\\', '0']);
    if rest.len() == 0 {
        assert(front + rest =~= front);
        assert(crate::ffi::without_nulls(rest) =~= Seq::empty());
        assert(crate::ffi::without_nulls(front) + crate::ffi::without_nulls(rest)
            =~= crate::ffi::without_nulls(front));
    } else {
        let shorter = rest.drop_last();
        law_nulls_are_replaced(front, shorter);
        assert((front + rest).drop_last() =~= front + shorter);
        assert((front + rest).last() == rest.last());
        assert(crate::ffi::without_nulls(front + rest) =~= crate::ffi::without_nulls(front)
            + crate::ffi::without_nulls(rest));
    }
    if crate::text_laws::lacks(front, '\0') {
        lemma_nothing_to_replace(front);
    }
}

proof fn lemma_nothing_to_replace(text: Seq<char>)
    requires
        crate::text_laws::lacks(text, '\0'),
    ensures
        crate::ffi::without_nulls(text) == text,
    decreases text.len(),
{
    if text.len() > 0 {
        let shorter = text.drop_last();
        assert forall|i: int| 0 <= i < shorter.len() implies #[trigger] shorter[i] != '\0' by {
            assert(shorter[i] == text[i]);
        }
        lemma_nothing_to_replace(shorter);
        assert(text.last() == text[text.len() - 1]);
        assert(shorter.push(text.last()) =~= text);
    }
}

}
