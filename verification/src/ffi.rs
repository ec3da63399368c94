//! What callers in C hand over, as plain values. A text is given by its bytes,
//! and a null pointer by `None`.

use vstd::prelude::*;

use crate::error::{Error, ErrorOrigin, Result};
use crate::error_struct::{at, copy_text};
use crate::sink::lance::{WriteMode, WriteOptions, DEFAULT_TARGET_FILE_SIZE};
use crate::source::huggingface::HuggingFaceSource;
use crate::source::warc::{warc_column, WarcSource, COLUMN_COUNT};
use crate::storage::S3StorageConfig;
use crate::text::{checked_utf8, same_text, signed_decimal, to_chars};

verus! {

/// The error for bytes that are not UTF-8.
pub open spec fn utf8_error(bytes: Seq<u8>) -> crate::error::ErrorView {
    crate::error::caused_error(
        crate::error::ErrorKind::Utf8,
        "UTF-8 decode error"@,
        crate::error_struct::ErrorStatus::Permanent,
        crate::text::utf8_error_text(bytes),
    )
}

/// A text, or the error for it.
pub type TextOutcome = std::result::Result<Seq<char>, crate::error::ErrorView>;

/// The text that bytes hold.
pub open spec fn text_in(bytes: Seq<u8>) -> TextOutcome {
    if vstd::utf8::valid_utf8(bytes) {
        Ok(vstd::utf8::decode_utf8(bytes))
    } else {
        Err(utf8_error(bytes))
    }
}

/// The text that bytes hold.
pub fn required_text(bytes: &Vec<u8>) -> (text: Result<String>)
    ensures
        match text {
            Ok(text) => text_in(bytes@) == TextOutcome::Ok(text@),
            Err(error) => text_in(bytes@) == TextOutcome::Err(error@),
        },
{
    match checked_utf8(bytes.as_slice()) {
        Ok(text) => Ok(text),
        Err(message) => Err(Error::from_component(
            ErrorOrigin::Utf8,
            message,
            at("src/ffi.rs", 48, 29),
        )),
    }
}

/// A text that may be missing, or the error for it.
pub type OptionalOutcome = std::result::Result<Option<Seq<char>>, crate::error::ErrorView>;

/// The text that bytes hold, where there are any. An empty text is no text.
pub open spec fn optional_text_in(bytes: Option<Vec<u8>>) -> OptionalOutcome {
    match bytes {
        None => Ok(None),
        Some(bytes) => match text_in(bytes@) {
            Err(error) => Err(error),
            Ok(text) => if text.len() == 0 {
                Ok(None)
            } else {
                Ok(Some(text))
            },
        },
    }
}

/// The text that bytes hold, where there are any. An empty text is no text.
pub fn optional_string(bytes: &Option<Vec<u8>>) -> (text: Result<Option<String>>)
    ensures
        match text {
            Ok(text) => optional_text_in(*bytes) == OptionalOutcome::Ok(
                crate::error_struct::optional_text(text),
            ),
            Err(error) => optional_text_in(*bytes) == OptionalOutcome::Err(error@),
        },
{
    match bytes {
        None => Ok(None),
        Some(bytes) => match required_text(bytes) {
            Err(error) => Err(error),
            Ok(text) => {
                if text.as_str().unicode_len() == 0 {
                    Ok(None)
                } else {
                    Ok(Some(text))
                }
            },
        },
    }
}

/// Texts, or the error for the first that is none.
pub type TextsOutcome = std::result::Result<Seq<Seq<char>>, crate::error::ErrorView>;

/// The texts of a list, or the error for the first that is none. `missing` is
/// the message for a null pointer.
pub open spec fn texts_in(values: Seq<Option<Vec<u8>>>, missing: Seq<char>) -> TextsOutcome
    decreases values.len(),
{
    if values.len() == 0 {
        Ok(Seq::empty())
    } else {
        match texts_in(values.drop_last(), missing) {
            Err(error) => Err(error),
            Ok(texts) => match values.last() {
                None => Err(crate::error::internal_error(missing)),
                Some(bytes) => match text_in(bytes@) {
                    Err(error) => Err(error),
                    Ok(text) => Ok(texts.push(text)),
                },
            },
        }
    }
}

/// Texts as mathematical values.
pub open spec fn texts_view(texts: Seq<String>) -> Seq<Seq<char>> {
    texts.map_values(|text: String| text@)
}

proof fn lemma_text_failure_stays(values: Seq<Option<Vec<u8>>>, missing: Seq<char>, end: int)
    requires
        0 <= end <= values.len(),
        texts_in(values.take(end), missing) is Err,
    ensures
        texts_in(values, missing) == texts_in(values.take(end), missing),
    decreases values.len() - end,
{
    if end < values.len() {
        assert(values.take(end + 1).drop_last() == values.take(end));
        lemma_text_failure_stays(values, missing, end + 1);
    } else {
        assert(values.take(end) == values);
    }
}

/// The texts of a list.
fn texts(values: &Vec<Option<Vec<u8>>>, missing: &str) -> (texts: Result<Vec<String>>)
    ensures
        match texts {
            Ok(texts) => texts_in(values@, missing@) == TextsOutcome::Ok(texts_view(texts@)),
            Err(error) => texts_in(values@, missing@) == TextsOutcome::Err(error@),
        },
{
    let mut texts: Vec<String> = Vec::new();
    let mut i: usize = 0;
    assert(values@.take(0) =~= Seq::empty());
    assert(texts_view(texts@) =~= Seq::empty());
    while i < values.len()
        invariant
            i <= values@.len(),
            texts_in(values@.take(i as int), missing@) == TextsOutcome::Ok(texts_view(texts@)),
        decreases values@.len() - i,
    {
        assert(values@.take(i + 1).drop_last() == values@.take(i as int));
        let ghost before = texts@;
        match &values[i] {
            None => {
                proof {
                    lemma_text_failure_stays(values@, missing@, i + 1);
                }
                return Err(Error::message(missing.to_owned(), at("src/ffi.rs", 169, 28)));
            },
            Some(bytes) => match required_text(bytes) {
                Err(error) => {
                    proof {
                        lemma_text_failure_stays(values@, missing@, i + 1);
                    }
                    return Err(error);
                },
                Ok(text) => {
                    texts.push(text);
                    assert(texts_view(texts@) =~= texts_view(before).push(text@));
                },
            },
        }
        i += 1;
    }
    assert(values@.take(i as int) == values@);
    Ok(texts)
}

/// A list of texts: how many, and the texts unless the list is a null pointer.
#[derive(Debug)]
pub struct RawList {
    pub count: usize,
    pub values: Option<Vec<Option<Vec<u8>>>>,
}

/// The texts of a list. A list of no texts may be a null pointer.
pub open spec fn list_in(list: RawList) -> TextsOutcome {
    if list.count == 0 {
        Ok(Seq::empty())
    } else {
        match list.values {
            None => Err(crate::error::internal_error("null string list"@)),
            Some(values) => texts_in(values@, "null string list value"@),
        }
    }
}

/// The texts of a list.
pub fn string_list(list: &RawList) -> (texts: Result<Vec<String>>)
    ensures
        match texts {
            Ok(texts) => list_in(*list) == TextsOutcome::Ok(texts_view(texts@)),
            Err(error) => list_in(*list) == TextsOutcome::Err(error@),
        },
{
    if list.count == 0 {
        let empty: Vec<String> = Vec::new();
        assert(texts_view(empty@) =~= Seq::empty());
        return Ok(empty);
    }
    match &list.values {
        None => Err(Error::message("null string list".to_owned(), at("src/ffi.rs", 223, 21))),
        Some(values) => texts(values, "null string list value"),
    }
}

/// How to reach S3-compatible storage, as it is handed over.
#[derive(Debug)]
pub struct LanceS3Config {
    pub endpoint: Option<Vec<u8>>,
    pub region: Option<Vec<u8>>,
    pub key_id: Option<Vec<u8>>,
    pub secret: Option<Vec<u8>>,
    pub session_token: Option<Vec<u8>>,
    pub use_ssl: i32,
    pub virtual_host_style: i32,
}

/// A configuration, or the error for it.
pub type S3Outcome = std::result::Result<
    Option<crate::storage::S3StorageConfigView>,
    crate::error::ErrorView,
>;

/// The configuration that is handed over, or the error for the first text that
/// is none.
pub open spec fn s3_config_in(config: Option<LanceS3Config>) -> S3Outcome {
    match config {
        None => Ok(None),
        Some(config) => match optional_text_in(config.endpoint) {
            Err(error) => Err(error),
            Ok(endpoint) => match optional_text_in(config.region) {
                Err(error) => Err(error),
                Ok(region) => match optional_text_in(config.key_id) {
                    Err(error) => Err(error),
                    Ok(key_id) => match optional_text_in(config.secret) {
                        Err(error) => Err(error),
                        Ok(secret) => match optional_text_in(config.session_token) {
                            Err(error) => Err(error),
                            Ok(session_token) => Ok(
                                Some(
                                    crate::storage::S3StorageConfigView {
                                        endpoint,
                                        region,
                                        key_id,
                                        secret,
                                        session_token,
                                        use_ssl: config.use_ssl != 0,
                                        virtual_host_style: config.virtual_host_style != 0,
                                    },
                                ),
                            ),
                        },
                    },
                },
            },
        },
    }
}

/// An optional configuration as mathematical values.
pub open spec fn s3_view(config: Option<S3StorageConfig>) -> Option<
    crate::storage::S3StorageConfigView,
> {
    match config {
        Some(config) => Some(config@),
        None => None,
    }
}

/// The configuration that is handed over.
pub fn s3_config(config: &Option<LanceS3Config>) -> (storage: Result<Option<S3StorageConfig>>)
    ensures
        match storage {
            Ok(storage) => s3_config_in(*config) == S3Outcome::Ok(s3_view(storage)),
            Err(error) => s3_config_in(*config) == S3Outcome::Err(error@),
        },
{
    let config = match config {
        Some(config) => config,
        None => {
            return Ok(None);
        },
    };
    let endpoint = match optional_string(&config.endpoint) {
        Ok(text) => text,
        Err(error) => {
            return Err(error);
        },
    };
    let region = match optional_string(&config.region) {
        Ok(text) => text,
        Err(error) => {
            return Err(error);
        },
    };
    let key_id = match optional_string(&config.key_id) {
        Ok(text) => text,
        Err(error) => {
            return Err(error);
        },
    };
    let secret = match optional_string(&config.secret) {
        Ok(text) => text,
        Err(error) => {
            return Err(error);
        },
    };
    let session_token = match optional_string(&config.session_token) {
        Ok(text) => text,
        Err(error) => {
            return Err(error);
        },
    };
    Ok(
        Some(
            S3StorageConfig {
                endpoint,
                region,
                key_id,
                secret,
                session_token,
                use_ssl: config.use_ssl != 0,
                virtual_host_style: config.virtual_host_style != 0,
            },
        ),
    )
}

/// A size, or the error for it.
pub type SizeOutcome = std::result::Result<Option<usize>, crate::error::ErrorView>;

/// The size that is handed over: none where it is negative.
pub open spec fn threshold_in(value: i64, name: Seq<char>, allow_zero: bool) -> SizeOutcome {
    if value < 0 {
        Ok(None)
    } else if value == 0 && !allow_zero {
        Err(crate::error::argument_error(name + " must be greater than zero"@))
    } else if value > usize::MAX {
        Err(crate::error::argument_error(name + " exceeds the platform size limit"@))
    } else {
        Ok(Some(value as usize))
    }
}

/// The size that is handed over: none where it is negative.
pub fn optional_threshold(value: i64, name: &str, allow_zero: bool) -> (size: Result<Option<usize>>)
    ensures
        match size {
            Ok(size) => threshold_in(value, name@, allow_zero) == SizeOutcome::Ok(size),
            Err(error) => threshold_in(value, name@, allow_zero) == SizeOutcome::Err(error@),
        },
{
    if value < 0 {
        return Ok(None);
    }
    if value == 0 && !allow_zero {
        let mut message = name.to_owned();
        message.append(" must be greater than zero");
        return Err(Error::invalid_argument(message, at("src/ffi.rs", 381, 20)));
    }
    if value as u64 > usize::MAX as u64 {
        let mut message = name.to_owned();
        message.append(" exceeds the platform size limit");
        return Err(Error::invalid_argument(message, at("src/ffi.rs", 386, 20)));
    }
    Ok(Some(value as usize))
}

/// A write mode, or the error for it.
pub type ModeOutcome = std::result::Result<WriteMode, crate::error::ErrorView>;

/// The write mode that a number stands for.
pub open spec fn mode_in(mode: i32) -> ModeOutcome {
    if mode == 0 {
        Ok(WriteMode::Create)
    } else if mode == 1 {
        Ok(WriteMode::Append)
    } else if mode == 2 {
        Ok(WriteMode::Overwrite)
    } else {
        Err(
            crate::error::argument_error(
                "invalid Lance write mode: "@ + crate::text::signed_text(mode as int),
            ),
        )
    }
}

/// The write mode that a number stands for.
pub fn write_mode(mode: i32) -> (write_mode: Result<WriteMode>)
    ensures
        match write_mode {
            Ok(write_mode) => mode_in(mode) == ModeOutcome::Ok(write_mode),
            Err(error) => mode_in(mode) == ModeOutcome::Err(error@),
        },
{
    match mode {
        0 => Ok(WriteMode::Create),
        1 => Ok(WriteMode::Append),
        2 => Ok(WriteMode::Overwrite),
        _ => {
            let mut message = "invalid Lance write mode: ".to_owned();
            message.append(signed_decimal(mode).as_str());
            Err(Error::invalid_argument(message, at("src/ffi.rs", 426, 17)))
        },
    }
}

/// How a dataset is written, as it is handed over.
#[derive(Debug)]
pub struct LanceWriteConfig {
    pub mode: i32,
    pub blob_inline_size_threshold: i64,
    pub blob_dedicated_size_threshold: i64,
    pub target_file_size: i64,
    pub blob_columns: RawList,
    pub scalar_index_columns: RawList,
    pub vector_index_columns: RawList,
    pub text_index_columns: RawList,
    pub bloom_filter_index_columns: RawList,
}

/// How a dataset is written, as mathematical values.
pub struct WriteOptionsView {
    pub mode: WriteMode,
    pub s3_config: Option<crate::storage::S3StorageConfigView>,
    pub blob_inline_size_threshold: Option<usize>,
    pub blob_dedicated_size_threshold: Option<usize>,
    pub target_file_size: usize,
    pub blob_columns: Seq<Seq<char>>,
    pub scalar_index_columns: Seq<Seq<char>>,
    pub vector_index_columns: Seq<Seq<char>>,
    pub text_index_columns: Seq<Seq<char>>,
    pub bloom_filter_index_columns: Seq<Seq<char>>,
}

/// Options as mathematical values.
pub open spec fn options_view(options: WriteOptions) -> WriteOptionsView {
    WriteOptionsView {
        mode: options.mode,
        s3_config: s3_view(options.s3_config),
        blob_inline_size_threshold: options.blob_inline_size_threshold,
        blob_dedicated_size_threshold: options.blob_dedicated_size_threshold,
        target_file_size: options.target_file_size,
        blob_columns: texts_view(options.blob_columns@),
        scalar_index_columns: texts_view(options.scalar_index_columns@),
        vector_index_columns: texts_view(options.vector_index_columns@),
        text_index_columns: texts_view(options.text_index_columns@),
        bloom_filter_index_columns: texts_view(options.bloom_filter_index_columns@),
    }
}

/// Options, or the error for them.
pub type OptionsOutcome = std::result::Result<WriteOptionsView, crate::error::ErrorView>;

/// The columns that are handed over for one purpose after the other.
pub open spec fn lists_in(config: LanceWriteConfig) -> std::result::Result<
    Seq<Seq<Seq<char>>>,
    crate::error::ErrorView,
> {
    match list_in(config.blob_columns) {
        Err(error) => Err(error),
        Ok(blob) => match list_in(config.scalar_index_columns) {
            Err(error) => Err(error),
            Ok(scalar) => match list_in(config.vector_index_columns) {
                Err(error) => Err(error),
                Ok(vector) => match list_in(config.text_index_columns) {
                    Err(error) => Err(error),
                    Ok(text) => match list_in(config.bloom_filter_index_columns) {
                        Err(error) => Err(error),
                        Ok(bloom) => Ok(seq![blob, scalar, vector, text, bloom]),
                    },
                },
            },
        },
    }
}

/// The options that are handed over, or the error for the first that is
/// unusable.
pub open spec fn options_in(config: LanceWriteConfig, s3: Option<LanceS3Config>) -> OptionsOutcome {
    match mode_in(config.mode) {
        Err(error) => Err(error),
        Ok(mode) => match s3_config_in(s3) {
            Err(error) => Err(error),
            Ok(s3_config) => match threshold_in(
                config.blob_inline_size_threshold,
                "blob inline size threshold"@,
                true,
            ) {
                Err(error) => Err(error),
                Ok(inline_size) => match threshold_in(
                    config.blob_dedicated_size_threshold,
                    "blob dedicated size threshold"@,
                    false,
                ) {
                    Err(error) => Err(error),
                    Ok(dedicated_size) => match threshold_in(
                        config.target_file_size,
                        "target file size"@,
                        false,
                    ) {
                        Err(error) => Err(error),
                        Ok(file_size) => match lists_in(config) {
                            Err(error) => Err(error),
                            Ok(lists) => Ok(
                                WriteOptionsView {
                                    mode,
                                    s3_config,
                                    blob_inline_size_threshold: inline_size,
                                    blob_dedicated_size_threshold: dedicated_size,
                                    target_file_size: match file_size {
                                        Some(size) => size,
                                        None => DEFAULT_TARGET_FILE_SIZE,
                                    },
                                    blob_columns: lists[0],
                                    scalar_index_columns: lists[1],
                                    vector_index_columns: lists[2],
                                    text_index_columns: lists[3],
                                    bloom_filter_index_columns: lists[4],
                                },
                            ),
                        },
                    },
                },
            },
        },
    }
}

/// The options that are handed over.
pub fn write_options(config: &LanceWriteConfig, s3: &Option<LanceS3Config>) -> (options: Result<
    WriteOptions,
>)
    ensures
        match options {
            Ok(options) => options_in(*config, *s3) == OptionsOutcome::Ok(options_view(options)),
            Err(error) => options_in(*config, *s3) == OptionsOutcome::Err(error@),
        },
{
    let mode = match write_mode(config.mode) {
        Ok(mode) => mode,
        Err(error) => {
            return Err(error);
        },
    };
    let s3_config = match s3_config(s3) {
        Ok(s3_config) => s3_config,
        Err(error) => {
            return Err(error);
        },
    };
    let blob_inline_size_threshold = match optional_threshold(
        config.blob_inline_size_threshold,
        "blob inline size threshold",
        true,
    ) {
        Ok(size) => size,
        Err(error) => {
            return Err(error);
        },
    };
    let blob_dedicated_size_threshold = match optional_threshold(
        config.blob_dedicated_size_threshold,
        "blob dedicated size threshold",
        false,
    ) {
        Ok(size) => size,
        Err(error) => {
            return Err(error);
        },
    };
    let target_file_size: usize = match optional_threshold(
        config.target_file_size,
        "target file size",
        false,
    ) {
        Ok(Some(size)) => size,
        Ok(None) => DEFAULT_TARGET_FILE_SIZE,
        Err(error) => {
            return Err(error);
        },
    };
    let blob_columns = match string_list(&config.blob_columns) {
        Ok(columns) => columns,
        Err(error) => {
            return Err(error);
        },
    };
    let scalar_index_columns = match string_list(&config.scalar_index_columns) {
        Ok(columns) => columns,
        Err(error) => {
            return Err(error);
        },
    };
    let vector_index_columns = match string_list(&config.vector_index_columns) {
        Ok(columns) => columns,
        Err(error) => {
            return Err(error);
        },
    };
    let text_index_columns = match string_list(&config.text_index_columns) {
        Ok(columns) => columns,
        Err(error) => {
            return Err(error);
        },
    };
    let bloom_filter_index_columns = match string_list(&config.bloom_filter_index_columns) {
        Ok(columns) => columns,
        Err(error) => {
            return Err(error);
        },
    };
    Ok(
        WriteOptions {
            mode,
            s3_config,
            blob_inline_size_threshold,
            blob_dedicated_size_threshold,
            target_file_size,
            blob_columns,
            scalar_index_columns,
            vector_index_columns,
            text_index_columns,
            bloom_filter_index_columns,
        },
    )
}

/// The first column of WARC records called `name`, from column `from` on.
pub open spec fn column_from(name: Seq<char>, from: int) -> Option<usize>
    decreases COLUMN_COUNT - from,
{
    if from >= COLUMN_COUNT {
        None
    } else if crate::source::warc::column_at(from).name == name {
        Some(from as usize)
    } else {
        column_from(name, from + 1)
    }
}

/// The column of WARC records called `name`.
pub fn warc_column_index(name: &str) -> (index: Option<usize>)
    ensures
        index == column_from(name@, 0),
{
    let mut i: usize = 0;
    while i < COLUMN_COUNT
        invariant
            i <= COLUMN_COUNT,
            column_from(name@, 0) == column_from(name@, i as int),
        decreases COLUMN_COUNT - i,
    {
        if same_text(warc_column(i).name.as_str(), name) {
            return Some(i);
        }
        i += 1;
    }
    None
}

/// Columns, or the error for the first that is none.
pub type ColumnsOutcome = std::result::Result<Seq<usize>, crate::error::ErrorView>;

/// The columns that are named, or the error for the first that is none.
pub open spec fn columns_in(names: Seq<Option<Vec<u8>>>) -> ColumnsOutcome
    decreases names.len(),
{
    if names.len() == 0 {
        Ok(Seq::empty())
    } else {
        match columns_in(names.drop_last()) {
            Err(error) => Err(error),
            Ok(columns) => match names.last() {
                None => Err(crate::error::internal_error("null WARC column name"@)),
                Some(bytes) => match text_in(bytes@) {
                    Err(error) => Err(error),
                    Ok(name) => match column_from(name, 0) {
                        None => Err(crate::error::internal_error("unknown WARC column: "@ + name)),
                        Some(column) => Ok(columns.push(column)),
                    },
                },
            },
        }
    }
}

proof fn lemma_column_failure_stays(names: Seq<Option<Vec<u8>>>, end: int)
    requires
        0 <= end <= names.len(),
        columns_in(names.take(end)) is Err,
    ensures
        columns_in(names) == columns_in(names.take(end)),
    decreases names.len() - end,
{
    if end < names.len() {
        assert(names.take(end + 1).drop_last() == names.take(end));
        lemma_column_failure_stays(names, end + 1);
    } else {
        assert(names.take(end) == names);
    }
}

/// The columns of WARC records that are named.
pub fn warc_projection(names: &Vec<Option<Vec<u8>>>) -> (columns: Result<Vec<usize>>)
    ensures
        match columns {
            Ok(columns) => columns_in(names@) == ColumnsOutcome::Ok(columns@),
            Err(error) => columns_in(names@) == ColumnsOutcome::Err(error@),
        },
{
    let mut columns: Vec<usize> = Vec::new();
    let mut i: usize = 0;
    assert(names@.take(0) =~= Seq::empty());
    while i < names.len()
        invariant
            i <= names@.len(),
            columns_in(names@.take(i as int)) == ColumnsOutcome::Ok(columns@),
        decreases names@.len() - i,
    {
        assert(names@.take(i + 1).drop_last() == names@.take(i as int));
        let name = match &names[i] {
            None => {
                proof {
                    lemma_column_failure_stays(names@, i + 1);
                }
                return Err(Error::message(
                    "null WARC column name".to_owned(),
                    at("src/ffi.rs", 750, 28),
                ));
            },
            Some(bytes) => match required_text(bytes) {
                Ok(name) => name,
                Err(error) => {
                    proof {
                        lemma_column_failure_stays(names@, i + 1);
                    }
                    return Err(error);
                },
            },
        };
        match warc_column_index(name.as_str()) {
            Some(column) => {
                columns.push(column);
            },
            None => {
                proof {
                    lemma_column_failure_stays(names@, i + 1);
                }
                let mut message = "unknown WARC column: ".to_owned();
                message.append(name.as_str());
                return Err(Error::message(message, at("src/ffi.rs", 775, 28)));
            },
        }
        i += 1;
    }
    assert(names@.take(i as int) == names@);
    Ok(columns)
}

/// A text in which a backslash and a zero stand for every null character.
pub open spec fn without_nulls(text: Seq<char>) -> Seq<char>
    decreases text.len(),
{
    if text.len() == 0 {
        Seq::empty()
    } else if text.last() == '\0' {
        without_nulls(text.drop_last()).push('\\').push('0')
    } else {
        without_nulls(text.drop_last()).push(text.last())
    }
}

/// A text that can be handed over: a backslash and a zero stand for every null
/// character, so that none is left.
pub fn escape_nulls(text: &str) -> (escaped: String)
    ensures
        escaped@ == without_nulls(text@),
        forall|i: int| 0 <= i < escaped@.len() ==> #[trigger] escaped@[i] != '\0',
{
    let chars = to_chars(text);
    let mut escaped = String::new();
    let mut i: usize = 0;
    assert(chars@.take(0) =~= Seq::empty());
    while i < chars.len()
        invariant
            i <= chars@.len(),
            escaped@ == without_nulls(chars@.take(i as int)),
            forall|j: int| 0 <= j < escaped@.len() ==> #[trigger] escaped@[j] != '\0',
        decreases chars@.len() - i,
    {
        assert(chars@.take(i + 1).drop_last() == chars@.take(i as int));
        if chars[i] == '\0' {
            escaped.push('\\');
            escaped.push('0');
        } else {
            escaped.push(chars[i]);
        }
        i += 1;
    }
    assert(chars@.take(i as int) == chars@);
    escaped
}

/// What is handed back for an operation: nothing where it succeeded, else the
/// error in words. `None` stands for a panic.
pub fn failure_text(outcome: Option<Result<()>>) -> (text: Option<String>)
    ensures
        match outcome {
            Some(Ok(_)) => text is None,
            Some(Err(error)) => text matches Some(text) && text@ == without_nulls(
                crate::error_struct::details_text(error@.details, error.place()),
            ),
            None => text matches Some(text) && text@ == without_nulls(
                "panic in Lance conversion FFI"@,
            ),
        },
        text matches Some(text) ==> forall|i: int|
            0 <= i < text@.len() ==> #[trigger] text@[i] != '\0',
{
    match outcome {
        Some(Ok(_)) => None,
        Some(Err(error)) => Some(escape_nulls(error.to_text().as_str())),
        None => Some(escape_nulls("panic in Lance conversion FFI")),
    }
}

/// A dataset that streams can be opened of, again and again.
#[derive(Debug)]
pub struct HuggingFaceStreamFactory {
    pub dataset: String,
    pub config: String,
    pub split: String,
    pub token: Option<String>,
}

impl HuggingFaceStreamFactory {
    /// The source of the next stream.
    pub fn source(&self) -> (source: HuggingFaceSource)
        ensures
            source@ == (crate::source::huggingface::HuggingFaceSourceView {
                dataset: self.dataset@,
                config: self.config@,
                split: self.split@,
                token: crate::error_struct::optional_text(self.token),
                batch_size: crate::source::huggingface::DEFAULT_BATCH_SIZE,
                preserve_insertion_order: true,
                read_options: crate::source::SourceReadOptions {
                    max_read_parallelism: crate::source::DEFAULT_MAX_READ_PARALLELISM,
                },
            }),
    {
        let source = HuggingFaceSource::new(self.dataset.clone()).with_config(
            self.config.clone(),
        ).with_split(self.split.clone());
        match copy_text(&self.token) {
            Some(token) => source.with_token(token),
            None => source,
        }
    }
}

/// An archive that streams can be opened of, again and again.
#[derive(Debug)]
pub struct WarcStreamFactory {
    pub path: String,
    pub s3_config: Option<S3StorageConfig>,
}

impl WarcStreamFactory {
    /// The source of a stream of columns.
    pub fn source(&self, projection: Vec<usize>) -> (source: WarcSource)
        ensures
            source@ == (crate::source::warc::WarcSourceView {
                path: self.path@,
                batch_size: crate::source::warc::DEFAULT_BATCH_SIZE,
                s3_config: s3_view(self.s3_config),
                projection: Some(projection@),
                index_path: None,
                max_read_parallelism: crate::source::DEFAULT_MAX_READ_PARALLELISM,
            }),
    {
        let source = WarcSource::new(self.path.clone()).with_projection(projection);
        match &self.s3_config {
            Some(config) => source.with_s3_config(config.clone()),
            None => source,
        }
    }
}

/// Naming a column chooses that column: the columns of WARC records have
/// different names.
pub proof fn law_column_names_choose_columns(index: int)
    requires
        0 <= index < COLUMN_COUNT,
    ensures
        column_from(crate::source::warc::column_at(index).name, 0) == Some(index as usize),
{
    assert forall|other: int| 0 <= other < index implies
        #[trigger] crate::source::warc::column_at(other).name
        != crate::source::warc::column_at(index).name by {
        lemma_names_differ(other, index);
    }
    lemma_column_search(index, 0);
}

proof fn lemma_column_search(index: int, from: int)
    requires
        0 <= from <= index < COLUMN_COUNT,
        forall|other: int|
            0 <= other < index ==> #[trigger] crate::source::warc::column_at(other).name
                != crate::source::warc::column_at(index).name,
    ensures
        column_from(crate::source::warc::column_at(index).name, from) == Some(index as usize),
    decreases index - from,
{
    if from < index {
        assert(crate::source::warc::column_at(from).name
            != crate::source::warc::column_at(index).name);
        lemma_column_search(index, from + 1);
    }
}

proof fn lemma_names_differ(left: int, right: int)
    requires
        0 <= left < right < COLUMN_COUNT,
    ensures
        crate::source::warc::column_at(left).name != crate::source::warc::column_at(right).name,
{
    reveal_strlit("id");
    reveal_strlit("content_length");
    reveal_strlit("date");
    reveal_strlit("type");
    reveal_strlit("content_type");
    reveal_strlit("concurrent_to");
    reveal_strlit("block_digest");
    reveal_strlit("payload_digest");
    reveal_strlit("ip_address");
    reveal_strlit("refers_to");
    reveal_strlit("target_uri");
    reveal_strlit("truncated");
    reveal_strlit("warc_info_id");
    reveal_strlit("filename");
    reveal_strlit("profile");
    reveal_strlit("identified_payload_type");
    reveal_strlit("segment_number");
    reveal_strlit("segment_origin_id");
    reveal_strlit("segment_total_length");
    reveal_strlit("body");
    let a = crate::source::warc::column_at(left).name;
    let b = crate::source::warc::column_at(right).name;
    assert(a.len() != b.len() || a[0] != b[0]);
}

}
