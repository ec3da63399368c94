//! Arrow columns and batches of WARC records.

use std::sync::Arc;

use arrow_array::builder::{
    BinaryViewBuilder, StringBuilder, TimestampMillisecondBuilder, UInt64Builder,
};
use arrow_array::{ArrayRef, RecordBatch};
use arrow_schema::{DataType, Field, Schema, TimeUnit};
use vstd::prelude::*;

verus! {

/// A value in a column.
pub enum Cell {
    Text(Option<Seq<char>>),
    Count(Option<u64>),
    Millis(i64),
    Body(Seq<u8>),
}

/// The type of a column.
#[derive(Clone, Copy, Debug, PartialEq, Eq, Structural)]
pub enum ColumnType {
    Utf8,
    UInt64,
    TimestampMillisecond,
    BinaryView,
}

/// The number of bytes that texts take up in UTF-8.
pub open spec fn text_size(cells: Seq<Option<Seq<char>>>) -> nat
    decreases cells.len(),
{
    if cells.len() == 0 {
        0
    } else {
        text_size(cells.drop_last()) + match cells.last() {
            Some(text) => vstd::utf8::encode_utf8(text).len(),
            None => 0,
        }
    }
}

/// A column of texts under construction.
#[verifier::external_body]
pub struct TextColumn {
    builder: StringBuilder,
}

/// The texts in an `arrow_array::builder::StringBuilder`.
pub uninterp spec fn text_cells(column: TextColumn) -> Seq<Option<Seq<char>>>;

/// Calls `arrow_array::builder::StringBuilder::with_capacity`, which makes a
/// builder without values. The room asked for, so many texts and so many bytes,
/// has to fit in the address space.
#[verifier::external_body]
pub(crate) fn new_text_column(capacity: usize, bytes: usize) -> (column: TextColumn)
    requires
        capacity * 32 <= isize::MAX,
        bytes <= isize::MAX,
    ensures
        text_cells(column) == Seq::<Option<Seq<char>>>::empty(),
{
    TextColumn { builder: StringBuilder::with_capacity(capacity, bytes) }
}

/// The characters of an optional text.
pub open spec fn optional_chars(text: Option<&str>) -> Option<Seq<char>> {
    match text {
        Some(text) => Some(text@),
        None => None,
    }
}

/// Calls `arrow_array::builder::StringBuilder::append_option`, which adds a text
/// or a null at the end. The texts together have to fit in offsets of 32 bits.
#[verifier::external_body]
pub(crate) fn append_optional_text(column: &mut TextColumn, text: Option<&str>)
    requires
        text_size(text_cells(*old(column)).push(optional_chars(text))) <= i32::MAX,
    ensures
        text_cells(*final(column)) == text_cells(*old(column)).push(optional_chars(text)),
{
    column.builder.append_option(text);
}

/// A column of counts under construction.
#[verifier::external_body]
pub struct CountColumn {
    builder: UInt64Builder,
}

/// The counts in an `arrow_array::builder::UInt64Builder`.
pub uninterp spec fn count_cells(column: CountColumn) -> Seq<Option<u64>>;

/// Calls `arrow_array::builder::UInt64Builder::with_capacity`, which makes a
/// builder without values. The room asked for has to fit in the address space.
#[verifier::external_body]
pub(crate) fn new_count_column(capacity: usize) -> (column: CountColumn)
    requires
        capacity * 32 <= isize::MAX,
    ensures
        count_cells(column) == Seq::<Option<u64>>::empty(),
{
    CountColumn { builder: UInt64Builder::with_capacity(capacity) }
}

/// Calls `arrow_array::builder::UInt64Builder::append_option`, which adds a
/// count or a null at the end.
#[verifier::external_body]
pub(crate) fn append_count(column: &mut CountColumn, count: Option<u64>)
    ensures
        count_cells(*final(column)) == count_cells(*old(column)).push(count),
{
    column.builder.append_option(count);
}

/// A column of times under construction.
#[verifier::external_body]
pub struct TimeColumn {
    builder: TimestampMillisecondBuilder,
}

/// The times in an `arrow_array::builder::TimestampMillisecondBuilder`.
pub uninterp spec fn time_cells(column: TimeColumn) -> Seq<i64>;

/// Calls `arrow_array::builder::TimestampMillisecondBuilder::with_capacity`,
/// which makes a builder without values. The room asked for has to fit in the
/// address space.
#[verifier::external_body]
pub(crate) fn new_time_column(capacity: usize) -> (column: TimeColumn)
    requires
        capacity * 32 <= isize::MAX,
    ensures
        time_cells(column) == Seq::<i64>::empty(),
{
    TimeColumn { builder: TimestampMillisecondBuilder::with_capacity(capacity) }
}

/// Calls `arrow_array::builder::TimestampMillisecondBuilder::append_value`,
/// which adds a time at the end.
#[verifier::external_body]
pub(crate) fn append_time(column: &mut TimeColumn, millis: i64)
    ensures
        time_cells(*final(column)) == time_cells(*old(column)).push(millis),
{
    column.builder.append_value(millis);
}

/// A column of bodies under construction.
#[verifier::external_body]
pub struct BodyColumn {
    builder: BinaryViewBuilder,
}

/// The values in an `arrow_array::builder::BinaryViewBuilder`.
pub uninterp spec fn body_cells(column: BodyColumn) -> Seq<Seq<u8>>;

/// The blocks that the values of an `arrow_array::builder::BinaryViewBuilder`
/// are views of.
pub uninterp spec fn body_blocks(column: BodyColumn) -> Seq<Seq<u8>>;

/// Calls `arrow_array::builder::BinaryViewBuilder::with_capacity`, which makes a
/// builder without values and blocks. The room asked for has to fit in the
/// address space.
#[verifier::external_body]
pub(crate) fn new_body_column(capacity: usize) -> (column: BodyColumn)
    requires
        capacity * 32 <= isize::MAX,
    ensures
        body_cells(column) == Seq::<Seq<u8>>::empty(),
        body_blocks(column) == Seq::<Seq<u8>>::empty(),
{
    BodyColumn { builder: BinaryViewBuilder::with_capacity(capacity) }
}

/// Calls `arrow_array::builder::BinaryViewBuilder::append_block`, which adds a
/// block without copying it and returns its number. A block has fewer than
/// `u32::MAX` bytes, and there are at most `u32::MAX` blocks.
#[verifier::external_body]
pub(crate) fn append_block(column: &mut BodyColumn, block: Vec<u8>) -> (number: u32)
    requires
        block@.len() < u32::MAX,
        body_blocks(*old(column)).len() < u32::MAX,
    ensures
        number == body_blocks(*old(column)).len(),
        body_blocks(*final(column)) == body_blocks(*old(column)).push(block@),
        body_cells(*final(column)) == body_cells(*old(column)),
{
    column.builder.append_block(block.into())
}

/// Calls `arrow_array::builder::BinaryViewBuilder::try_append_view`, which adds
/// a part of a block as a value. It fails, and adds nothing, where there is no
/// such block or the part reaches beyond it.
#[verifier::external_body]
pub(crate) fn append_view(column: &mut BodyColumn, block: u32, offset: u32, length: u32) -> (added:
    std::result::Result<(), String>)
    ensures
        added is Ok <==> block < body_blocks(*old(column)).len() && offset + length <= body_blocks(
            *old(column),
        )[block as int].len(),
        body_blocks(*final(column)) == body_blocks(*old(column)),
        added is Ok ==> body_cells(*final(column)) == body_cells(*old(column)).push(
            body_blocks(*old(column))[block as int].subrange(offset as int, offset + length),
        ),
        added is Err ==> body_cells(*final(column)) == body_cells(*old(column)),
{
    match column.builder.try_append_view(block, offset, length) {
        Ok(()) => Ok(()),
        Err(error) => Err(error.to_string()),
    }
}

/// A finished Arrow column.
#[verifier::external_body]
pub struct ArrowColumn {
    array: ArrayRef,
}

/// The values in an Arrow array.
pub uninterp spec fn array_cells(column: ArrowColumn) -> Seq<Cell>;

/// The type of an Arrow array.
pub uninterp spec fn array_type(column: ArrowColumn) -> ColumnType;

/// Calls `arrow_array::builder::StringBuilder::finish`, which makes a `Utf8`
/// array of the texts.
#[verifier::external_body]
pub(crate) fn finish_text(column: TextColumn) -> (array: ArrowColumn)
    ensures
        array_type(array) == ColumnType::Utf8,
        array_cells(array) == text_cells(column).map_values(
            |text: Option<Seq<char>>| Cell::Text(text),
        ),
{
    let mut builder = column.builder;
    ArrowColumn { array: Arc::new(builder.finish()) }
}

/// Calls `arrow_array::builder::UInt64Builder::finish`, which makes a `UInt64`
/// array of the counts.
#[verifier::external_body]
pub(crate) fn finish_counts(column: CountColumn) -> (array: ArrowColumn)
    ensures
        array_type(array) == ColumnType::UInt64,
        array_cells(array) == count_cells(column).map_values(
            |count: Option<u64>| Cell::Count(count),
        ),
{
    let mut builder = column.builder;
    ArrowColumn { array: Arc::new(builder.finish()) }
}

/// Calls `arrow_array::builder::TimestampMillisecondBuilder::finish`, which
/// makes a `Timestamp` array of the times, without a time zone.
#[verifier::external_body]
pub(crate) fn finish_times(column: TimeColumn) -> (array: ArrowColumn)
    ensures
        array_type(array) == ColumnType::TimestampMillisecond,
        array_cells(array) == time_cells(column).map_values(|millis: i64| Cell::Millis(millis)),
{
    let mut builder = column.builder;
    ArrowColumn { array: Arc::new(builder.finish()) }
}

/// Calls `arrow_array::builder::BinaryViewBuilder::finish`, which makes a
/// `BinaryView` array of the values.
#[verifier::external_body]
pub(crate) fn finish_bodies(column: BodyColumn) -> (array: ArrowColumn)
    ensures
        array_type(array) == ColumnType::BinaryView,
        array_cells(array) == body_cells(column).map_values(|body: Seq<u8>| Cell::Body(body)),
{
    let mut builder = column.builder;
    ArrowColumn { array: Arc::new(builder.finish()) }
}

/// What a batch knows of a column.
#[derive(Debug)]
pub struct ColumnField {
    pub name: String,
    pub column_type: ColumnType,
    pub nullable: bool,
}

/// What a batch knows of a column, as mathematical values.
pub struct ColumnFieldView {
    pub name: Seq<char>,
    pub column_type: ColumnType,
    pub nullable: bool,
}

impl View for ColumnField {
    type V = ColumnFieldView;

    open spec fn view(&self) -> ColumnFieldView {
        ColumnFieldView {
            name: self.name@,
            column_type: self.column_type,
            nullable: self.nullable,
        }
    }
}

/// Fields as mathematical values.
pub open spec fn fields_view(fields: Seq<ColumnField>) -> Seq<ColumnFieldView> {
    fields.map_values(|field: ColumnField| field@)
}

/// A batch of records.
#[verifier::external_body]
pub struct WarcBatch {
    pub batch: RecordBatch,
}

/// The values in an `arrow_array::RecordBatch`, column by column.
pub uninterp spec fn batch_columns(batch: WarcBatch) -> Seq<Seq<Cell>>;

/// The schema of an `arrow_array::RecordBatch`.
pub uninterp spec fn batch_fields(batch: WarcBatch) -> Seq<ColumnFieldView>;

/// Whether a column has a null.
pub open spec fn has_null(cells: Seq<Cell>) -> bool {
    exists|i: int|
        0 <= i < cells.len() && (#[trigger] cells[i] == Cell::Text(None) || cells[i]
            == Cell::Count(None))
}

/// Whether columns make up a batch: there is one for each field, there is one
/// at all, they are of one length, they have the types of their fields, and
/// those that may not have nulls have none.
pub open spec fn columns_fit(fields: Seq<ColumnFieldView>, columns: Seq<ArrowColumn>) -> bool {
    &&& fields.len() == columns.len()
    &&& columns.len() > 0
    &&& forall|i: int|
        0 <= i < columns.len() ==> {
            &&& array_cells(#[trigger] columns[i]).len() == array_cells(columns[0]).len()
            &&& array_type(columns[i]) == fields[i].column_type
            &&& !fields[i].nullable ==> !has_null(array_cells(columns[i]))
        }
}

/// Calls `arrow_array::RecordBatch::try_new` with a schema of `fields`. It
/// succeeds exactly where the columns make up a batch, which then holds them as
/// they are.
#[verifier::external_body]
pub(crate) fn new_batch(fields: &Vec<ColumnField>, columns: Vec<ArrowColumn>) -> (batch:
    std::result::Result<WarcBatch, String>)
    ensures
        match batch {
            Ok(batch) => {
                &&& columns_fit(fields_view(fields@), columns@)
                &&& batch_columns(batch) == columns@.map_values(
                    |column: ArrowColumn| array_cells(column),
                )
                &&& batch_fields(batch) == fields_view(fields@)
            },
            Err(_) => !columns_fit(fields_view(fields@), columns@),
        },
{
    let fields = fields.iter().map(|field| {
        let data_type = match field.column_type {
            ColumnType::Utf8 => DataType::Utf8,
            ColumnType::UInt64 => DataType::UInt64,
            ColumnType::TimestampMillisecond => DataType::Timestamp(TimeUnit::Millisecond, None),
            ColumnType::BinaryView => DataType::BinaryView,
        };
        Field::new(field.name.as_str(), data_type, field.nullable)
    });
    let schema = Arc::new(Schema::new(fields.collect::<Vec<Field>>()));
    match RecordBatch::try_new(schema, columns.into_iter().map(|column| column.array).collect()) {
        Ok(batch) => Ok(WarcBatch { batch }),
        Err(error) => Err(error.to_string()),
    }
}

}
