//! Batches of WARC records under construction.

use vstd::prelude::*;

use super::columns::{
    append_block, append_count, append_optional_text, append_time, append_view, finish_bodies,
    finish_counts, finish_text, finish_times, new_batch, new_body_column, new_count_column,
    new_text_column, new_time_column, ArrowColumn, BodyColumn, Cell, ColumnField, ColumnType,
    CountColumn, TextColumn, TimeColumn, WarcBatch,
};
use super::warc::{warc_column, BODY_COLUMN_INDEX, COLUMN_COUNT};
use super::warc_record::{metadata_value, Metadata, WarcRecord};
use crate::error::{Error, Result};
use crate::error_struct::at;

verus! {

/// A batch crosses Arrow, DuckDB and Arrow again and may remain queued while
/// Lance encodes it, so body bytes dominate peak memory much more than the
/// number of rows.
pub const MAX_BATCH_BODY_BYTES: u64 = 16777216;

/// The values of one column in rows.
pub open spec fn column_in(rows: Seq<Seq<Cell>>, column: int) -> Seq<Cell> {
    Seq::new(rows.len(), |row: int| rows[row][column])
}

/// The rows that columns of one length make up.
pub open spec fn rows_in(columns: Seq<Seq<Cell>>, len: nat) -> Seq<Seq<Cell>> {
    Seq::new(len, |row: int| Seq::new(columns.len(), |column: int| columns[column][row]))
}

/// The rows of a batch.
pub open spec fn batch_rows(batch: WarcBatch) -> Seq<Seq<Cell>> {
    let columns = super::columns::batch_columns(batch);
    rows_in(columns, columns[0].len())
}

/// The number of bytes that the text of a cell takes up.
pub open spec fn text_bytes_of(cell: Cell) -> nat {
    match cell {
        Cell::Text(Some(text)) => vstd::utf8::encode_utf8(text).len(),
        _ => 0,
    }
}

/// The number of bytes that the texts of a column take up.
pub open spec fn text_bytes_in(cells: Seq<Cell>) -> nat
    decreases cells.len(),
{
    if cells.len() == 0 {
        0
    } else {
        text_bytes_in(cells.drop_last()) + text_bytes_of(cells.last())
    }
}

/// The number of bytes in the bodies of a column.
pub open spec fn body_bytes_in(cells: Seq<Cell>) -> nat
    decreases cells.len(),
{
    if cells.len() == 0 {
        0
    } else {
        body_bytes_in(cells.drop_last()) + match cells.last() {
            Cell::Body(body) => body.len(),
            _ => 0,
        }
    }
}

/// Whether bodies are among the columns.
pub open spec fn includes_body(projection: Seq<usize>) -> bool {
    projection.contains(BODY_COLUMN_INDEX)
}

/// The number of body bytes in rows.
pub open spec fn body_bytes_of(rows: Seq<Seq<Cell>>, projection: Seq<usize>) -> nat {
    if includes_body(projection) {
        body_bytes_in(column_in(rows, projection.index_of(BODY_COLUMN_INDEX)))
    } else {
        0
    }
}

/// The value of a record in the column at `index`.
pub open spec fn cell_at(
    record: super::warc_record::WarcRecordView,
    body: Seq<u8>,
    index: int,
) -> std::result::Result<Cell, Seq<char>> {
    if index == BODY_COLUMN_INDEX {
        Ok(Cell::Body(body))
    } else {
        super::warc_record::metadata_cell(record, index)
    }
}

/// The values of a record in the columns at `projection`, or what is wrong with
/// the first of them. The texts of a column, those in `rows` included, have to
/// fit in offsets of 32 bits.
pub open spec fn values_of(
    record: super::warc_record::WarcRecordView,
    body: Seq<u8>,
    projection: Seq<usize>,
    rows: Seq<Seq<Cell>>,
) -> std::result::Result<Seq<Cell>, Seq<char>>
    decreases projection.len(),
{
    if projection.len() == 0 {
        Ok(Seq::empty())
    } else {
        match values_of(record, body, projection.drop_last(), rows) {
            Err(message) => Err(message),
            Ok(values) => match cell_at(record, body, projection.last() as int) {
                Err(message) => Err(message),
                Ok(cell) => if text_bytes_in(column_in(rows, projection.len() - 1))
                    + text_bytes_of(cell) > i32::MAX {
                    Err("panic in WARC parser: byte array offset overflow"@)
                } else {
                    Ok(values.push(cell))
                },
            },
        }
    }
}

/// Why a body cannot be added behind `count` others, if it cannot.
pub open spec fn body_problem(body: Seq<u8>, count: nat) -> Option<Seq<char>> {
    if body.len() > u32::MAX {
        Some("WARC body exceeds Arrow BinaryView limit"@)
    } else if body.len() == u32::MAX {
        Some("panic in WARC parser: assertion failed: buffer.len() < u32::MAX as usize"@)
    } else if count >= u32::MAX {
        Some("panic in WARC parser: Too many blocks"@)
    } else {
        None
    }
}

/// The row that a record adds to `rows`, or why it cannot be added.
pub open spec fn row_of(
    record: super::warc_record::WarcRecordView,
    body: Seq<u8>,
    projection: Seq<usize>,
    rows: Seq<Seq<Cell>>,
) -> std::result::Result<Seq<Cell>, Seq<char>> {
    match values_of(record, body, projection, rows) {
        Err(message) => Err(message),
        Ok(row) => if includes_body(projection) {
            match body_problem(body, rows.len()) {
                Some(message) => Err(message),
                None => Ok(row),
            }
        } else {
            Ok(row)
        },
    }
}

/// The bytes of an optional body.
pub open spec fn body_view(body: Option<Vec<u8>>) -> Seq<u8> {
    match body {
        Some(body) => body@,
        None => Seq::empty(),
    }
}

/// A column under construction.
pub enum ProjectedColumnBuilder {
    Utf8(TextColumn),
    UInt64(CountColumn),
    Timestamp(TimeColumn),
    Body(BodyColumn),
}

impl ProjectedColumnBuilder {
    /// The values in the column.
    pub open spec fn cells(self) -> Seq<Cell> {
        match self {
            ProjectedColumnBuilder::Utf8(column) => super::columns::text_cells(column).map_values(
                |text: Option<Seq<char>>| Cell::Text(text),
            ),
            ProjectedColumnBuilder::UInt64(column) => super::columns::count_cells(
                column,
            ).map_values(|count: Option<u64>| Cell::Count(count)),
            ProjectedColumnBuilder::Timestamp(column) => super::columns::time_cells(
                column,
            ).map_values(|millis: i64| Cell::Millis(millis)),
            ProjectedColumnBuilder::Body(column) => super::columns::body_cells(column).map_values(
                |body: Seq<u8>| Cell::Body(body),
            ),
        }
    }

    /// The type of the column.
    pub open spec fn column_type(self) -> ColumnType {
        match self {
            ProjectedColumnBuilder::Utf8(_) => ColumnType::Utf8,
            ProjectedColumnBuilder::UInt64(_) => ColumnType::UInt64,
            ProjectedColumnBuilder::Timestamp(_) => ColumnType::TimestampMillisecond,
            ProjectedColumnBuilder::Body(_) => ColumnType::BinaryView,
        }
    }

    /// The number of blocks that bodies are views of.
    pub open spec fn blocks(self) -> nat {
        match self {
            ProjectedColumnBuilder::Body(column) => super::columns::body_blocks(column).len(),
            _ => 0,
        }
    }

    /// An empty column for the column at `index`.
    pub fn new(index: usize, capacity: usize) -> (builder: Self)
        requires
            index < COLUMN_COUNT,
            capacity * 32 <= isize::MAX,
        ensures
            builder.column_type() == super::warc::column_at(index as int).column_type,
            builder.cells() == Seq::<Cell>::empty(),
            builder.blocks() == 0,
    {
        let builder = match index {
            1 | 16 | 18 => ProjectedColumnBuilder::UInt64(new_count_column(capacity)),
            2 => ProjectedColumnBuilder::Timestamp(new_time_column(capacity)),
            BODY_COLUMN_INDEX => ProjectedColumnBuilder::Body(new_body_column(capacity)),
            _ => ProjectedColumnBuilder::Utf8(new_text_column(capacity, capacity * 16)),
        };
        assert(builder.cells() =~= Seq::<Cell>::empty());
        builder
    }

    /// Adds a value to a column of its type.
    fn append(&mut self, value: &Metadata)
        requires
            value@ is Text ==> *old(self) is Utf8,
            value@ is Count ==> *old(self) is UInt64,
            value@ is Millis ==> *old(self) is Timestamp,
            text_bytes_in(old(self).cells()) + text_bytes_of(value@) <= i32::MAX,
        ensures
            final(self).cells() == old(self).cells().push(value@),
            final(self).column_type() == old(self).column_type(),
            final(self).blocks() == old(self).blocks(),
    {
        match self {
            ProjectedColumnBuilder::Utf8(column) => {
                if let Metadata::Text(text) = value {
                    let text = match text {
                        Some(text) => Some(text.as_str()),
                        None => None,
                    };
                    proof {
                        let texts = super::columns::text_cells(*column);
                        let more = texts.push(super::columns::optional_chars(text));
                        lemma_text_size(texts);
                        assert(more.drop_last() == texts);
                    }
                    append_optional_text(column, text);
                }
            },
            ProjectedColumnBuilder::UInt64(column) => {
                if let Metadata::Count(count) = value {
                    append_count(column, *count);
                }
            },
            ProjectedColumnBuilder::Timestamp(column) => {
                if let Metadata::Millis(millis) = value {
                    append_time(column, *millis);
                }
            },
            ProjectedColumnBuilder::Body(_) => {},
        }
        assert(self.cells() =~= old(self).cells().push(value@));
    }

    /// Adds a body to the column of bodies.
    fn append_body(&mut self, body: Vec<u8>)
        requires
            *old(self) is Body,
            body@.len() < u32::MAX,
            old(self).blocks() < u32::MAX,
        ensures
            final(self).cells() == old(self).cells().push(Cell::Body(body@)),
            final(self).column_type() == old(self).column_type(),
            final(self).blocks() == old(self).blocks() + 1,
    {
        if let ProjectedColumnBuilder::Body(column) = self {
            let length: u32 = body.len() as u32;
            let number = append_block(column, body);
            let _ = append_view(column, number, 0, length);
            assert(body@.subrange(0, length as int) == body@);
        }
        assert(self.cells() =~= old(self).cells().push(Cell::Body(body@)));
    }

    /// The finished column.
    pub fn finish(self) -> (column: ArrowColumn)
        ensures
            super::columns::array_cells(column) == self.cells(),
            super::columns::array_type(column) == self.column_type(),
    {
        match self {
            ProjectedColumnBuilder::Utf8(column) => finish_text(column),
            ProjectedColumnBuilder::UInt64(column) => finish_counts(column),
            ProjectedColumnBuilder::Timestamp(column) => finish_times(column),
            ProjectedColumnBuilder::Body(column) => finish_bodies(column),
        }
    }
}

proof fn lemma_text_size(texts: Seq<Option<Seq<char>>>)
    ensures
        super::columns::text_size(texts) == text_bytes_in(
            texts.map_values(|text: Option<Seq<char>>| Cell::Text(text)),
        ),
    decreases texts.len(),
{
    let cells = texts.map_values(|text: Option<Seq<char>>| Cell::Text(text));
    if texts.len() > 0 {
        lemma_text_size(texts.drop_last());
        assert(cells.drop_last() == texts.drop_last().map_values(
            |text: Option<Seq<char>>| Cell::Text(text),
        ));
    }
}

/// Whether a cell can stand in a column.
pub open spec fn fits_column(cell: Cell, field: super::columns::ColumnFieldView) -> bool {
    match field.column_type {
        ColumnType::Utf8 => cell matches Cell::Text(text) && (text is None ==> field.nullable),
        ColumnType::UInt64 => cell matches Cell::Count(count) && (count is None ==> field.nullable),
        ColumnType::TimestampMillisecond => cell is Millis,
        ColumnType::BinaryView => cell is Body,
    }
}

proof fn lemma_cell_fits(
    record: super::warc_record::WarcRecordView,
    body: Seq<u8>,
    index: int,
    cell: Cell,
)
    requires
        0 <= index < COLUMN_COUNT,
        cell_at(record, body, index) == Ok::<Cell, Seq<char>>(cell),
    ensures
        fits_column(cell, super::warc::column_at(index)),
{
}

/// A batch under construction.
pub struct WarcBatchBuilder {
    len: usize,
    body_bytes: u64,
    projection: Vec<usize>,
    columns: Vec<ProjectedColumnBuilder>,
    text_bytes: Vec<usize>,
    body_position: Option<usize>,
}

/// The fields of the columns at `projection`.
pub open spec fn fields_at(projection: Seq<usize>) -> Seq<super::columns::ColumnFieldView> {
    projection.map_values(|index: usize| super::warc::column_at(index as int))
}

impl WarcBatchBuilder {
    /// The columns of the batch.
    pub closed spec fn projected(self) -> Seq<usize> {
        self.projection@
    }

    closed spec fn column_cells(self) -> Seq<Seq<Cell>> {
        Seq::new(self.columns@.len(), |column: int| self.columns@[column].cells())
    }

    /// The rows so far.
    pub closed spec fn rows(self) -> Seq<Seq<Cell>> {
        rows_in(self.column_cells(), self.len as nat)
    }

    closed spec fn column_wf(self, column: int) -> bool {
        let field = super::warc::column_at(self.projection@[column] as int);
        let cells = self.columns@[column].cells();
        &&& self.columns@[column].column_type() == field.column_type
        &&& cells.len() == self.len
        &&& forall|row: int| 0 <= row < cells.len() ==> fits_column(#[trigger] cells[row], field)
        &&& self.text_bytes@[column] == text_bytes_in(cells)
        &&& self.text_bytes@[column] <= i32::MAX
        &&& self.columns@[column] is Body ==> self.columns@[column].blocks() == self.len
    }

    /// The columns have one length and hold values of their types.
    pub closed spec fn wf(self) -> bool {
        &&& super::warc::is_projection(self.projection@)
        &&& self.columns@.len() == self.projection@.len()
        &&& self.text_bytes@.len() == self.projection@.len()
        &&& forall|column: int|
            0 <= column < self.columns@.len() ==> #[trigger] self.column_wf(column)
        &&& match self.body_position {
            Some(position) => position < self.projection@.len() && self.projection@[position as int]
                == BODY_COLUMN_INDEX,
            None => !includes_body(self.projection@),
        }
        &&& self.body_bytes == body_bytes_of(self.rows(), self.projection@)
        &&& self.body_bytes <= self.len * u32::MAX
        &&& includes_body(self.projection@) ==> self.len <= u32::MAX
    }

    proof fn lemma_column(self, column: int)
        requires
            self.wf(),
            0 <= column < self.projection@.len(),
        ensures
            column_in(self.rows(), column) == self.columns@[column].cells(),
    {
        assert(self.column_wf(column));
        assert(column_in(self.rows(), column) =~= self.columns@[column].cells());
    }

    /// A batch of the columns at `projection`, without rows.
    pub fn new(capacity: usize, projection: Vec<usize>) -> (builder: Self)
        requires
            super::warc::is_projection(projection@),
            capacity * 32 <= isize::MAX,
        ensures
            builder.wf(),
            builder.projected() == projection@,
            builder.rows() == Seq::<Seq<Cell>>::empty(),
    {
        let mut columns: Vec<ProjectedColumnBuilder> = Vec::new();
        let mut text_bytes: Vec<usize> = Vec::new();
        let mut body_position: Option<usize> = None;
        for i in 0..projection.len()
            invariant
                super::warc::is_projection(projection@),
                capacity * 32 <= isize::MAX,
                columns@.len() == i,
                text_bytes@.len() == i,
                forall|j: int|
                    0 <= j < i ==> {
                        &&& (#[trigger] columns@[j]).column_type() == super::warc::column_at(
                            projection@[j] as int,
                        ).column_type
                        &&& columns@[j].cells() == Seq::<Cell>::empty()
                        &&& columns@[j].blocks() == 0
                        &&& text_bytes@[j] == 0
                    },
                match body_position {
                    Some(position) => position < i && projection@[position as int]
                        == BODY_COLUMN_INDEX,
                    None => !projection@.take(i as int).contains(BODY_COLUMN_INDEX),
                },
        {
            let index = projection[i];
            columns.push(ProjectedColumnBuilder::new(index, capacity));
            text_bytes.push(0);
            assert(projection@.take(i + 1) == projection@.take(i as int).push(index));
            if index == BODY_COLUMN_INDEX && body_position.is_none() {
                body_position = Some(i);
            }
            proof {
                if body_position is None {
                    assert forall|j: int| 0 <= j < i + 1 implies #[trigger] projection@.take(
                        i + 1,
                    )[j] != BODY_COLUMN_INDEX by {
                        if j < i {
                            assert(projection@.take(i as int)[j] != BODY_COLUMN_INDEX);
                        }
                    }
                }
            }
        }
        assert(projection@.take(projection@.len() as int) == projection@);
        let builder = WarcBatchBuilder {
            len: 0,
            body_bytes: 0,
            projection,
            columns,
            text_bytes,
            body_position,
        };
        proof {
            assert(builder.rows() =~= Seq::<Seq<Cell>>::empty());
            assert forall|column: int| 0 <= column < builder.columns@.len() implies
                #[trigger] builder.column_wf(column) by {
                assert(builder.columns@[column].cells() == Seq::<Cell>::empty());
            }
            if includes_body(projection@) {
                assert(column_in(
                    builder.rows(),
                    projection@.index_of(BODY_COLUMN_INDEX),
                ) =~= Seq::empty());
            }
        }
        builder
    }

    /// The number of rows.
    pub fn len(&self) -> (len: usize)
        ensures
            len == self.rows().len(),
    {
        self.len
    }

    pub fn is_empty(&self) -> (empty: bool)
        ensures
            empty == (self.rows().len() == 0),
    {
        self.len == 0
    }

    /// The number of body bytes.
    pub fn body_bytes(&self) -> (body_bytes: u64)
        requires
            self.wf(),
        ensures
            body_bytes == body_bytes_of(self.rows(), self.projected()),
    {
        self.body_bytes
    }

    /// Whether bodies are among the columns.
    pub fn includes_body(&self) -> (included: bool)
        requires
            self.wf(),
        ensures
            included == includes_body(self.projected()),
    {
        proof {
            if let Some(position) = self.body_position {
                assert(self.projection@.contains(self.projection@[position as int]));
            }
        }
        self.body_position.is_some()
    }

    /// Whether a body of `body_len` bytes would take the batch over its limit.
    pub fn would_exceed_body_limit(&self, body_len: u64) -> (exceeds: bool)
        requires
            self.wf(),
        ensures
            exceeds == (includes_body(self.projected()) && body_bytes_of(
                self.rows(),
                self.projected(),
            ) + body_len > MAX_BATCH_BODY_BYTES),
    {
        self.includes_body() && self.body_bytes.saturating_add(body_len) > MAX_BATCH_BODY_BYTES
    }

    /// Empties the batch and returns what it held.
    pub fn take_empty(&mut self, capacity: usize) -> (taken: Self)
        requires
            old(self).wf(),
            capacity * 32 <= isize::MAX,
        ensures
            taken == *old(self),
            final(self).wf(),
            final(self).projected() == old(self).projected(),
            final(self).rows() == Seq::<Seq<Cell>>::empty(),
    {
        let projection = self.projection.clone();
        assert(projection@ =~= self.projection@);
        let mut taken = WarcBatchBuilder::new(capacity, projection);
        std::mem::swap(self, &mut taken);
        taken
    }

    /// The values of a record, without its body.
    fn metadata(&self, record: &WarcRecord, Ghost(body): Ghost<Seq<u8>>) -> (values: Result<
        Vec<Option<Metadata>>,
    >)
        requires
            self.wf(),
        ensures
            match values {
                Ok(values) => values_of(record@, body, self.projected(), self.rows()) matches Ok(
                    row,
                ) && values_tell(values@, self.projected(), row),
                Err(error) => values_of(record@, body, self.projected(), self.rows()) matches Err(
                    message,
                ) && error@ == crate::error::internal_error(message),
            },
    {
        let mut values: Vec<Option<Metadata>> = Vec::new();
        let ghost rows = self.rows();
        let ghost whole = values_of(record@, body, self.projection@, rows);
        let ghost mut row: Seq<Cell> = Seq::empty();
        let mut i: usize = 0;
        assert(self.projection@.take(0) =~= Seq::empty());
        while i < self.projection.len()
            invariant
                self.wf(),
                rows == self.rows(),
                i <= self.projection@.len(),
                values_of(record@, body, self.projection@.take(i as int), rows) == Ok::<
                    Seq<Cell>,
                    Seq<char>,
                >(row),
                values_tell(values@, self.projection@.take(i as int), row),
            decreases self.projection@.len() - i,
        {
            let index = self.projection[i];
            let ghost before = self.projection@.take(i as int);
            let ghost after = self.projection@.take(i + 1);
            proof {
                assert(after.drop_last() == before);
                assert(self.column_wf(i as int));
                self.lemma_column(i as int);
            }
            if index == BODY_COLUMN_INDEX {
                values.push(None);
                proof {
                    lemma_no_text(self.columns@[i as int].cells());
                    row = row.push(Cell::Body(body));
                }
            } else {
                match metadata_value(record, index) {
                    Err(error) => {
                        proof {
                            lemma_values_failure(record@, body, self.projection@, rows, i + 1);
                        }
                        return Err(error);
                    },
                    Ok(value) => {
                        let size: usize = text_length(&value);
                        if size > i32::MAX as usize - self.text_bytes[i] {
                            proof {
                                lemma_values_failure(record@, body, self.projection@, rows, i + 1);
                            }
                            return Err(
                                Error::message(
                                    "panic in WARC parser: byte array offset overflow".to_owned(),
                                    at("src/source/warc_batch.rs", 633, 33),
                                ),
                            );
                        }
                        proof {
                            row = row.push(value@);
                        }
                        values.push(Some(value));
                    },
                }
            }
            i += 1;
        }
        assert(self.projection@.take(i as int) == self.projection@);
        Ok(values)
    }

    /// Adds a record as a row. The body is given where it is among the columns.
    pub fn append_row(&mut self, record: &WarcRecord, body: Option<Vec<u8>>) -> (added: Result<()>)
        requires
            old(self).wf(),
            body is Some <==> includes_body(old(self).projected()),
            old(self).rows().len() < usize::MAX,
        ensures
            final(self).wf(),
            final(self).projected() == old(self).projected(),
            match added {
                Ok(_) => row_of(
                    record@,
                    body_view(body),
                    old(self).projected(),
                    old(self).rows(),
                ) matches Ok(row) && final(self).rows() == old(self).rows().push(row),
                Err(error) => {
                    &&& row_of(
                        record@,
                        body_view(body),
                        old(self).projected(),
                        old(self).rows(),
                    ) matches Err(message)
                    &&& error@ == crate::error::internal_error(message)
                    &&& *final(self) == *old(self)
                },
            },
    {
        let values = match self.metadata(record, Ghost(body_view(body))) {
            Ok(values) => values,
            Err(error) => {
                return Err(error);
            },
        };
        let ghost row = values_of(record@, body_view(body), self.projected(), self.rows())->Ok_0;
        if let Some(body) = &body {
            if body.len() > u32::MAX as usize {
                return Err(Error::message(
                    "WARC body exceeds Arrow BinaryView limit".to_owned(),
                    at("src/source/warc_batch.rs", 689, 28),
                ));
            }
            if body.len() == u32::MAX as usize {
                return Err(
                    Error::message(
                        "panic in WARC parser: assertion failed: buffer.len() < u32::MAX as usize".to_owned(),
                        at("src/source/warc_batch.rs", 696, 21),
                    ),
                );
            }
            if self.len >= u32::MAX as usize {
                return Err(Error::message(
                    "panic in WARC parser: Too many blocks".to_owned(),
                    at("src/source/warc_batch.rs", 703, 28),
                ));
            }
        }
        let ghost before = *self;
        proof {
            lemma_row_fits(record@, body_view(body), self.projection@, self.rows(), row);
            assert forall|i: int| 0 <= i < row.len() implies fits_column(
                #[trigger] row[i],
                super::warc::column_at(self.projection@[i] as int),
            ) && text_bytes_in(self.columns@[i].cells()) + text_bytes_of(row[i]) <= i32::MAX by {
                self.lemma_column(i);
            }
        }
        self.append_values(&values, Ghost(row));
        let ghost added_to = *self;
        if let Some(body) = body {
            if let Some(position) = self.body_position {
                let length: u64 = body.len() as u64;
                assert(before.body_bytes + length <= (before.len + 1) * u32::MAX)
                    by (nonlinear_arith)
                    requires
                        before.body_bytes <= before.len * u32::MAX,
                        length <= u32::MAX,
                ;
                assert((before.len + 1) * u32::MAX <= u64::MAX) by (nonlinear_arith)
                    requires
                        before.len < u32::MAX,
                ;
                assert(before.column_wf(position as int));
                assert(value_added(
                    before.columns@[position as int],
                    self.columns@[position as int],
                    before.text_bytes@[position as int],
                    self.text_bytes@[position as int],
                    values@[position as int],
                ));
                self.columns[position].append_body(body);
                self.body_bytes = self.body_bytes + length;
            }
        }
        self.len = self.len + 1;
        proof {
            assert forall|i: int| 0 <= i < row.len() implies {
                &&& (#[trigger] self.columns@[i]).cells() == before.columns@[i].cells().push(row[i])
                &&& self.columns@[i].column_type() == before.columns@[i].column_type()
                &&& self.columns@[i] is Body ==> self.columns@[i].blocks()
                    == before.columns@[i].blocks() + 1
                &&& self.text_bytes@[i] == before.text_bytes@[i] + text_bytes_of(row[i])
                &&& self.text_bytes@[i] <= i32::MAX
                &&& fits_column(row[i], super::warc::column_at(before.projection@[i] as int))
                &&& before.projection@[i] == BODY_COLUMN_INDEX ==> row[i] == Cell::Body(
                    body_view(body),
                )
            } by {
                assert(before.column_wf(i));
                before.lemma_column(i);
                assert(values@[i] is None <==> before.projection@[i] == BODY_COLUMN_INDEX);
                assert(value_added(
                    before.columns@[i],
                    added_to.columns@[i],
                    before.text_bytes@[i],
                    added_to.text_bytes@[i],
                    values@[i],
                ));
                if before.projection@[i] == BODY_COLUMN_INDEX {
                    assert(before.projection@.contains(before.projection@[i]));
                }
            }
            before.lemma_row_added(*self, row, body_view(body));
        }
        Ok(())
    }

    /// Adds values, but for a body, to their columns.
    fn append_values(&mut self, values: &Vec<Option<Metadata>>, Ghost(row): Ghost<Seq<Cell>>)
        requires
            old(self).wf(),
            values_tell(values@, old(self).projection@, row),
            forall|i: int|
                0 <= i < row.len() ==> fits_column(
                    #[trigger] row[i],
                    super::warc::column_at(old(self).projection@[i] as int),
                ) && text_bytes_in(old(self).columns@[i].cells()) + text_bytes_of(row[i])
                    <= i32::MAX,
        ensures
            final(self).len == old(self).len,
            final(self).body_bytes == old(self).body_bytes,
            final(self).projection == old(self).projection,
            final(self).body_position == old(self).body_position,
            final(self).columns@.len() == old(self).columns@.len(),
            final(self).text_bytes@.len() == old(self).text_bytes@.len(),
            forall|i: int|
                0 <= i < values@.len() ==> value_added(
                    old(self).columns@[i],
                    #[trigger] final(self).columns@[i],
                    old(self).text_bytes@[i],
                    final(self).text_bytes@[i],
                    values@[i],
                ),
    {
        let ghost before = *self;
        let mut i: usize = 0;
        while i < values.len()
            invariant
                i <= values@.len(),
                before.wf(),
                values_tell(values@, before.projection@, row),
                forall|j: int|
                    0 <= j < row.len() ==> fits_column(
                        #[trigger] row[j],
                        super::warc::column_at(before.projection@[j] as int),
                    ) && text_bytes_in(before.columns@[j].cells()) + text_bytes_of(row[j])
                        <= i32::MAX,
                self.len == before.len,
                self.body_bytes == before.body_bytes,
                self.projection == before.projection,
                self.body_position == before.body_position,
                self.columns@.len() == before.columns@.len(),
                self.text_bytes@.len() == before.text_bytes@.len(),
                forall|j: int|
                    0 <= j < i ==> value_added(
                        before.columns@[j],
                        #[trigger] self.columns@[j],
                        before.text_bytes@[j],
                        self.text_bytes@[j],
                        values@[j],
                    ),
                forall|j: int|
                    i <= j < values@.len() ==> #[trigger] self.columns@[j] == before.columns@[j],
                forall|j: int|
                    i <= j < values@.len() ==> #[trigger] self.text_bytes@[j]
                        == before.text_bytes@[j],
            decreases values@.len() - i,
        {
            assert(before.column_wf(i as int));
            if let Some(value) = &values[i] {
                assert(value@ == row[i as int]);
                let size: usize = text_length(value);
                let ghost step = *self;
                self.columns[i].append(value);
                let bytes: usize = self.text_bytes[i] + size;
                self.text_bytes.set(i, bytes);
                assert(self.columns@ == step.columns@.update(i as int, self.columns@[i as int]));
                assert(self.text_bytes@ == step.text_bytes@.update(i as int, bytes));
            }
            i += 1;
        }
    }

    proof fn lemma_row_added(self, after: Self, row: Seq<Cell>, body: Seq<u8>)
        requires
            self.wf(),
            row.len() == self.projection@.len(),
            after.projection == self.projection,
            after.body_position == self.body_position,
            after.columns@.len() == self.columns@.len(),
            after.text_bytes@.len() == self.text_bytes@.len(),
            after.len == self.len + 1,
            includes_body(self.projection@) ==> after.len <= u32::MAX && body.len() < u32::MAX,
            after.body_bytes == self.body_bytes + if includes_body(self.projection@) {
                body.len()
            } else {
                0
            },
            forall|i: int|
                0 <= i < row.len() ==> {
                    &&& (#[trigger] after.columns@[i]).cells() == self.columns@[i].cells().push(
                        row[i],
                    )
                    &&& after.columns@[i].column_type() == self.columns@[i].column_type()
                    &&& after.columns@[i] is Body ==> after.columns@[i].blocks()
                        == self.columns@[i].blocks() + 1
                    &&& after.text_bytes@[i] == self.text_bytes@[i] + text_bytes_of(row[i])
                    &&& after.text_bytes@[i] <= i32::MAX
                    &&& fits_column(row[i], super::warc::column_at(self.projection@[i] as int))
                    &&& self.projection@[i] == BODY_COLUMN_INDEX ==> row[i] == Cell::Body(body)
                },
        ensures
            after.wf(),
            after.rows() == self.rows().push(row),
    {
        assert forall|column: int| 0 <= column < after.columns@.len() implies
            #[trigger] after.column_wf(column) by {
            assert(self.column_wf(column));
            assert(after.columns@[column].cells().drop_last() == self.columns@[column].cells());
        }
        assert forall|r: int| 0 <= r < after.len implies #[trigger] after.rows()[r]
            == self.rows().push(row)[r] by {
            assert forall|column: int| 0 <= column < row.len() implies #[trigger] after.rows()[r][column]
                == self.rows().push(row)[r][column] by {
                assert(self.column_wf(column));
                assert(after.columns@[column].cells() == self.columns@[column].cells().push(
                    row[column],
                ));
            }
            if r < self.len {
                assert(after.rows()[r] =~= self.rows()[r]);
            } else {
                assert(after.rows()[r] =~= row);
            }
        }
        assert(after.rows() =~= self.rows().push(row));
        if includes_body(self.projection@) {
            let position = self.projection@.index_of(BODY_COLUMN_INDEX);
            assert(self.projection@[position] == BODY_COLUMN_INDEX);
            let cells = column_in(after.rows(), position);
            assert(cells.drop_last() =~= column_in(self.rows(), position));
            assert(cells.last() == row[position]);
            assert(after.columns@[position].cells().len() > 0);
        }
        assert(after.body_bytes <= after.len * u32::MAX) by (nonlinear_arith)
            requires
                self.body_bytes <= self.len * u32::MAX,
                after.len == self.len + 1,
                after.body_bytes <= self.body_bytes + u32::MAX,
        ;
    }

    /// The finished batch.
    pub fn finish(self) -> (batch: Result<WarcBatch>)
        requires
            self.wf(),
        ensures
            batch matches Ok(batch) && batch_rows(batch) == self.rows()
                && super::columns::batch_fields(batch) == fields_at(self.projected()),
    {
        let mut fields: Vec<ColumnField> = Vec::new();
        let mut arrays: Vec<ArrowColumn> = Vec::new();
        let ghost before = self;
        let projection = self.projection;
        let mut rest = self.columns;
        let mut i: usize = projection.len();
        while i > 0
            invariant
                before.wf(),
                projection == before.projection,
                i <= projection@.len(),
                rest@ == before.columns@.take(i as int),
                fields@.len() == projection@.len() - i,
                arrays@.len() == projection@.len() - i,
                forall|j: int|
                    0 <= j < fields@.len() ==> (#[trigger] fields@[j])@ == super::warc::column_at(
                        projection@[i + j] as int,
                    ),
                forall|j: int|
                    0 <= j < arrays@.len() ==> {
                        &&& super::columns::array_cells(#[trigger] arrays@[j])
                            == before.columns@[i + j].cells()
                        &&& super::columns::array_type(arrays@[j])
                            == before.columns@[i + j].column_type()
                    },
            decreases i,
        {
            i -= 1;
            if let Some(column) = rest.pop() {
                arrays.insert(0, column.finish());
                fields.insert(0, warc_column(projection[i]));
            }
        }
        proof {
            assert forall|j: int| 0 <= j < arrays@.len() implies {
                &&& super::columns::array_cells(#[trigger] arrays@[j]).len() == before.len
                &&& super::columns::array_type(arrays@[j]) == fields@[j]@.column_type
                &&& !fields@[j]@.nullable ==> !super::columns::has_null(
                    super::columns::array_cells(arrays@[j]),
                )
            } by {
                assert(before.column_wf(j));
            }
            assert(super::columns::fields_view(fields@) =~= fields_at(projection@));
            assert(super::columns::columns_fit(
                super::columns::fields_view(fields@),
                arrays@,
            ));
        }
        match new_batch(&fields, arrays) {
            Ok(batch) => {
                proof {
                    assert(super::columns::batch_columns(batch) =~= before.column_cells());
                }
                Ok(batch)
            },
            Err(message) => Err(
                Error::from_component(
                    crate::error::ErrorOrigin::Arrow,
                    message,
                    at("src/source/warc_batch.rs", 989, 17),
                ),
            ),
        }
    }
}

/// Whether a column has taken up a value, where there is one.
spec fn value_added(
    before: ProjectedColumnBuilder,
    after: ProjectedColumnBuilder,
    bytes_before: usize,
    bytes_after: usize,
    value: Option<Metadata>,
) -> bool {
    match value {
        Some(value) => {
            &&& after.cells() == before.cells().push(value@)
            &&& after.column_type() == before.column_type()
            &&& after.blocks() == before.blocks()
            &&& bytes_after == bytes_before + text_bytes_of(value@)
        },
        None => after == before && bytes_after == bytes_before,
    }
}

/// The row of a record holds a value for every column, of the type of the
/// column.
pub proof fn lemma_row_fits(
    record: super::warc_record::WarcRecordView,
    body: Seq<u8>,
    projection: Seq<usize>,
    rows: Seq<Seq<Cell>>,
    row: Seq<Cell>,
)
    requires
        values_of(record, body, projection, rows) == Ok::<Seq<Cell>, Seq<char>>(row),
        forall|i: int| 0 <= i < projection.len() ==> #[trigger] projection[i] < COLUMN_COUNT,
    ensures
        row.len() == projection.len(),
        forall|i: int|
            0 <= i < row.len() ==> {
                &&& fits_column(
                    #[trigger] row[i],
                    super::warc::column_at(projection[i] as int),
                )
                &&& projection[i] == BODY_COLUMN_INDEX ==> row[i] == Cell::Body(body)
                &&& text_bytes_in(column_in(rows, i)) + text_bytes_of(row[i]) <= i32::MAX
            },
    decreases projection.len(),
{
    if projection.len() > 0 {
        let shorter = projection.drop_last();
        assert forall|i: int| 0 <= i < shorter.len() implies #[trigger] shorter[i]
            < COLUMN_COUNT by {
            assert(projection[i] < COLUMN_COUNT);
        }
        let values = values_of(record, body, shorter, rows)->Ok_0;
        assert(row.drop_last() =~= values);
        lemma_row_fits(record, body, shorter, rows, values);
        assert forall|i: int| 0 <= i < row.len() implies {
            &&& fits_column(#[trigger] row[i], super::warc::column_at(projection[i] as int))
            &&& projection[i] == BODY_COLUMN_INDEX ==> row[i] == Cell::Body(body)
            &&& text_bytes_in(column_in(rows, i)) + text_bytes_of(row[i]) <= i32::MAX
        } by {
            if i < shorter.len() {
                assert(row.drop_last()[i] == row[i]);
            } else {
                assert(projection[i] < COLUMN_COUNT);
                lemma_cell_fits(record, body, projection[i] as int, row[i]);
            }
        }
    }
}

/// Whether values, with the body left out, are those of a row.
spec fn values_tell(values: Seq<Option<Metadata>>, projection: Seq<usize>, row: Seq<Cell>) -> bool {
    &&& values.len() == projection.len()
    &&& row.len() == projection.len()
    &&& forall|i: int|
        0 <= i < values.len() ==> match #[trigger] values[i] {
            Some(value) => projection[i] != BODY_COLUMN_INDEX && value@ == row[i],
            None => projection[i] == BODY_COLUMN_INDEX,
        }
}

proof fn lemma_no_text(cells: Seq<Cell>)
    requires
        forall|i: int| 0 <= i < cells.len() ==> !(#[trigger] cells[i] is Text),
    ensures
        text_bytes_in(cells) == 0,
    decreases cells.len(),
{
    if cells.len() > 0 {
        assert(!(cells[cells.len() - 1] is Text));
        lemma_no_text(cells.drop_last());
    }
}

proof fn lemma_values_failure(
    record: super::warc_record::WarcRecordView,
    body: Seq<u8>,
    projection: Seq<usize>,
    rows: Seq<Seq<Cell>>,
    end: int,
)
    requires
        0 <= end <= projection.len(),
        values_of(record, body, projection.take(end), rows) is Err,
    ensures
        values_of(record, body, projection, rows) == values_of(
            record,
            body,
            projection.take(end),
            rows,
        ),
    decreases projection.len() - end,
{
    if end < projection.len() {
        assert(projection.take(end + 1).drop_last() == projection.take(end));
        lemma_values_failure(record, body, projection, rows, end + 1);
    } else {
        assert(projection.take(end) == projection);
    }
}

/// The number of bytes that a text takes up.
fn text_length(value: &Metadata) -> (length: usize)
    ensures
        length == text_bytes_of(value@),
{
    match value {
        Metadata::Text(Some(text)) => text.as_str().as_bytes().len(),
        _ => 0,
    }
}

/// Where bodies are not among the columns, they make no difference.
pub proof fn law_unread_body_is_irrelevant(
    record: super::warc_record::WarcRecordView,
    left: Seq<u8>,
    right: Seq<u8>,
    projection: Seq<usize>,
    rows: Seq<Seq<Cell>>,
)
    requires
        !includes_body(projection),
    ensures
        row_of(record, left, projection, rows) == row_of(record, right, projection, rows),
{
    assert forall|i: int| 0 <= i < projection.len() implies cell_at(
        record,
        left,
        #[trigger] projection[i] as int,
    ) == cell_at(record, right, projection[i] as int) by {
        assert(projection.contains(projection[i]));
    }
    lemma_same_cells(record, record, left, right, projection, rows);
}

/// Headers that no column is made of make no difference, even where they are
/// malformed.
pub proof fn law_unread_headers_are_irrelevant(
    left: super::warc_record::WarcRecordView,
    right: super::warc_record::WarcRecordView,
    body: Seq<u8>,
    projection: Seq<usize>,
    rows: Seq<Seq<Cell>>,
)
    requires
        left.id == right.id,
        left.content_length == right.content_length,
        left.date_millis == right.date_millis,
        left.record_type == right.record_type,
        forall|header: super::warc_record::WarcHeader|
            super::warc_record::headers_at(projection).contains(header)
                ==> #[trigger] super::warc_record::header_bytes(left.headers, header)
                == super::warc_record::header_bytes(right.headers, header),
    ensures
        row_of(left, body, projection, rows) == row_of(right, body, projection, rows),
{
    assert forall|i: int| 0 <= i < projection.len() implies cell_at(
        left,
        body,
        #[trigger] projection[i] as int,
    ) == cell_at(right, body, projection[i] as int) by {
        lemma_header_is_listed(projection, i);
        if let Some(header) = super::warc_record::header_at(projection[i] as int) {
            assert(super::warc_record::header_bytes(left.headers, header)
                == super::warc_record::header_bytes(right.headers, header));
        }
    }
    lemma_same_cells(left, right, body, body, projection, rows);
}

pub(crate) proof fn lemma_header_is_listed(projection: Seq<usize>, at: int)
    requires
        0 <= at < projection.len(),
    ensures
        super::warc_record::header_at(projection[at] as int) matches Some(header)
            ==> super::warc_record::headers_at(projection).contains(header),
    decreases projection.len(),
{
    if let Some(header) = super::warc_record::header_at(projection[at] as int) {
        let headers = super::warc_record::headers_at(projection);
        let before = super::warc_record::headers_at(projection.drop_last());
        if at < projection.len() - 1 {
            lemma_header_is_listed(projection.drop_last(), at);
            let k = choose|k: int| 0 <= k < before.len() && before[k] == header;
            assert(headers[k] == header);
        } else {
            assert(headers[headers.len() - 1] == header);
        }
    }
}

proof fn lemma_same_cells(
    left: super::warc_record::WarcRecordView,
    right: super::warc_record::WarcRecordView,
    left_body: Seq<u8>,
    right_body: Seq<u8>,
    projection: Seq<usize>,
    rows: Seq<Seq<Cell>>,
)
    requires
        forall|i: int|
            0 <= i < projection.len() ==> cell_at(
                left,
                left_body,
                #[trigger] projection[i] as int,
            ) == cell_at(right, right_body, projection[i] as int),
    ensures
        values_of(left, left_body, projection, rows) == values_of(
            right,
            right_body,
            projection,
            rows,
        ),
    decreases projection.len(),
{
    if projection.len() > 0 {
        let shorter = projection.drop_last();
        assert forall|i: int| 0 <= i < shorter.len() implies cell_at(
            left,
            left_body,
            #[trigger] shorter[i] as int,
        ) == cell_at(right, right_body, shorter[i] as int) by {
            assert(shorter[i] == projection[i]);
        }
        lemma_same_cells(left, right, left_body, right_body, shorter, rows);
        assert(projection[projection.len() - 1] == projection.last());
    }
}

}
