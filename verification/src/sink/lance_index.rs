//! Which indexes are created after a write.

use vstd::prelude::*;

use super::lance::WriteOptions;
use crate::error::{Error, Result};
use crate::error_struct::at;
use crate::order::{sort_by_name, Named};
use crate::schema::{DataType, Field, Schema};
use crate::text::same_text;

verus! {

pub const TARGET_VECTOR_PARTITION_ROWS: usize = 8192;

pub const MAX_VECTOR_PARTITIONS: usize = 4096;

/// What an index is for.
#[derive(Clone, Copy, Debug, PartialEq, Eq, Structural)]
pub enum IndexKind {
    BTree,
    Vector,
    Text,
    BloomFilter,
}

/// An index on a column.
#[derive(Debug)]
pub struct ColumnIndex {
    pub column: String,
    pub kind: IndexKind,
}

impl Named for ColumnIndex {
    open spec fn name_text(self) -> Seq<char> {
        self.column@
    }

    fn name(&self) -> (name: &str) {
        self.column.as_str()
    }
}

/// Whether a column of a type can have a scalar index.
pub open spec fn scalar_type(data_type: DataType) -> bool {
    match data_type {
        DataType::Boolean
        | DataType::Int8
        | DataType::Int16
        | DataType::Int32
        | DataType::Int64
        | DataType::UInt8
        | DataType::UInt16
        | DataType::UInt32
        | DataType::UInt64
        | DataType::Float16
        | DataType::Float32
        | DataType::Float64
        | DataType::Decimal128(_, _)
        | DataType::Utf8
        | DataType::LargeUtf8
        | DataType::Utf8View
        | DataType::Date32
        | DataType::Date64
        | DataType::Time32(_)
        | DataType::Time64(_)
        | DataType::Timestamp(_, _) => true,
        _ => false,
    }
}

/// Whether a column of a type can have a scalar index.
pub fn supports_scalar_index(data_type: &DataType) -> (supported: bool)
    ensures
        supported == scalar_type(*data_type),
{
    matches!(
        data_type,
        DataType::Boolean
            | DataType::Int8
            | DataType::Int16
            | DataType::Int32
            | DataType::Int64
            | DataType::UInt8
            | DataType::UInt16
            | DataType::UInt32
            | DataType::UInt64
            | DataType::Float16
            | DataType::Float32
            | DataType::Float64
            | DataType::Decimal128(_, _)
            | DataType::Utf8
            | DataType::LargeUtf8
            | DataType::Utf8View
            | DataType::Date32
            | DataType::Date64
            | DataType::Time32(_)
            | DataType::Time64(_)
            | DataType::Timestamp(_, _)
    )
}

/// Whether a column of a type can have a vector index: its values are fixed-size
/// lists of small integers or floats.
pub open spec fn vector_type(data_type: DataType) -> bool {
    data_type matches DataType::FixedSizeList(element, _) && match element.data_type {
        DataType::Int8
        | DataType::UInt8
        | DataType::Float16
        | DataType::Float32
        | DataType::Float64 => true,
        _ => false,
    }
}

/// Whether a column of a type can have a vector index.
pub fn supports_vector_index(data_type: &DataType) -> (supported: bool)
    ensures
        supported == vector_type(*data_type),
{
    match data_type {
        DataType::FixedSizeList(element, _) => matches!(
            element.data_type,
            DataType::Int8
                | DataType::UInt8
                | DataType::Float16
                | DataType::Float32
                | DataType::Float64
        ),
        _ => false,
    }
}

/// Whether a column of a type holds texts.
pub open spec fn text_type(data_type: DataType) -> bool {
    data_type is Utf8 || data_type is LargeUtf8 || data_type is Utf8View
}

/// Whether a column of a type holds texts.
pub fn supports_text_index(data_type: &DataType) -> (supported: bool)
    ensures
        supported == text_type(*data_type),
{
    matches!(data_type, DataType::Utf8 | DataType::LargeUtf8 | DataType::Utf8View)
}

/// Whether a column of a type can have a Bloom filter index.
pub open spec fn bloom_filter_type(data_type: DataType) -> bool {
    match data_type {
        DataType::Int8
        | DataType::Int16
        | DataType::Int32
        | DataType::Int64
        | DataType::UInt8
        | DataType::UInt16
        | DataType::UInt32
        | DataType::UInt64
        | DataType::Float32
        | DataType::Float64
        | DataType::Utf8
        | DataType::LargeUtf8
        | DataType::Date32
        | DataType::Date64
        | DataType::Time32(_)
        | DataType::Time64(_)
        | DataType::Timestamp(_, _) => true,
        _ => false,
    }
}

/// Whether a column of a type can have a Bloom filter index.
pub fn supports_bloom_filter_index(data_type: &DataType) -> (supported: bool)
    ensures
        supported == bloom_filter_type(*data_type),
{
    matches!(
        data_type,
        DataType::Int8
            | DataType::Int16
            | DataType::Int32
            | DataType::Int64
            | DataType::UInt8
            | DataType::UInt16
            | DataType::UInt32
            | DataType::UInt64
            | DataType::Float32
            | DataType::Float64
            | DataType::Utf8
            | DataType::LargeUtf8
            | DataType::Date32
            | DataType::Date64
            | DataType::Time32(_)
            | DataType::Time64(_)
            | DataType::Timestamp(_, _)
    )
}

/// Whether a column of a type can have an index of a kind.
pub open spec fn supports(data_type: DataType, kind: IndexKind) -> bool {
    match kind {
        IndexKind::BTree => scalar_type(data_type),
        IndexKind::Vector => vector_type(data_type),
        IndexKind::Text => text_type(data_type),
        IndexKind::BloomFilter => bloom_filter_type(data_type),
    }
}

/// The error for a column that cannot have an index of the kind asked for.
pub open spec fn unsupported_index(column: Seq<char>, arrow_type: Seq<char>) -> crate::error::ErrorView {
    crate::error::argument_error(
        "cannot create the requested index on column '"@ + column + "' with type "@ + arrow_type,
    )
}

/// Checks that a field can have an index of a kind.
pub fn validate_index_type(field: &Field, column: &str, kind: IndexKind) -> (valid: Result<()>)
    ensures
        match valid {
            Ok(_) => supports(field.data_type, kind),
            Err(error) => !supports(field.data_type, kind) && error@ == unsupported_index(
                column@,
                field.arrow_type@,
            ),
        },
{
    let supported = match kind {
        IndexKind::BTree => supports_scalar_index(&field.data_type),
        IndexKind::Vector => supports_vector_index(&field.data_type),
        IndexKind::Text => supports_text_index(&field.data_type),
        IndexKind::BloomFilter => supports_bloom_filter_index(&field.data_type),
    };
    if supported {
        return Ok(());
    }
    let mut message = "cannot create the requested index on column '".to_owned();
    message.append(column);
    message.append("' with type ");
    message.append(field.arrow_type.as_str());
    Err(Error::invalid_argument(message, at("src/sink/lance_index.rs", 239, 9)))
}

/// Why a column cannot have an index, if it cannot.
pub open spec fn index_problem(schema: Schema, index: ColumnIndex) -> Option<
    crate::error::ErrorView,
> {
    match crate::schema::field_named(schema.fields@, index.column@) {
        None => Some(
            crate::error::argument_error("index column not found: "@ + index.column@),
        ),
        Some(field) => if supports(field.data_type, index.kind) {
            None
        } else {
            Some(unsupported_index(index.column@, field.arrow_type@))
        },
    }
}

/// Why the first of the indexes that cannot be created cannot, if there is one.
pub open spec fn first_problem(schema: Schema, indexes: Seq<ColumnIndex>) -> Option<
    crate::error::ErrorView,
>
    decreases indexes.len(),
{
    if indexes.len() == 0 {
        None
    } else {
        match first_problem(schema, indexes.drop_last()) {
            Some(error) => Some(error),
            None => index_problem(schema, indexes.last()),
        }
    }
}

/// Indexes of one kind on columns.
pub open spec fn indexes_on(columns: Seq<String>, kind: IndexKind) -> Seq<ColumnIndex> {
    columns.map_values(|column: String| ColumnIndex { column, kind })
}

/// The indexes that were asked for: scalar ones, then vector, text and Bloom
/// filter ones.
pub open spec fn requested_indexes(options: WriteOptions) -> Seq<ColumnIndex> {
    indexes_on(options.scalar_index_columns@, IndexKind::BTree) + indexes_on(
        options.vector_index_columns@,
        IndexKind::Vector,
    ) + indexes_on(options.text_index_columns@, IndexKind::Text) + indexes_on(
        options.bloom_filter_index_columns@,
        IndexKind::BloomFilter,
    )
}

/// Whether a column occurs more than once.
pub open spec fn has_column_twice(indexes: Seq<ColumnIndex>) -> bool {
    exists|i: int, j: int|
        0 <= i < j < indexes.len() && (#[trigger] indexes[i]).column@ == (
        #[trigger] indexes[j]).column@
}

proof fn lemma_problem_stays(schema: Schema, indexes: Seq<ColumnIndex>, more: Seq<ColumnIndex>)
    requires
        first_problem(schema, indexes) is Some,
    ensures
        first_problem(schema, indexes + more) == first_problem(schema, indexes),
    decreases more.len(),
{
    if more.len() > 0 {
        lemma_problem_stays(schema, indexes, more.drop_last());
        assert((indexes + more).drop_last() =~= indexes + more.drop_last());
    } else {
        assert(indexes + more =~= indexes);
    }
}

/// Adds indexes of one kind on columns.
fn append_indexes(
    schema: &Schema,
    columns: &Vec<String>,
    kind: IndexKind,
    indexes: &mut Vec<ColumnIndex>,
) -> (appended: Result<()>)
    requires
        first_problem(*schema, old(indexes)@) is None,
    ensures
        match appended {
            Ok(_) => {
                &&& final(indexes)@ == old(indexes)@ + indexes_on(columns@, kind)
                &&& first_problem(*schema, final(indexes)@) is None
            },
            Err(error) => first_problem(*schema, old(indexes)@ + indexes_on(columns@, kind))
                == Some(error@),
        },
{
    let ghost before = indexes@;
    let ghost added = indexes_on(columns@, kind);
    let mut i: usize = 0;
    assert(before + added.take(0) =~= before);
    while i < columns.len()
        invariant
            i <= columns@.len(),
            before == old(indexes)@,
            added == indexes_on(columns@, kind),
            indexes@ == before + added.take(i as int),
            first_problem(*schema, indexes@) is None,
        decreases columns@.len() - i,
    {
        let column = &columns[i];
        let ghost index = added[i as int];
        proof {
            assert(added.take(i + 1) =~= added.take(i as int).push(index));
            assert(before + added.take(i + 1) =~= indexes@.push(index));
            assert(indexes@.push(index).drop_last() =~= indexes@);
            assert(before + added =~= (before + added.take(i + 1)) + added.skip(i + 1));
        }
        let field = match schema.field_with_name(column.as_str()) {
            Some(field) => field,
            None => {
                let mut message = "index column not found: ".to_owned();
                message.append(column.as_str());
                proof {
                    lemma_problem_stays(*schema, before + added.take(i + 1), added.skip(i + 1));
                }
                return Err(Error::invalid_argument(
                    message,
                    at("src/sink/lance_index.rs", 361, 28),
                ));
            },
        };
        match validate_index_type(field, column.as_str(), kind) {
            Ok(_) => {},
            Err(error) => {
                proof {
                    lemma_problem_stays(*schema, before + added.take(i + 1), added.skip(i + 1));
                }
                return Err(error);
            },
        }
        indexes.push(ColumnIndex { column: column.clone(), kind });
        i += 1;
    }
    assert(added.take(i as int) =~= added);
    Ok(())
}

proof fn lemma_twice_by_members(left: Seq<ColumnIndex>, right: Seq<ColumnIndex>)
    requires
        left.to_multiset() == right.to_multiset(),
        has_column_twice(left),
    ensures
        has_column_twice(right),
{
    left.to_multiset_ensures();
    right.to_multiset_ensures();
    let (i, j) = choose|i: int, j: int|
        0 <= i < j < left.len() && (#[trigger] left[i]).column@ == (#[trigger] left[j]).column@;
    let first = left[i];
    let second = left[j];
    assert(left.contains(first));
    assert(left.to_multiset().count(first) > 0);
    assert(right.contains(first));
    let k = choose|k: int| 0 <= k < right.len() && right[k] == first;
    let fewer_left = left.remove(i);
    let fewer_right = right.remove(k);
    fewer_left.to_multiset_ensures();
    fewer_right.to_multiset_ensures();
    assert(fewer_left[j - 1] == second);
    assert(fewer_left.contains(second));
    assert(fewer_left.to_multiset().count(second) > 0);
    assert(fewer_left.to_multiset() == fewer_right.to_multiset());
    assert(fewer_right.contains(second));
    let l = choose|l: int| 0 <= l < fewer_right.len() && fewer_right[l] == second;
    let at = if l < k {
        l
    } else {
        l + 1
    };
    assert(right[at] == second);
    if at < k {
        assert(right[at].column@ == right[k].column@);
    } else {
        assert(right[k].column@ == right[at].column@);
    }
}

/// Whether neighbours in a sorted list have the same column.
fn has_equal_neighbours(indexes: &Vec<ColumnIndex>) -> (found: bool)
    requires
        crate::order::sorted_by_name(indexes@),
    ensures
        found == has_column_twice(indexes@),
{
    let mut i: usize = 1;
    while i < indexes.len()
        invariant
            1 <= i,
            crate::order::sorted_by_name(indexes@),
            forall|j: int, k: int|
                0 <= j < k < i && k < indexes@.len() ==> (#[trigger] indexes@[j]).column@ != (
                #[trigger] indexes@[k]).column@,
        decreases indexes@.len() - i,
    {
        if same_text(indexes[i - 1].column.as_str(), indexes[i].column.as_str()) {
            assert(indexes@[i - 1].column@ == indexes@[i as int].column@);
            return true;
        }
        proof {
            assert forall|j: int| 0 <= j < i implies (#[trigger] indexes@[j]).column@
                != indexes@[i as int].column@ by {
                if indexes@[j].column@ == indexes@[i as int].column@ {
                    let before = indexes@[i - 1].name_text();
                    let here = indexes@[i as int].name_text();
                    assert(crate::order::text_le(indexes@[j].name_text(), before));
                    assert(crate::order::text_le(before, here));
                    crate::order::lemma_text_order_is_total();
                    let leq = |left: Seq<char>, right: Seq<char>|
                        crate::order::text_le(left, right);
                    assert(leq(here, before) && leq(before, here));
                }
            }
        }
        i += 1;
    }
    false
}

/// The indexes that are created after a write, sorted by their columns.
#[derive(Debug)]
pub struct LanceIndexPlan {
    indexes: Vec<ColumnIndex>,
}

impl View for LanceIndexPlan {
    type V = Seq<ColumnIndex>;

    closed spec fn view(&self) -> Seq<ColumnIndex> {
        self.indexes@
    }
}

/// Why indexes cannot be created, if they cannot.
pub open spec fn plan_problem(schema: Schema, indexes: Seq<ColumnIndex>) -> Option<
    crate::error::ErrorView,
> {
    match first_problem(schema, indexes) {
        Some(error) => Some(error),
        None => if has_column_twice(indexes) {
            Some(
                crate::error::argument_error(
                    "a column cannot have multiple indexes in one write"@,
                ),
            )
        } else {
            None
        },
    }
}

/// One index to create.
#[derive(Debug)]
pub struct IndexStep {
    pub column: String,
    /// The name of the index. Without one, it is named after its column.
    pub name: Option<String>,
    pub settings: IndexSettings,
    /// What the step is called in errors.
    pub context: String,
}

/// How an index is built.
#[derive(Clone, Copy, Debug, PartialEq, Eq, Structural)]
pub enum IndexMethod {
    BTree,
    /// Inverted lists of whole vectors, in this many partitions.
    IvfFlat { partitions: usize, metric: Metric },
    /// Full-text search.
    Inverted,
    BloomFilter,
}

/// How far apart two vectors are.
#[derive(Clone, Copy, Debug, PartialEq, Eq, Structural)]
pub enum Metric {
    /// Euclidean distance.
    L2,
}

/// The settings of an index.
#[derive(Clone, Copy, Debug, PartialEq, Eq, Structural)]
pub struct IndexSettings {
    pub method: IndexMethod,
    /// Whether it takes the place of an index of the same name.
    pub replace: bool,
}

/// How an index is built on a table of `rows` rows.
pub open spec fn method_for(kind: IndexKind, rows: nat) -> IndexMethod {
    match kind {
        IndexKind::BTree => IndexMethod::BTree,
        IndexKind::Vector => IndexMethod::IvfFlat {
            partitions: vector_partitions(rows) as usize,
            metric: Metric::L2,
        },
        IndexKind::Text => IndexMethod::Inverted,
        IndexKind::BloomFilter => IndexMethod::BloomFilter,
    }
}

/// The settings of an index on a table of `rows` rows. It replaces one that is
/// there.
pub open spec fn settings_for(kind: IndexKind, rows: nat) -> IndexSettings {
    IndexSettings { method: method_for(kind, rows), replace: true }
}

/// The settings of an index on a table of `rows` rows.
pub fn index_settings(kind: IndexKind, rows: usize) -> (settings: IndexSettings)
    ensures
        settings == settings_for(kind, rows as nat),
{
    let method = match kind {
        IndexKind::BTree => IndexMethod::BTree,
        IndexKind::Vector => IndexMethod::IvfFlat {
            partitions: partition_count(rows),
            metric: Metric::L2,
        },
        IndexKind::Text => IndexMethod::Inverted,
        IndexKind::BloomFilter => IndexMethod::BloomFilter,
    };
    IndexSettings { method, replace: true }
}

/// What the creation of an index is called in errors.
pub open spec fn step_context(index: ColumnIndex) -> Seq<char> {
    let what = match index.kind {
        IndexKind::BTree => "creating BTree index on '"@,
        IndexKind::Vector => "creating vector index on '"@,
        IndexKind::Text => "creating text index on '"@,
        IndexKind::BloomFilter => "creating Bloom filter index on '"@,
    };
    what + index.column@ + "'"@
}

/// The number of partitions of a vector index: one for every
/// `TARGET_VECTOR_PARTITION_ROWS` rows begun, at least one, and at most
/// `MAX_VECTOR_PARTITIONS`.
pub open spec fn vector_partitions(rows: nat) -> nat {
    let wanted = (rows + TARGET_VECTOR_PARTITION_ROWS as nat - 1) / (TARGET_VECTOR_PARTITION_ROWS
        as int);
    if wanted < 1 {
        1
    } else if wanted > MAX_VECTOR_PARTITIONS {
        MAX_VECTOR_PARTITIONS as nat
    } else {
        wanted as nat
    }
}

/// The number of partitions of a vector index on `rows` rows.
pub fn partition_count(rows: usize) -> (partitions: usize)
    ensures
        partitions == vector_partitions(rows as nat),
{
    let whole: usize = rows / TARGET_VECTOR_PARTITION_ROWS;
    let wanted: usize = if rows % TARGET_VECTOR_PARTITION_ROWS == 0 {
        whole
    } else {
        whole + 1
    };
    if wanted < 1 {
        1
    } else if wanted > MAX_VECTOR_PARTITIONS {
        MAX_VECTOR_PARTITIONS
    } else {
        wanted
    }
}

/// Whether a step creates an index on a table of `rows` rows.
pub open spec fn creates(step: IndexStep, index: ColumnIndex, rows: usize) -> bool {
    &&& step.column@ == index.column@
    &&& step.name is None
    &&& step.settings == settings_for(index.kind, rows as nat)
    &&& step.context@ == step_context(index)
}

impl LanceIndexPlan {
    /// Plans the indexes that were asked for. Every column exists, has a type
    /// that its index supports, and occurs once.
    pub fn new(schema: &Schema, options: &WriteOptions) -> (plan: Result<Self>)
        ensures
            match plan {
                Ok(plan) => {
                    &&& plan_problem(*schema, requested_indexes(*options)) is None
                    &&& plan@.to_multiset() == requested_indexes(*options).to_multiset()
                    &&& crate::order::sorted_by_name(plan@)
                    &&& !has_column_twice(plan@)
                },
                Err(error) => plan_problem(*schema, requested_indexes(*options)) == Some(error@),
            },
    {
        let mut indexes: Vec<ColumnIndex> = Vec::new();
        let ghost scalar = indexes_on(options.scalar_index_columns@, IndexKind::BTree);
        let ghost vector = indexes_on(options.vector_index_columns@, IndexKind::Vector);
        let ghost text = indexes_on(options.text_index_columns@, IndexKind::Text);
        let ghost bloom = indexes_on(options.bloom_filter_index_columns@, IndexKind::BloomFilter);
        proof {
            assert(Seq::<ColumnIndex>::empty() + scalar =~= scalar);
            assert(requested_indexes(*options) =~= scalar + (vector + text + bloom));
            assert(requested_indexes(*options) =~= (scalar + vector) + (text + bloom));
        }
        match append_indexes(
            schema,
            &options.scalar_index_columns,
            IndexKind::BTree,
            &mut indexes,
        ) {
            Ok(_) => {},
            Err(error) => {
                proof {
                    lemma_problem_stays(*schema, scalar, vector + text + bloom);
                }
                return Err(error);
            },
        }
        match append_indexes(
            schema,
            &options.vector_index_columns,
            IndexKind::Vector,
            &mut indexes,
        ) {
            Ok(_) => {},
            Err(error) => {
                proof {
                    lemma_problem_stays(*schema, scalar + vector, text + bloom);
                }
                return Err(error);
            },
        }
        match append_indexes(schema, &options.text_index_columns, IndexKind::Text, &mut indexes) {
            Ok(_) => {},
            Err(error) => {
                proof {
                    lemma_problem_stays(*schema, scalar + vector + text, bloom);
                }
                return Err(error);
            },
        }
        match append_indexes(
            schema,
            &options.bloom_filter_index_columns,
            IndexKind::BloomFilter,
            &mut indexes,
        ) {
            Ok(_) => {},
            Err(error) => {
                return Err(error);
            },
        }
        let ghost requested = indexes@;
        let indexes = sort_by_name(indexes);
        let twice = has_equal_neighbours(&indexes);
        proof {
            assert(requested == requested_indexes(*options));
            if has_column_twice(requested) {
                lemma_twice_by_members(requested, indexes@);
            }
            if has_column_twice(indexes@) {
                lemma_twice_by_members(indexes@, requested);
            }
        }
        if twice {
            return Err(
                Error::invalid_argument(
                    "a column cannot have multiple indexes in one write".to_owned(),
                    at("src/sink/lance_index.rs", 710, 17),
                ),
            );
        }
        Ok(LanceIndexPlan { indexes })
    }

    /// Whether the plan depends on the number of rows.
    pub fn needs_row_count(&self) -> (needed: bool)
        ensures
            needed == exists|i: int|
                0 <= i < self@.len() && (#[trigger] self@[i]).kind == IndexKind::Vector,
    {
        let mut i: usize = 0;
        while i < self.indexes.len()
            invariant
                i <= self.indexes@.len(),
                forall|j: int| 0 <= j < i ==> (#[trigger] self@[j]).kind != IndexKind::Vector,
            decreases self.indexes@.len() - i,
        {
            if self.indexes[i].kind == IndexKind::Vector {
                assert(self@[i as int].kind == IndexKind::Vector);
                return true;
            }
            i += 1;
        }
        false
    }

    /// The indexes to create, one after the other, on a table of `rows` rows.
    pub fn create(&self, rows: usize) -> (steps: Vec<IndexStep>)
        ensures
            steps@.len() == self@.len(),
            forall|i: int|
                0 <= i < steps@.len() ==> creates(#[trigger] steps@[i], self@[i], rows),
    {
        let mut steps: Vec<IndexStep> = Vec::new();
        let mut i: usize = 0;
        while i < self.indexes.len()
            invariant
                i <= self.indexes@.len(),
                steps@.len() == i,
                forall|j: int| 0 <= j < i ==> creates(#[trigger] steps@[j], self@[j], rows),
            decreases self.indexes@.len() - i,
        {
            let index = &self.indexes[i];
            let settings = index_settings(index.kind, rows);
            let mut context = match index.kind {
                IndexKind::BTree => "creating BTree index on '".to_owned(),
                IndexKind::Vector => "creating vector index on '".to_owned(),
                IndexKind::Text => "creating text index on '".to_owned(),
                IndexKind::BloomFilter => "creating Bloom filter index on '".to_owned(),
            };
            context.append(index.column.as_str());
            context.append("'");
            steps.push(
                IndexStep { column: index.column.clone(), name: None, settings, context },
            );
            i += 1;
        }
        steps
    }
}

/// A vector index never has fewer partitions on more rows.
pub proof fn law_partitions_grow(fewer: nat, more: nat)
    requires
        fewer <= more,
    ensures
        vector_partitions(fewer) <= vector_partitions(more),
        1 <= vector_partitions(fewer) <= MAX_VECTOR_PARTITIONS,
{
}

}
