//! What holds of writes and their indexes, whatever is written.

use vstd::prelude::*;

use super::lance::{Received, WriteOptions, WriterEvent, WriterState};
use super::lance_index::{ColumnIndex, IndexKind, IndexMethod, Metric};
use crate::schema::{DataType, Field, Schema, TimeUnit};

verus! {

/// Numbers, texts, truth values, decimals and times can have a scalar index.
pub proof fn law_plain_columns_can_be_ordered(
    precision: u8,
    scale: i8,
    unit: TimeUnit,
    zone: Option<String>,
)
    ensures
        super::lance_index::supports(DataType::Boolean, IndexKind::BTree),
        super::lance_index::supports(DataType::Int8, IndexKind::BTree),
        super::lance_index::supports(DataType::Int16, IndexKind::BTree),
        super::lance_index::supports(DataType::Int32, IndexKind::BTree),
        super::lance_index::supports(DataType::Int64, IndexKind::BTree),
        super::lance_index::supports(DataType::UInt8, IndexKind::BTree),
        super::lance_index::supports(DataType::UInt16, IndexKind::BTree),
        super::lance_index::supports(DataType::UInt32, IndexKind::BTree),
        super::lance_index::supports(DataType::UInt64, IndexKind::BTree),
        super::lance_index::supports(DataType::Float16, IndexKind::BTree),
        super::lance_index::supports(DataType::Float32, IndexKind::BTree),
        super::lance_index::supports(DataType::Float64, IndexKind::BTree),
        super::lance_index::supports(DataType::Decimal128(precision, scale), IndexKind::BTree),
        super::lance_index::supports(DataType::Utf8, IndexKind::BTree),
        super::lance_index::supports(DataType::LargeUtf8, IndexKind::BTree),
        super::lance_index::supports(DataType::Utf8View, IndexKind::BTree),
        super::lance_index::supports(DataType::Date32, IndexKind::BTree),
        super::lance_index::supports(DataType::Date64, IndexKind::BTree),
        super::lance_index::supports(DataType::Time32(unit), IndexKind::BTree),
        super::lance_index::supports(DataType::Time64(unit), IndexKind::BTree),
        super::lance_index::supports(DataType::Timestamp(unit, zone), IndexKind::BTree),
{
}

/// Bytes and nested values can have no index but a vector index.
pub proof fn law_bytes_and_nested_values_have_no_order(
    data_type: DataType,
    kind: IndexKind,
)
    requires
        data_type is Binary || data_type is LargeBinary || data_type is BinaryView
            || data_type is FixedSizeBinary || data_type is List || data_type is LargeList
            || data_type is FixedSizeList || data_type is Struct || data_type is Other,
        kind != IndexKind::Vector || !(data_type is FixedSizeList),
    ensures
        !super::lance_index::supports(data_type, kind),
{
}

/// Vectors are lists of one size, and their elements are small integers or
/// floats. Nothing else can have a vector index.
pub proof fn law_vectors_are_lists_of_numbers(data_type: DataType, element: Field, size: i32)
    ensures
        !(data_type is FixedSizeList) ==> !super::lance_index::supports(
            data_type,
            IndexKind::Vector,
        ),
        super::lance_index::supports(
            DataType::FixedSizeList(Box::new(element), size),
            IndexKind::Vector,
        ) <==> element.data_type is Int8 || element.data_type is UInt8
            || element.data_type is Float16 || element.data_type is Float32
            || element.data_type is Float64,
{
}

/// Only texts can have a text index. All of them can have a scalar index too.
pub proof fn law_text_indexes_are_for_texts(data_type: DataType)
    ensures
        super::lance_index::supports(data_type, IndexKind::Text) <==> data_type is Utf8
            || data_type is LargeUtf8 || data_type is Utf8View,
        super::lance_index::supports(data_type, IndexKind::Text) ==> super::lance_index::supports(
            data_type,
            IndexKind::BTree,
        ),
{
}

/// A Bloom filter needs a type that can have a scalar index. Of those, truth
/// values, half floats, decimals and views of texts can have none.
pub proof fn law_bloom_filters_are_for_plain_columns(data_type: DataType)
    ensures
        super::lance_index::supports(data_type, IndexKind::BloomFilter)
            <==> super::lance_index::supports(data_type, IndexKind::BTree) && !(
        data_type is Boolean) && !(data_type is Float16) && !(data_type is Decimal128) && !(
        data_type is Utf8View),
{
}

/// The partitions of a vector index have room for all rows, unless there are as
/// many as there can be. None of them is more than is needed.
pub proof fn law_partitions_fit_the_rows(rows: nat)
    ensures
        rows <= 8192 * super::lance_index::vector_partitions(rows)
            || super::lance_index::vector_partitions(rows) == 4096,
        super::lance_index::vector_partitions(rows) == 1 || 8192 * (
        super::lance_index::vector_partitions(rows) - 1) < rows,
        1 <= super::lance_index::vector_partitions(rows) <= 4096,
{
}

/// An index is built by the method of its kind, and replaces one that is there.
pub proof fn law_kinds_have_methods(kind: IndexKind, rows: nat)
    ensures
        super::lance_index::settings_for(kind, rows).replace,
        super::lance_index::settings_for(kind, rows).method is BTree <==> kind is BTree,
        super::lance_index::settings_for(kind, rows).method is IvfFlat <==> kind is Vector,
        super::lance_index::settings_for(kind, rows).method is Inverted <==> kind is Text,
        super::lance_index::settings_for(kind, rows).method is BloomFilter
            <==> kind is BloomFilter,
        super::lance_index::settings_for(kind, rows).method matches IndexMethod::IvfFlat {
            partitions,
            metric,
        } ==> partitions == super::lance_index::vector_partitions(rows) && metric == Metric::L2,
{
}

/// Every column that is named for an index gets an index of that kind, and there
/// are no others.
pub proof fn law_indexes_are_those_asked_for(options: WriteOptions)
    ensures
        forall|i: int|
            0 <= i < options.scalar_index_columns@.len()
                ==> super::lance_index::requested_indexes(options).contains(
                ColumnIndex {
                    column: #[trigger] options.scalar_index_columns@[i],
                    kind: IndexKind::BTree,
                },
            ),
        forall|i: int|
            0 <= i < options.vector_index_columns@.len()
                ==> super::lance_index::requested_indexes(options).contains(
                ColumnIndex {
                    column: #[trigger] options.vector_index_columns@[i],
                    kind: IndexKind::Vector,
                },
            ),
        forall|i: int|
            0 <= i < options.text_index_columns@.len()
                ==> super::lance_index::requested_indexes(options).contains(
                ColumnIndex {
                    column: #[trigger] options.text_index_columns@[i],
                    kind: IndexKind::Text,
                },
            ),
        forall|i: int|
            0 <= i < options.bloom_filter_index_columns@.len()
                ==> super::lance_index::requested_indexes(options).contains(
                ColumnIndex {
                    column: #[trigger] options.bloom_filter_index_columns@[i],
                    kind: IndexKind::BloomFilter,
                },
            ),
        super::lance_index::requested_indexes(options).len() == options.scalar_index_columns@.len()
            + options.vector_index_columns@.len() + options.text_index_columns@.len()
            + options.bloom_filter_index_columns@.len(),
{
    let all = super::lance_index::requested_indexes(options);
    let scalar = options.scalar_index_columns@;
    let vector = options.vector_index_columns@;
    let text = options.text_index_columns@;
    let bloom = options.bloom_filter_index_columns@;
    assert forall|i: int| 0 <= i < scalar.len() implies all.contains(
        ColumnIndex { column: #[trigger] scalar[i], kind: IndexKind::BTree },
    ) by {
        assert(all[i] == ColumnIndex { column: scalar[i], kind: IndexKind::BTree });
    }
    assert forall|i: int| 0 <= i < vector.len() implies all.contains(
        ColumnIndex { column: #[trigger] vector[i], kind: IndexKind::Vector },
    ) by {
        assert(all[scalar.len() + i] == ColumnIndex {
            column: vector[i],
            kind: IndexKind::Vector,
        });
    }
    assert forall|i: int| 0 <= i < text.len() implies all.contains(
        ColumnIndex { column: #[trigger] text[i], kind: IndexKind::Text },
    ) by {
        assert(all[scalar.len() + vector.len() + i] == ColumnIndex {
            column: text[i],
            kind: IndexKind::Text,
        });
    }
    assert forall|i: int| 0 <= i < bloom.len() implies all.contains(
        ColumnIndex { column: #[trigger] bloom[i], kind: IndexKind::BloomFilter },
    ) by {
        assert(all[scalar.len() + vector.len() + text.len() + i] == ColumnIndex {
            column: bloom[i],
            kind: IndexKind::BloomFilter,
        });
    }
}

/// Whether an index can be created: its column exists and has a type that it
/// supports.
pub open spec fn can_be_created(schema: Schema, index: ColumnIndex) -> bool {
    crate::schema::field_named(schema.fields@, index.column@) matches Some(field)
        && super::lance_index::supports(field.data_type, index.kind)
}

proof fn lemma_no_index_problem(schema: Schema, indexes: Seq<ColumnIndex>)
    ensures
        super::lance_index::first_problem(schema, indexes) is None <==> forall|i: int|
            0 <= i < indexes.len() ==> can_be_created(schema, #[trigger] indexes[i]),
    decreases indexes.len(),
{
    if indexes.len() > 0 {
        let shorter = indexes.drop_last();
        lemma_no_index_problem(schema, shorter);
        assert(indexes[indexes.len() - 1] == indexes.last());
        if super::lance_index::first_problem(schema, indexes) is None {
            assert forall|i: int| 0 <= i < indexes.len() implies can_be_created(
                schema,
                #[trigger] indexes[i],
            ) by {
                if i < shorter.len() {
                    assert(shorter[i] == indexes[i]);
                }
            }
        } else if forall|i: int|
            0 <= i < indexes.len() ==> can_be_created(schema, #[trigger] indexes[i]) {
            assert forall|i: int| 0 <= i < shorter.len() implies can_be_created(
                schema,
                #[trigger] shorter[i],
            ) by {
                assert(shorter[i] == indexes[i]);
            }
        }
    }
}

/// Indexes can be planned where each can be created and no two are on one column,
/// and only there.
pub proof fn law_plans_need_good_columns(schema: Schema, indexes: Seq<ColumnIndex>)
    ensures
        super::lance_index::plan_problem(schema, indexes) is None <==> (forall|i: int|
            0 <= i < indexes.len() ==> can_be_created(schema, #[trigger] indexes[i])) && (forall|
            i: int,
            j: int,
        |
            0 <= i < j < indexes.len() ==> (#[trigger] indexes[i]).column@ != (
            #[trigger] indexes[j]).column@),
{
    lemma_no_index_problem(schema, indexes);
}

/// Whether a column can hold blobs: it exists, holds texts, and has no index.
pub open spec fn can_hold_blobs(schema: Schema, options: WriteOptions, name: Seq<char>) -> bool {
    &&& crate::schema::field_named(schema.fields@, name) matches Some(field) && (
    field.data_type is Utf8 || field.data_type is LargeUtf8 || field.data_type is Utf8View)
    &&& forall|i: int|
        0 <= i < options.scalar_index_columns@.len() ==> (
        #[trigger] options.scalar_index_columns@[i])@ != name
    &&& forall|i: int|
        0 <= i < options.vector_index_columns@.len() ==> (
        #[trigger] options.vector_index_columns@[i])@ != name
    &&& forall|i: int|
        0 <= i < options.text_index_columns@.len() ==> (
        #[trigger] options.text_index_columns@[i])@ != name
    &&& forall|i: int|
        0 <= i < options.bloom_filter_index_columns@.len() ==> (
        #[trigger] options.bloom_filter_index_columns@[i])@ != name
}

proof fn lemma_no_blob_problem(schema: Schema, options: WriteOptions, columns: Seq<String>)
    ensures
        super::lance::first_blob_problem(schema, options, columns) is None <==> forall|i: int|
            0 <= i < columns.len() ==> can_hold_blobs(schema, options, (#[trigger] columns[i])@),
    decreases columns.len(),
{
    if columns.len() > 0 {
        let shorter = columns.drop_last();
        lemma_no_blob_problem(schema, options, shorter);
        assert(columns[columns.len() - 1] == columns.last());
        assert(super::lance::blob_problem(schema, options, columns.last()@) is None
            <==> can_hold_blobs(schema, options, columns.last()@));
        if super::lance::first_blob_problem(schema, options, columns) is None {
            assert forall|i: int| 0 <= i < columns.len() implies can_hold_blobs(
                schema,
                options,
                (#[trigger] columns[i])@,
            ) by {
                if i < shorter.len() {
                    assert(shorter[i] == columns[i]);
                }
            }
        } else if forall|i: int|
            0 <= i < columns.len() ==> can_hold_blobs(schema, options, (#[trigger] columns[i])@) {
            assert forall|i: int| 0 <= i < shorter.len() implies can_hold_blobs(
                schema,
                options,
                (#[trigger] shorter[i])@,
            ) by {
                assert(shorter[i] == columns[i]);
            }
        }
    }
}

/// A write can begin where its schema can be written, every blob column can hold
/// blobs, and its indexes can be planned, and only there.
pub proof fn law_writes_begin_with_good_columns(schema: Schema, options: WriteOptions)
    ensures
        super::lance::write_problem(schema, options) is None <==> {
            &&& crate::schema::schema_problem(schema) is None
            &&& forall|i: int|
                0 <= i < options.blob_columns@.len() ==> can_hold_blobs(
                    schema,
                    options,
                    (#[trigger] options.blob_columns@[i])@,
                )
            &&& super::lance_index::plan_problem(
                schema,
                super::lance_index::requested_indexes(options),
            ) is None
        },
{
    lemma_no_blob_problem(schema, options, options.blob_columns@);
}

/// A write that is refused is refused for an argument.
pub proof fn law_refused_writes_have_bad_arguments(schema: Schema, options: WriteOptions)
    requires
        crate::schema::schema_problem(schema) is None,
    ensures
        super::lance::write_problem(schema, options) matches Some(error) ==> error.kind
            == crate::error::ErrorKind::InvalidArgument,
{
    lemma_blob_problems_are_arguments(schema, options, options.blob_columns@);
    lemma_index_problems_are_arguments(schema, super::lance_index::requested_indexes(options));
}

proof fn lemma_blob_problems_are_arguments(
    schema: Schema,
    options: WriteOptions,
    columns: Seq<String>,
)
    ensures
        super::lance::first_blob_problem(schema, options, columns) matches Some(error)
            ==> error.kind == crate::error::ErrorKind::InvalidArgument,
    decreases columns.len(),
{
    if columns.len() > 0 {
        lemma_blob_problems_are_arguments(schema, options, columns.drop_last());
    }
}

proof fn lemma_index_problems_are_arguments(schema: Schema, indexes: Seq<ColumnIndex>)
    ensures
        super::lance_index::first_problem(schema, indexes) matches Some(error) ==> error.kind
            == crate::error::ErrorKind::InvalidArgument,
    decreases indexes.len(),
{
    if indexes.len() > 0 {
        lemma_index_problems_are_arguments(schema, indexes.drop_last());
    }
}

/// The rows of a stream add up: a batch in front adds its rows, and the end adds
/// none, whatever comes behind it.
pub proof fn law_rows_add_up(arrivals: Seq<Received>, rows: usize)
    ensures
        super::lance::rows_before_end(seq![Received::Batch(rows)] + arrivals)
            == match super::lance::rows_before_end(arrivals) {
            Some(more) => Some(rows as nat + more),
            None => None,
        },
        super::lance::rows_before_end(seq![Received::Finish] + arrivals) == Some(0nat),
        super::lance::rows_before_end(seq![Received::Closed] + arrivals) is None,
        super::lance::rows_before_end(Seq::empty()) is None,
{
    assert((seq![Received::Batch(rows)] + arrivals).skip(1) =~= arrivals);
}

/// A writer takes every batch of its schema. The end finishes it where the worker
/// wrote the dataset, and fails it otherwise; a batch of another schema or giving
/// up closes it, and a batch that is not taken fails it.
pub proof fn law_complete_writes_finish(events: Seq<WriterEvent>)
    requires
        forall|i: int|
            0 <= i < events.len() ==> #[trigger] events[i] == (WriterEvent::Batch {
                schema_matches: true,
            }),
    ensures
        super::lance::state_after(events) == WriterState::Open,
        super::lance::state_after(
            events.push(WriterEvent::Finish { sent: true, written: true }),
        ) == WriterState::Finished,
        super::lance::state_after(
            events.push(WriterEvent::Finish { sent: true, written: false }),
        ) == WriterState::Failed,
        super::lance::state_after(
            events.push(WriterEvent::Finish { sent: false, written: true }),
        ) == WriterState::Failed,
        super::lance::state_after(
            events.push(WriterEvent::Finish { sent: false, written: false }),
        ) == WriterState::Failed,
        super::lance::state_after(events.push(WriterEvent::Batch { schema_matches: false }))
            == WriterState::Closing,
        super::lance::state_after(events.push(WriterEvent::Abort)) == WriterState::Closing,
        super::lance::state_after(events.push(WriterEvent::Refused)) == WriterState::Failed,
        super::lance::state_after(events.push(WriterEvent::Joined)) == WriterState::Open,
        super::lance::state_after(events.push(WriterEvent::Abort).push(WriterEvent::Joined))
            == WriterState::Failed,
{
    lemma_still_open(events);
    assert(events.push(WriterEvent::Finish { sent: true, written: true }).drop_last() =~= events);
    assert(events.push(WriterEvent::Finish { sent: true, written: false }).drop_last() =~= events);
    assert(events.push(WriterEvent::Finish { sent: false, written: true }).drop_last() =~= events);
    assert(events.push(WriterEvent::Finish { sent: false, written: false }).drop_last() =~= events);
    assert(events.push(WriterEvent::Batch { schema_matches: false }).drop_last() =~= events);
    assert(events.push(WriterEvent::Abort).drop_last() =~= events);
    assert(events.push(WriterEvent::Refused).drop_last() =~= events);
    assert(events.push(WriterEvent::Joined).drop_last() =~= events);
    assert(events.push(WriterEvent::Abort).push(WriterEvent::Joined).drop_last() =~= events.push(
        WriterEvent::Abort,
    ));
}

proof fn lemma_still_open(events: Seq<WriterEvent>)
    requires
        forall|i: int|
            0 <= i < events.len() ==> #[trigger] events[i] == (WriterEvent::Batch {
                schema_matches: true,
            }),
    ensures
        super::lance::state_after(events) == WriterState::Open,
    decreases events.len(),
{
    if events.len() > 0 {
        let shorter = events.drop_last();
        assert forall|i: int| 0 <= i < shorter.len() implies #[trigger] shorter[i] == (
        WriterEvent::Batch { schema_matches: true }) by {
            assert(shorter[i] == events[i]);
        }
        lemma_still_open(shorter);
        assert(events.last() == events[events.len() - 1]);
    }
}

/// Indexes are sorted by the names of their columns.
pub proof fn law_sorted_indexes_go_up(indexes: Seq<ColumnIndex>, i: int, j: int)
    requires
        crate::order::sorted_by_name(indexes),
        0 <= i <= j < indexes.len(),
    ensures
        crate::order::bytes_le(
            vstd::utf8::encode_utf8(indexes[i].column@),
            vstd::utf8::encode_utf8(indexes[j].column@),
        ),
{
    crate::order::law_sorted_names_go_up(indexes, i, j);
}

/// A step is on the column of its index, by the method of its kind, under no name
/// of its own, and says in errors which column it is on.
pub proof fn law_steps_create_their_indexes(
    step: super::lance_index::IndexStep,
    index: ColumnIndex,
    rows: usize,
)
    requires
        super::lance_index::creates(step, index, rows),
    ensures
        step.column@ == index.column@,
        step.name is None,
        step.settings.replace,
        step.settings.method is BTree <==> index.kind is BTree,
        step.settings.method is IvfFlat <==> index.kind is Vector,
        step.settings.method is Inverted <==> index.kind is Text,
        step.settings.method is BloomFilter <==> index.kind is BloomFilter,
        step.settings.method matches IndexMethod::IvfFlat { partitions, .. } ==> (rows <= 8192
            * partitions || partitions == 4096) && (partitions == 1 || 8192 * (partitions - 1)
            < rows),
        exists|what: Seq<char>, end: Seq<char>| #[trigger] (what + index.column@ + end)
            == step.context@,
{
    law_kinds_have_methods(index.kind, rows as nat);
    law_partitions_fit_the_rows(rows as nat);
    let what = match index.kind {
        IndexKind::BTree => "creating BTree index on '"@,
        IndexKind::Vector => "creating vector index on '"@,
        IndexKind::Text => "creating text index on '"@,
        IndexKind::BloomFilter => "creating Bloom filter index on '"@,
    };
    assert(what + index.column@ + "'"@ == step.context@);
}

/// What a worker that was waited for says is what the write comes to. Where
/// waiting fails, the write fails for that reason.
pub proof fn law_workers_have_the_last_word(
    outcome: crate::error::Result<super::WriteSummary>,
    joined: super::lance::Joined,
)
    requires
        super::lance::tells_joined(outcome, joined),
    ensures
        joined matches Ok(result) ==> outcome == result,
        joined matches Err(message) ==> (outcome matches Err(error) && error@.kind
            == crate::error::ErrorKind::Task && error@.details.source == Some(message@)),
{
}

}
