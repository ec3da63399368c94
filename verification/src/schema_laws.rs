//! What holds of schemas, whatever their columns.

use vstd::prelude::*;

use crate::schema::{Field, Schema};

verus! {

/// Each of these types can be written.
pub proof fn law_plain_types_are_accepted(field: Field)
    requires
        field.data_type is Boolean || field.data_type is Int8 || field.data_type is Int16
            || field.data_type is Int32 || field.data_type is Int64 || field.data_type is UInt8
            || field.data_type is UInt16 || field.data_type is UInt32 || field.data_type is UInt64
            || field.data_type is Float16 || field.data_type is Float32
            || field.data_type is Float64 || field.data_type is Utf8
            || field.data_type is LargeUtf8 || field.data_type is Binary
            || field.data_type is LargeBinary || field.data_type is FixedSizeBinary
            || field.data_type is Decimal128 || field.data_type is Date32
            || field.data_type is Date64 || field.data_type is Time32 || field.data_type is Time64
            || field.data_type is Timestamp,
    ensures
        crate::schema::unsupported_type(field) is None,
{
}

/// Views, and types that are not known, cannot be written. They are reported by
/// the name that Arrow has for them.
pub proof fn law_other_types_are_refused(field: Field)
    requires
        field.data_type is Utf8View || field.data_type is BinaryView || field.data_type is Other,
    ensures
        crate::schema::unsupported_type(field) == Some(field.arrow_type@),
{
}

/// A list can be written where its elements can, and is refused for what is
/// wrong with them.
pub proof fn law_lists_are_their_elements(field: Field, element: Box<Field>)
    requires
        field.data_type == crate::schema::DataType::List(element) || field.data_type
            == crate::schema::DataType::LargeList(element) || (
        field.data_type matches crate::schema::DataType::FixedSizeList(found, _) && found
            == element),
    ensures
        crate::schema::unsupported_type(field) == crate::schema::unsupported_type(*element),
{
}

/// Whether `found` is what is wrong with the first of the fields that cannot be
/// written.
pub open spec fn first_refusal(fields: Seq<Field>, found: Seq<char>) -> bool {
    exists|i: int|
        0 <= i < fields.len() && crate::schema::unsupported_type(#[trigger] fields[i]) == Some(
            found,
        ) && forall|j: int|
            0 <= j < i ==> crate::schema::unsupported_type(#[trigger] fields[j]) is None
}

proof fn lemma_first_refusal(fields: Seq<Field>)
    ensures
        match crate::schema::unsupported_type_in(fields) {
            None => forall|i: int|
                0 <= i < fields.len() ==> crate::schema::unsupported_type(
                    #[trigger] fields[i],
                ) is None,
            Some(found) => first_refusal(fields, found),
        },
    decreases fields.len(),
{
    if fields.len() > 0 {
        let rest = fields.skip(1);
        lemma_first_refusal(rest);
        match crate::schema::unsupported_type(fields[0]) {
            Some(found) => {
                assert(crate::schema::unsupported_type_in(fields) == Some(found));
                assert(first_refusal(fields, found));
            },
            None => {
                match crate::schema::unsupported_type_in(rest) {
                    None => {
                        assert forall|i: int|
                            0 <= i < fields.len() implies crate::schema::unsupported_type(
                            #[trigger] fields[i],
                        ) is None by {
                            if i > 0 {
                                assert(rest[i - 1] == fields[i]);
                            }
                        }
                    },
                    Some(found) => {
                        let i = choose|i: int|
                            0 <= i < rest.len() && crate::schema::unsupported_type(
                                #[trigger] rest[i],
                            ) == Some(found) && forall|j: int|
                                0 <= j < i ==> crate::schema::unsupported_type(
                                    #[trigger] rest[j],
                                ) is None;
                        assert(crate::schema::unsupported_type(fields[i + 1]) == Some(found));
                        assert forall|j: int| 0 <= j < i + 1 implies crate::schema::unsupported_type(
                            #[trigger] fields[j],
                        ) is None by {
                            if j > 0 {
                                assert(rest[j - 1] == fields[j]);
                            }
                        }
                    },
                }
            },
        }
    }
}

/// A struct can be written where all of its fields can, and is refused for what
/// is wrong with the first that cannot.
pub proof fn law_structs_are_their_fields(field: Field, fields: Vec<Field>)
    requires
        field.data_type == crate::schema::DataType::Struct(fields),
    ensures
        match crate::schema::unsupported_type(field) {
            None => forall|i: int|
                0 <= i < fields@.len() ==> crate::schema::unsupported_type(
                    #[trigger] fields@[i],
                ) is None,
            Some(found) => first_refusal(fields@, found),
        },
{
    lemma_first_refusal(fields@);
}

/// A schema is accepted where it has columns and all of them can be written. It
/// is refused for the first that cannot, and the error names its type.
pub proof fn law_schema_is_refused_for_its_first_column(schema: Schema)
    ensures
        match crate::schema::schema_problem(schema) {
            None => schema.fields@.len() > 0 && forall|i: int|
                0 <= i < schema.fields@.len() ==> crate::schema::unsupported_type(
                    #[trigger] schema.fields@[i],
                ) is None,
            Some(error) => error.kind is Internal && error.details.status is Permanent && (
            schema.fields@.len() == 0 && error.details.message
                == "Lance requires at least one column"@ || exists|found: Seq<char>|
                #[trigger] first_refusal(schema.fields@, found) && error.details.message
                    == "unsupported Arrow type "@ + found + "; cast it explicitly"@),
        },
{
    lemma_first_refusal(schema.fields@);
}

/// A field is found by its name: it is the first that is called so.
pub proof fn law_field_is_found_by_name(fields: Seq<Field>, name: Seq<char>)
    ensures
        match crate::schema::field_named(fields, name) {
            None => forall|i: int| 0 <= i < fields.len() ==> (#[trigger] fields[i]).name@ != name,
            Some(found) => exists|i: int|
                0 <= i < fields.len() && #[trigger] fields[i] == found && found.name@ == name
                    && forall|j: int| 0 <= j < i ==> (#[trigger] fields[j]).name@ != name,
        },
    decreases fields.len(),
{
    if fields.len() > 0 {
        let rest = fields.skip(1);
        law_field_is_found_by_name(rest, name);
        if fields[0].name@ == name {
            assert(fields[0] == crate::schema::field_named(fields, name)->0);
        } else {
            match crate::schema::field_named(rest, name) {
                None => {
                    assert forall|i: int| 0 <= i < fields.len() implies (
                    #[trigger] fields[i]).name@ != name by {
                        if i > 0 {
                            assert(rest[i - 1] == fields[i]);
                        }
                    }
                },
                Some(found) => {
                    let i = choose|i: int|
                        0 <= i < rest.len() && #[trigger] rest[i] == found && found.name@ == name
                            && forall|j: int| 0 <= j < i ==> (#[trigger] rest[j]).name@ != name;
                    assert(fields[i + 1] == found);
                    assert forall|j: int| 0 <= j < i + 1 implies (#[trigger] fields[j]).name@
                        != name by {
                        if j > 0 {
                            assert(rest[j - 1] == fields[j]);
                        }
                    }
                },
            }
        }
    }
}

}
