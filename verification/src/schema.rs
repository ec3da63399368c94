//! Schemas, and which of their types can be written to Lance.

use vstd::prelude::*;

use crate::error::{Error, Result};
use crate::error_struct::at;
use crate::text::same_text;

verus! {

/// The unit of a time.
#[derive(Clone, Copy, Debug, PartialEq, Eq, Structural)]
pub enum TimeUnit {
    Second,
    Millisecond,
    Microsecond,
    Nanosecond,
}

/// The type of a column. `Other` stands for every Arrow type that can be
/// neither written nor indexed.
#[derive(Debug, PartialEq)]
pub enum DataType {
    Boolean,
    Int8,
    Int16,
    Int32,
    Int64,
    UInt8,
    UInt16,
    UInt32,
    UInt64,
    Float16,
    Float32,
    Float64,
    Utf8,
    LargeUtf8,
    Utf8View,
    Binary,
    LargeBinary,
    BinaryView,
    FixedSizeBinary(i32),
    Decimal128(u8, i8),
    Date32,
    Date64,
    Time32(TimeUnit),
    Time64(TimeUnit),
    Timestamp(TimeUnit, Option<String>),
    List(Box<Field>),
    LargeList(Box<Field>),
    FixedSizeList(Box<Field>, i32),
    Struct(Vec<Field>),
    Other,
}

/// A column, or an element of a nested type. `arrow_type` is what Arrow calls
/// the type.
#[derive(Debug, PartialEq)]
pub struct Field {
    pub name: String,
    pub data_type: DataType,
    pub arrow_type: String,
    pub nullable: bool,
}

impl Field {
    pub fn new(name: &str, data_type: DataType, arrow_type: &str, nullable: bool) -> (field: Self)
        ensures
            field.name@ == name@,
            field.data_type == data_type,
            field.arrow_type@ == arrow_type@,
            field.nullable == nullable,
    {
        Field {
            name: name.to_owned(),
            data_type,
            arrow_type: arrow_type.to_owned(),
            nullable,
        }
    }

    pub fn name(&self) -> (name: &str)
        ensures
            name@ == self.name@,
    {
        self.name.as_str()
    }

    pub fn data_type(&self) -> (data_type: &DataType)
        ensures
            *data_type == self.data_type,
    {
        &self.data_type
    }
}

/// The columns of a table.
#[derive(Debug, PartialEq)]
pub struct Schema {
    pub fields: Vec<Field>,
}

/// The first field called `name`.
pub open spec fn field_named(fields: Seq<Field>, name: Seq<char>) -> Option<Field>
    decreases fields.len(),
{
    if fields.len() == 0 {
        None
    } else if fields[0].name@ == name {
        Some(fields[0])
    } else {
        field_named(fields.skip(1), name)
    }
}

impl Schema {
    pub fn new(fields: Vec<Field>) -> (schema: Self)
        ensures
            schema.fields@ == fields@,
    {
        Schema { fields }
    }

    pub fn fields(&self) -> (fields: &Vec<Field>)
        ensures
            fields@ == self.fields@,
    {
        &self.fields
    }

    pub fn field(&self, index: usize) -> (field: &Field)
        requires
            index < self.fields@.len(),
        ensures
            *field == self.fields@[index as int],
    {
        &self.fields[index]
    }

    /// The first field called `name`.
    pub fn field_with_name(&self, name: &str) -> (field: Option<&Field>)
        ensures
            match field {
                Some(field) => field_named(self.fields@, name@) == Some(*field),
                None => field_named(self.fields@, name@) is None,
            },
    {
        let fields = &self.fields;
        let mut i: usize = 0;
        assert(fields@.skip(0) == fields@);
        while i < fields.len()
            invariant
                i <= fields@.len(),
                fields@ == self.fields@,
                field_named(fields@, name@) == field_named(fields@.skip(i as int), name@),
            decreases fields@.len() - i,
        {
            assert(fields@.skip(i as int)[0] == fields@[i as int]);
            assert(fields@.skip(i as int).skip(1) == fields@.skip(i + 1));
            if same_text(fields[i].name.as_str(), name) {
                return Some(&fields[i]);
            }
            i += 1;
        }
        None
    }
}

/// Whether a type without elements can be written.
pub open spec fn is_writable_leaf(data_type: DataType) -> bool {
    match data_type {
        DataType::Utf8View
        | DataType::BinaryView
        | DataType::List(_)
        | DataType::LargeList(_)
        | DataType::FixedSizeList(_, _)
        | DataType::Struct(_)
        | DataType::Other => false,
        _ => true,
    }
}

/// The first type inside a field that cannot be written, by its name. A nested
/// type can be written where its elements can.
pub open spec fn unsupported_type(field: Field) -> Option<Seq<char>>
    decreases field,
{
    match field.data_type {
        DataType::List(element) => unsupported_type(*element),
        DataType::LargeList(element) => unsupported_type(*element),
        DataType::FixedSizeList(element, _) => unsupported_type(*element),
        DataType::Struct(fields) => unsupported_type_in(fields@),
        data_type => if is_writable_leaf(data_type) {
            None
        } else {
            Some(field.arrow_type@)
        },
    }
}

/// The first type inside the fields that cannot be written, by its name.
pub open spec fn unsupported_type_in(fields: Seq<Field>) -> Option<Seq<char>>
    decreases fields,
{
    if fields.len() == 0 {
        None
    } else {
        match unsupported_type(fields[0]) {
            Some(name) => Some(name),
            None => unsupported_type_in(fields.skip(1)),
        }
    }
}

/// The error for a type that cannot be written.
pub open spec fn unsupported_error(arrow_type: Seq<char>) -> crate::error::ErrorView {
    crate::error::internal_error(
        "unsupported Arrow type "@ + arrow_type + "; cast it explicitly"@,
    )
}

/// Checks that the type of a field can be written.
pub fn validate_type(field: &Field) -> (valid: Result<()>)
    ensures
        match valid {
            Ok(_) => unsupported_type(*field) is None,
            Err(error) => unsupported_type(*field) matches Some(name) && error@
                == unsupported_error(name),
        },
    decreases *field,
{
    match &field.data_type {
        DataType::Boolean
        | DataType::Int8
        | DataType::Int16
        | DataType::Int32
        | DataType::Int64
        | DataType::UInt8
        | DataType::UInt16
        | DataType::UInt32
        | DataType::UInt64
        | DataType::Float16
        | DataType::Float32
        | DataType::Float64
        | DataType::Utf8
        | DataType::LargeUtf8
        | DataType::Binary
        | DataType::LargeBinary
        | DataType::FixedSizeBinary(_)
        | DataType::Decimal128(_, _)
        | DataType::Date32
        | DataType::Date64
        | DataType::Time32(_)
        | DataType::Time64(_)
        | DataType::Timestamp(_, _) => Ok(()),
        DataType::List(element) => validate_type(element),
        DataType::LargeList(element) => validate_type(element),
        DataType::FixedSizeList(element, _) => validate_type(element),
        DataType::Struct(fields) => {
            assert(decreases_to!(*field => fields@));
            validate_types(fields)
        },
        DataType::Utf8View | DataType::BinaryView | DataType::Other => {
            let mut message = "unsupported Arrow type ".to_owned();
            message.append(field.arrow_type.as_str());
            message.append("; cast it explicitly");
            Err(Error::message(message, at("src/schema.rs", 267, 17)))
        },
    }
}

/// Checks that the types of all fields can be written.
fn validate_types(fields: &Vec<Field>) -> (valid: Result<()>)
    ensures
        match valid {
            Ok(_) => unsupported_type_in(fields@) is None,
            Err(error) => unsupported_type_in(fields@) matches Some(name) && error@
                == unsupported_error(name),
        },
    decreases fields@,
{
    let mut i: usize = 0;
    assert(fields@.skip(0) == fields@);
    while i < fields.len()
        invariant
            i <= fields@.len(),
            unsupported_type_in(fields@) == unsupported_type_in(fields@.skip(i as int)),
        decreases fields@.len() - i,
    {
        assert(fields@.skip(i as int)[0] == fields@[i as int]);
        assert(fields@.skip(i as int).skip(1) == fields@.skip(i + 1));
        assert(decreases_to!(fields@ => fields@[i as int]));
        match validate_type(&fields[i]) {
            Ok(_) => {},
            Err(error) => {
                return Err(error);
            },
        }
        i += 1;
    }
    Ok(())
}

/// Why a schema cannot be written, if it cannot.
pub open spec fn schema_problem(schema: Schema) -> Option<crate::error::ErrorView> {
    if schema.fields@.len() == 0 {
        Some(crate::error::internal_error("Lance requires at least one column"@))
    } else {
        match unsupported_type_in(schema.fields@) {
            Some(name) => Some(unsupported_error(name)),
            None => None,
        }
    }
}

/// Checks that a schema can be written: it has a column, and no type that Lance
/// lacks.
pub fn validate_schema(schema: &Schema) -> (valid: Result<()>)
    ensures
        match valid {
            Ok(_) => schema_problem(*schema) is None,
            Err(error) => schema_problem(*schema) == Some(error@),
        },
{
    if schema.fields.len() == 0 {
        return Err(Error::message(
            "Lance requires at least one column".to_owned(),
            at("src/schema.rs", 326, 20),
        ));
    }
    validate_types(&schema.fields)
}

/// A schema can be written where it has a column and each of its columns can be
/// written.
pub proof fn law_schema_is_checked_by_column(schema: Schema)
    ensures
        schema_problem(schema) is None <==> schema.fields@.len() > 0 && forall|i: int|
            0 <= i < schema.fields@.len() ==> unsupported_type(#[trigger] schema.fields@[i]) is None,
{
    lemma_types_by_field(schema.fields@);
}

proof fn lemma_types_by_field(fields: Seq<Field>)
    ensures
        unsupported_type_in(fields) is None <==> forall|i: int|
            0 <= i < fields.len() ==> unsupported_type(#[trigger] fields[i]) is None,
    decreases fields.len(),
{
    if fields.len() > 0 {
        let rest = fields.skip(1);
        lemma_types_by_field(rest);
        if unsupported_type_in(fields) is None {
            assert forall|i: int| 0 <= i < fields.len() implies unsupported_type(
                #[trigger] fields[i],
            ) is None by {
                if i > 0 {
                    assert(rest[i - 1] == fields[i]);
                }
            }
        }
        if forall|i: int|
            0 <= i < fields.len() ==> unsupported_type(#[trigger] fields[i]) is None {
            assert(unsupported_type(fields[0]) is None);
            assert forall|i: int| 0 <= i < rest.len() implies unsupported_type(
                #[trigger] rest[i],
            ) is None by {
                assert(rest[i] == fields[i + 1]);
            }
        }
    }
}

}
