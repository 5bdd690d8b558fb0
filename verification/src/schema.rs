//! Message schemas: the fields of a message type, with their types, as known at
//! run time.
//!
//! A schema refers to the schemas of its nested messages, so its model
//! ([`SchemaModel`]) is the whole tree, with strings as sequences of characters.

use crate::text::same_text;
use std::sync::Arc;
use vstd::prelude::*;
use vstd::string::*;

verus! {

/// The hash that identifies a version of a message type.
#[derive(Clone, Copy, Debug, PartialEq, Eq, Hash)]
pub struct TypeHash {
    pub version: u8,
    pub value: [u8; 32],
}

/// The type of a field.
#[derive(Debug, PartialEq)]
pub enum FieldType {
    Bool,
    Int8,
    Byte,
    Int16,
    Int32,
    Int64,
    Uint8,
    Char,
    Uint16,
    WChar,
    Uint32,
    Uint64,
    Float32,
    Float64,
    String,
    WString,
    /// A string of at most so many characters.
    BoundedString(usize),
    /// A wide string of at most so many characters.
    BoundedWString(usize),
    /// A nested message.
    Message(Arc<MessageSchema>),
    /// A fixed number of items.
    Array(Box<FieldType>, usize),
    /// Any number of items.
    Sequence(Box<FieldType>),
    /// At most so many items.
    BoundedSequence(Box<FieldType>, usize),
}

/// A field of a message.
#[derive(Debug, PartialEq)]
pub struct FieldSchema {
    pub name: String,
    pub field_type: FieldType,
}

/// The schema of a message type.
#[derive(Debug, PartialEq)]
pub struct MessageSchema {
    /// The full type name, such as `geometry_msgs/msg/Twist`.
    pub full_name: String,
    pub package: String,
    pub name: String,
    pub fields: Vec<FieldSchema>,
    pub type_hash: Option<TypeHash>,
}

/// The model of a [`FieldType`].
pub enum TypeModel {
    Bool,
    Int8,
    Byte,
    Int16,
    Int32,
    Int64,
    Uint8,
    Char,
    Uint16,
    WChar,
    Uint32,
    Uint64,
    Float32,
    Float64,
    String,
    WString,
    BoundedString(usize),
    BoundedWString(usize),
    Message(Box<SchemaModel>),
    Array(Box<TypeModel>, usize),
    Sequence(Box<TypeModel>),
    BoundedSequence(Box<TypeModel>, usize),
}

/// The model of a [`FieldSchema`].
pub struct FieldModel {
    pub name: Seq<char>,
    pub field_type: TypeModel,
}

/// The model of a [`MessageSchema`].
pub struct SchemaModel {
    pub full_name: Seq<char>,
    pub package: Seq<char>,
    pub name: Seq<char>,
    pub fields: Seq<FieldModel>,
    pub type_hash: Option<TypeHash>,
}

/// The schema as a mathematical value.
pub open spec fn schema_model(schema: MessageSchema) -> SchemaModel
    decreases schema,
{
    SchemaModel {
        full_name: schema.full_name@,
        package: schema.package@,
        name: schema.name@,
        fields: Seq::new(
            schema.fields@.len(),
            |i: int|
                if 0 <= i < schema.fields@.len() {
                    field_model(schema.fields@[i])
                } else {
                    arbitrary()
                },
        ),
        type_hash: schema.type_hash,
    }
}

/// The field as a mathematical value.
pub open spec fn field_model(field: FieldSchema) -> FieldModel
    decreases field,
{
    FieldModel { name: field.name@, field_type: type_model(field.field_type) }
}

/// The field type as a mathematical value.
pub open spec fn type_model(field_type: FieldType) -> TypeModel
    decreases field_type,
{
    match field_type {
        FieldType::Bool => TypeModel::Bool,
        FieldType::Int8 => TypeModel::Int8,
        FieldType::Byte => TypeModel::Byte,
        FieldType::Int16 => TypeModel::Int16,
        FieldType::Int32 => TypeModel::Int32,
        FieldType::Int64 => TypeModel::Int64,
        FieldType::Uint8 => TypeModel::Uint8,
        FieldType::Char => TypeModel::Char,
        FieldType::Uint16 => TypeModel::Uint16,
        FieldType::WChar => TypeModel::WChar,
        FieldType::Uint32 => TypeModel::Uint32,
        FieldType::Uint64 => TypeModel::Uint64,
        FieldType::Float32 => TypeModel::Float32,
        FieldType::Float64 => TypeModel::Float64,
        FieldType::String => TypeModel::String,
        FieldType::WString => TypeModel::WString,
        FieldType::BoundedString(n) => TypeModel::BoundedString(n),
        FieldType::BoundedWString(n) => TypeModel::BoundedWString(n),
        FieldType::Message(schema) => TypeModel::Message(Box::new(schema_model(*schema))),
        FieldType::Array(item, n) => TypeModel::Array(Box::new(type_model(*item)), n),
        FieldType::Sequence(item) => TypeModel::Sequence(Box::new(type_model(*item))),
        FieldType::BoundedSequence(item, n) => TypeModel::BoundedSequence(
            Box::new(type_model(*item)),
            n,
        ),
    }
}

impl View for MessageSchema {
    type V = SchemaModel;

    open spec fn view(&self) -> SchemaModel {
        schema_model(*self)
    }
}

impl View for FieldSchema {
    type V = FieldModel;

    open spec fn view(&self) -> FieldModel {
        field_model(*self)
    }
}

impl View for FieldType {
    type V = TypeModel;

    open spec fn view(&self) -> TypeModel {
        type_model(*self)
    }
}

impl DeepView for MessageSchema {
    type V = SchemaModel;

    open spec fn deep_view(&self) -> SchemaModel {
        self@
    }
}

impl DeepView for FieldSchema {
    type V = FieldModel;

    open spec fn deep_view(&self) -> FieldModel {
        self@
    }
}

impl DeepView for FieldType {
    type V = TypeModel;

    open spec fn deep_view(&self) -> TypeModel {
        self@
    }
}

/// The model of a field that holds a nested message.
pub open spec fn message_field(name: Seq<char>, schema: SchemaModel) -> FieldModel {
    FieldModel { name, field_type: TypeModel::Message(Box::new(schema)) }
}

/// The model of a field that holds at most one nested message.
pub open spec fn optional_message_field(name: Seq<char>, schema: SchemaModel) -> FieldModel {
    FieldModel {
        name,
        field_type: TypeModel::BoundedSequence(
            Box::new(TypeModel::Message(Box::new(schema))),
            1,
        ),
    }
}

impl FieldSchema {
    /// A field with the given name and type.
    pub fn new(name: &str, field_type: FieldType) -> (field: FieldSchema)
        ensures
            field@ == (FieldModel { name: name@, field_type: field_type@ }),
    {
        FieldSchema { name: name.to_owned(), field_type }
    }

    /// A field that holds a nested message.
    pub fn message(name: &str, schema: &Arc<MessageSchema>) -> (field: FieldSchema)
        ensures
            field@ == message_field(name@, schema@),
    {
        FieldSchema::new(name, FieldType::Message(schema.clone()))
    }

    /// A field that holds at most one nested message.
    pub fn optional_message(name: &str, schema: &Arc<MessageSchema>) -> (field: FieldSchema)
        ensures
            field@ == optional_message_field(name@, schema@),
    {
        proof {
            reveal_with_fuel(type_model, 2);
        }
        FieldSchema::new(
            name,
            FieldType::BoundedSequence(Box::new(FieldType::Message(schema.clone())), 1),
        )
    }
}

impl MessageSchema {
    /// The first field of that name, if there is one.
    pub fn field(&self, name: &str) -> (field: Option<&FieldSchema>)
        ensures
            match field {
                Some(found) => exists|i: int|
                    {
                        &&& 0 <= i < self@.fields.len()
                        &&& found@ == #[trigger] self@.fields[i]
                        &&& found@.name == name@
                        &&& forall|j: int| 0 <= j < i ==> (#[trigger] self@.fields[j]).name != name@
                    },
                None => forall|j: int|
                    0 <= j < self@.fields.len() ==> (#[trigger] self@.fields[j]).name != name@,
            },
    {
        for i in 0..self.fields.len()
            invariant
                forall|j: int| 0 <= j < i ==> (#[trigger] self@.fields[j]).name != name@,
        {
            assert(self@.fields[i as int] == self.fields@[i as int]@);
            if same_text(self.fields[i].name.as_str(), name) {
                return Some(&self.fields[i]);
            }
        }
        None
    }
}

/// The model of a schema lists the models of its fields.
pub proof fn lemma_schema_fields(schema: MessageSchema)
    ensures
        schema@.fields == schema.fields.deep_view(),
{
    assert(schema@.fields =~= schema.fields.deep_view());
}

/// The model of a schema has its names, its hash and its fields, in order.
pub proof fn law_schema_model(schema: MessageSchema)
    ensures
        schema@.full_name == schema.full_name@,
        schema@.package == schema.package@,
        schema@.name == schema.name@,
        schema@.type_hash == schema.type_hash,
        schema@.fields.len() == schema.fields@.len(),
        forall|i: int| #![trigger schema@.fields[i]] #![trigger schema.fields@[i]]
            0 <= i < schema.fields@.len() ==> {
                &&& schema.fields@[i]@ == schema@.fields[i]
                &&& schema@.fields[i].name == schema.fields@[i].name@
                &&& schema@.fields[i].field_type == schema.fields@[i].field_type@
            },
        schema.deep_view() == schema@,
{
}

/// The model of a field type is the type of the same name, over the models of what it holds.
pub proof fn law_type_model(item: FieldType, schema: Arc<MessageSchema>, n: usize)
    ensures
        FieldType::Bool@ == TypeModel::Bool,
        FieldType::Int8@ == TypeModel::Int8,
        FieldType::Byte@ == TypeModel::Byte,
        FieldType::Int16@ == TypeModel::Int16,
        FieldType::Int32@ == TypeModel::Int32,
        FieldType::Int64@ == TypeModel::Int64,
        FieldType::Uint8@ == TypeModel::Uint8,
        FieldType::Char@ == TypeModel::Char,
        FieldType::Uint16@ == TypeModel::Uint16,
        FieldType::WChar@ == TypeModel::WChar,
        FieldType::Uint32@ == TypeModel::Uint32,
        FieldType::Uint64@ == TypeModel::Uint64,
        FieldType::Float32@ == TypeModel::Float32,
        FieldType::Float64@ == TypeModel::Float64,
        FieldType::String@ == TypeModel::String,
        FieldType::WString@ == TypeModel::WString,
        FieldType::BoundedString(n)@ == TypeModel::BoundedString(n),
        FieldType::BoundedWString(n)@ == TypeModel::BoundedWString(n),
        FieldType::Message(schema)@ == TypeModel::Message(Box::new(schema@)),
        FieldType::Array(Box::new(item), n)@ == TypeModel::Array(Box::new(item@), n),
        FieldType::Sequence(Box::new(item))@ == TypeModel::Sequence(Box::new(item@)),
        FieldType::BoundedSequence(Box::new(item), n)@ == TypeModel::BoundedSequence(
            Box::new(item@),
            n,
        ),
        item.deep_view() == item@,
{
    reveal_with_fuel(type_model, 2);
}

/// A field that holds a nested message has the type of that message, and one that holds at
/// most one is a sequence of it, bounded by one.
pub proof fn law_message_fields(name: Seq<char>, schema: SchemaModel)
    ensures
        message_field(name, schema).name == name,
        message_field(name, schema).field_type == TypeModel::Message(Box::new(schema)),
        optional_message_field(name, schema).name == name,
        optional_message_field(name, schema).field_type == TypeModel::BoundedSequence(
            Box::new(TypeModel::Message(Box::new(schema))),
            1,
        ),
{
}

} // verus!
