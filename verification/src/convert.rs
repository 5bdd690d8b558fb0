//! Conversion of parsed message definitions to schemas.
//!
//! A definition names the message types of its fields; a resolver supplied by
//! the caller looks their schemas up. The contracts speak of what a resolver may
//! answer ([`answers`]), so they hold of every resolver, also of one that answers
//! the same question differently from one call to the next.

use crate::error::{outcome, DynamicError, ErrorModel};
use crate::names::{
    canonical_parts, join_name, law_canonical_names_have_three_parts, law_join_of_split_canonical,
    ros_name, split_canonical,
};
use crate::schema::{
    lemma_schema_fields, FieldModel, FieldSchema, FieldType, MessageSchema, SchemaModel, TypeModel,
};
use crate::text::{read_usize, same_text, text_after, usize_text};
use crate::types::{ArrayType, Field, FieldDef, MessageDef, ParsedMessage};
use std::sync::Arc;
use vstd::prelude::*;
use vstd::string::*;

verus! {

/// The replies that a resolver may give for each type name.
pub type Answers = spec_fn(Seq<char>, Option<SchemaModel>) -> bool;

/// The canonical type names that the source format may give for each field name.
pub type Hints = spec_fn(Seq<char>, Option<Seq<char>>) -> bool;

/// Whether `resolver` can be asked for any type name.
pub open spec fn total<R: Fn(&str) -> Option<Arc<MessageSchema>>>(resolver: R) -> bool {
    forall|s: &str| call_requires(resolver, (s,))
}

/// What `resolver` may answer.
pub open spec fn answers<R: Fn(&str) -> Option<Arc<MessageSchema>>>(resolver: R) -> Answers {
    |name: Seq<char>, reply: Option<SchemaModel>|
        exists|s: &str, r: Option<Arc<MessageSchema>>|
            {
                &&& #[trigger] call_ensures(resolver, (s,), r)
                &&& s@ == name
                &&& r.deep_view() == reply
            }
}

/// What `reference` may answer.
pub open spec fn hints<'a, F: Fn(&str) -> Option<&'a str>>(reference: F) -> Hints {
    |name: Seq<char>, hint: Option<Seq<char>>|
        exists|s: &str, r: Option<&'a str>|
            {
                &&& #[trigger] call_ensures(reference, (s,), r)
                &&& s@ == name
                &&& r.deep_view() == hint
            }
}

/// No field has a type name of its own.
pub open spec fn no_hints() -> Hints {
    |name: Seq<char>, hint: Option<Seq<char>>| hint is None
}

/// The primitive types.
pub open spec fn primitive_type(base: Seq<char>) -> Option<TypeModel> {
    if base == "bool"@ {
        Some(TypeModel::Bool)
    } else if base == "int8"@ {
        Some(TypeModel::Int8)
    } else if base == "byte"@ {
        Some(TypeModel::Byte)
    } else if base == "int16"@ {
        Some(TypeModel::Int16)
    } else if base == "int32"@ {
        Some(TypeModel::Int32)
    } else if base == "int64"@ {
        Some(TypeModel::Int64)
    } else if base == "uint8"@ || base == "char"@ {
        Some(TypeModel::Uint8)
    } else if base == "idl_char"@ {
        Some(TypeModel::Char)
    } else if base == "uint16"@ {
        Some(TypeModel::Uint16)
    } else if base == "wchar"@ {
        Some(TypeModel::WChar)
    } else if base == "uint32"@ {
        Some(TypeModel::Uint32)
    } else if base == "uint64"@ {
        Some(TypeModel::Uint64)
    } else if base == "float32"@ {
        Some(TypeModel::Float32)
    } else if base == "float64"@ {
        Some(TypeModel::Float64)
    } else if base == "string"@ {
        Some(TypeModel::String)
    } else if base == "wstring"@ {
        Some(TypeModel::WString)
    } else {
        None
    }
}

/// The bound in a type written as `prefix` followed by a number.
pub open spec fn written_bound(base: Seq<char>, prefix: Seq<char>) -> Option<usize> {
    if prefix.is_prefix_of(base) {
        usize_text(base.skip(prefix.len() as int))
    } else {
        None
    }
}

/// The type that a base type stands for without any lookup: a primitive type or
/// a bounded string. Every other base type names a message.
pub open spec fn builtin_type(base: Seq<char>) -> Option<TypeModel> {
    match primitive_type(base) {
        Some(primitive) => Some(primitive),
        None => match written_bound(base, "string<="@) {
            Some(n) => Some(TypeModel::BoundedString(n)),
            None => match written_bound(base, "wstring<="@) {
                Some(n) => Some(TypeModel::BoundedWString(n)),
                None => None,
            },
        },
    }
}

/// The type name under which the schema of a message-typed field is looked up:
/// the name that the source format gives, or else the message of that name in the
/// field's package, or else in the package of the declaring type.
pub open spec fn referenced_name(
    base: Seq<char>,
    package: Option<Seq<char>>,
    declaring_package: Seq<char>,
    hint: Option<Seq<char>>,
) -> Seq<char> {
    match hint {
        Some(name) => name,
        None => match package {
            Some(package) => ros_name(package, "msg"@, base),
            None => ros_name(declaring_package, "msg"@, base),
        },
    }
}

/// What comes of looking up a schema that has to exist.
pub open spec fn required_outcome(
    may_answer: Answers,
    name: Seq<char>,
    out: Result<SchemaModel, ErrorModel>,
) -> bool {
    match out {
        Ok(schema) => may_answer(name, Some(schema)),
        Err(error) => error == ErrorModel::SchemaNotFound(name) && may_answer(name, None),
    }
}

/// What comes of converting a base type.
pub open spec fn base_outcome(
    may_answer: Answers,
    base: Seq<char>,
    package: Option<Seq<char>>,
    declaring_package: Seq<char>,
    hint: Option<Seq<char>>,
    out: Result<TypeModel, ErrorModel>,
) -> bool {
    match builtin_type(base) {
        Some(builtin) => out == Ok::<TypeModel, ErrorModel>(builtin),
        None => {
            let name = referenced_name(base, package, declaring_package, hint);
            match out {
                Ok(found) => found matches TypeModel::Message(schema) && required_outcome(
                    may_answer,
                    name,
                    Ok(*schema),
                ),
                Err(error) => required_outcome(may_answer, name, Err(error)),
            }
        },
    }
}

/// The type of a field whose items have type `item`.
pub open spec fn collected(array: ArrayType, item: TypeModel) -> TypeModel {
    match array {
        ArrayType::Single => item,
        ArrayType::Fixed(n) => TypeModel::Array(Box::new(item), n),
        ArrayType::Bounded(n) => TypeModel::BoundedSequence(Box::new(item), n),
        ArrayType::Unbounded => TypeModel::Sequence(Box::new(item)),
    }
}

/// The type of a field's items, if it does not name a message. The bound of a
/// bounded string stands beside its type.
pub open spec fn declared_type(field: FieldDef) -> Option<TypeModel> {
    if field.base_type == "string"@ && field.string_bound is Some {
        Some(TypeModel::BoundedString(field.string_bound->0))
    } else if field.base_type == "wstring"@ && field.string_bound is Some {
        Some(TypeModel::BoundedWString(field.string_bound->0))
    } else {
        builtin_type(field.base_type)
    }
}

/// What comes of converting the type of a field's items.
pub open spec fn item_outcome(
    may_answer: Answers,
    field: FieldDef,
    declaring_package: Seq<char>,
    hint: Option<Seq<char>>,
    out: Result<TypeModel, ErrorModel>,
) -> bool {
    match declared_type(field) {
        Some(declared) => out == Ok::<TypeModel, ErrorModel>(declared),
        None => base_outcome(
            may_answer,
            field.base_type,
            field.package,
            declaring_package,
            hint,
            out,
        ),
    }
}

/// What comes of converting the type of a field.
pub open spec fn type_outcome(
    may_answer: Answers,
    field: FieldDef,
    declaring_package: Seq<char>,
    hint: Option<Seq<char>>,
    out: Result<TypeModel, ErrorModel>,
) -> bool {
    match out {
        Ok(converted) => exists|item: TypeModel|
            {
                &&& #[trigger] item_outcome(may_answer, field, declaring_package, hint, Ok(item))
                &&& converted == collected(field.array, item)
            },
        Err(error) => item_outcome(may_answer, field, declaring_package, hint, Err(error)),
    }
}

/// What comes of converting a field.
pub open spec fn field_outcome(
    may_answer: Answers,
    may_hint: Hints,
    field: FieldDef,
    declaring_package: Seq<char>,
    out: Result<FieldModel, ErrorModel>,
) -> bool {
    exists|hint: Option<Seq<char>>|
        {
            &&& #[trigger] may_hint(field.name, hint)
            &&& match out {
                Ok(converted) => converted.name == field.name && type_outcome(
                    may_answer,
                    field,
                    declaring_package,
                    hint,
                    Ok(converted.field_type),
                ),
                Err(error) => type_outcome(may_answer, field, declaring_package, hint, Err(error)),
            }
        }
}

/// Whether a field may be converted.
pub open spec fn convertible(
    may_answer: Answers,
    may_hint: Hints,
    field: FieldDef,
    declaring_package: Seq<char>,
) -> bool {
    exists|converted: FieldModel| #[trigger]
        field_outcome(may_answer, may_hint, field, declaring_package, Ok(converted))
}

/// Whether the field at `i` fails with `error`, after all fields before it were
/// converted.
pub open spec fn fails_at(
    may_answer: Answers,
    may_hint: Hints,
    fields: Seq<FieldDef>,
    declaring_package: Seq<char>,
    error: ErrorModel,
    i: int,
) -> bool {
    &&& 0 <= i < fields.len()
    &&& field_outcome(may_answer, may_hint, fields[i], declaring_package, Err(error))
    &&& forall|j: int|
        0 <= j < i ==> convertible(may_answer, may_hint, #[trigger] fields[j], declaring_package)
}

/// What comes of converting the fields of a definition: one converted field for
/// each, in order, or the error of the first field that cannot be converted.
pub open spec fn fields_outcome(
    may_answer: Answers,
    may_hint: Hints,
    fields: Seq<FieldDef>,
    declaring_package: Seq<char>,
    out: Result<Seq<FieldModel>, ErrorModel>,
) -> bool {
    match out {
        Ok(converted) => {
            &&& converted.len() == fields.len()
            &&& forall|i: int|
                0 <= i < fields.len() ==> field_outcome(
                    may_answer,
                    may_hint,
                    #[trigger] fields[i],
                    declaring_package,
                    Ok(converted[i]),
                )
        },
        Err(error) => exists|i: int| #[trigger]
            fails_at(may_answer, may_hint, fields, declaring_package, error, i),
    }
}

/// The schema of the canonical type name `full_name` with the given fields.
pub open spec fn schema_of(full_name: Seq<char>, fields: Seq<FieldModel>) -> SchemaModel
    recommends
        canonical_parts(full_name) is Some,
{
    let (package, kind, name) = canonical_parts(full_name)->0;
    SchemaModel { full_name, package, name, fields, type_hash: None }
}

/// What comes of converting a definition under the given type name: the schema of
/// that name with the converted fields, or the error of the first field that cannot
/// be converted, or, before any field is looked at, that the name is not canonical.
pub open spec fn message_outcome(
    may_answer: Answers,
    may_hint: Hints,
    msg: MessageDef,
    full_name: Seq<char>,
    out: Result<SchemaModel, ErrorModel>,
) -> bool {
    match canonical_parts(full_name) {
        None => out == Err::<SchemaModel, ErrorModel>(ErrorModel::InvalidTypeName(full_name)),
        Some((package, kind, name)) => match out {
            Ok(schema) => {
                &&& schema == schema_of(full_name, schema.fields)
                &&& fields_outcome(may_answer, may_hint, msg.fields, package, Ok(schema.fields))
            },
            Err(error) => fields_outcome(may_answer, may_hint, msg.fields, package, Err(error)),
        },
    }
}

/// Reads a primitive type.
fn convert_primitive(base_type: &str) -> (found: Option<FieldType>)
    ensures
        found.deep_view() == primitive_type(base_type@),
{
    if same_text(base_type, "bool") {
        Some(FieldType::Bool)
    } else if same_text(base_type, "int8") {
        Some(FieldType::Int8)
    } else if same_text(base_type, "byte") {
        Some(FieldType::Byte)
    } else if same_text(base_type, "int16") {
        Some(FieldType::Int16)
    } else if same_text(base_type, "int32") {
        Some(FieldType::Int32)
    } else if same_text(base_type, "int64") {
        Some(FieldType::Int64)
    } else if same_text(base_type, "uint8") || same_text(base_type, "char") {
        Some(FieldType::Uint8)
    } else if same_text(base_type, "idl_char") {
        Some(FieldType::Char)
    } else if same_text(base_type, "uint16") {
        Some(FieldType::Uint16)
    } else if same_text(base_type, "wchar") {
        Some(FieldType::WChar)
    } else if same_text(base_type, "uint32") {
        Some(FieldType::Uint32)
    } else if same_text(base_type, "uint64") {
        Some(FieldType::Uint64)
    } else if same_text(base_type, "float32") {
        Some(FieldType::Float32)
    } else if same_text(base_type, "float64") {
        Some(FieldType::Float64)
    } else if same_text(base_type, "string") {
        Some(FieldType::String)
    } else if same_text(base_type, "wstring") {
        Some(FieldType::WString)
    } else {
        None
    }
}

/// Reads a type that stands for itself: a primitive type or a bounded string.
fn convert_builtin(base_type: &str) -> (found: Option<FieldType>)
    ensures
        found.deep_view() == builtin_type(base_type@),
{
    match convert_primitive(base_type) {
        Some(primitive) => {
            return Some(primitive);
        },
        None => {},
    }
    match text_after(base_type, "string<=") {
        Some(rest) => match read_usize(rest) {
            Some(n) => {
                return Some(FieldType::BoundedString(n));
            },
            None => {},
        },
        None => {},
    }
    match text_after(base_type, "wstring<=") {
        Some(rest) => match read_usize(rest) {
            Some(n) => {
                return Some(FieldType::BoundedWString(n));
            },
            None => {},
        },
        None => {},
    }
    None
}

/// The type of a field's items, if it does not name a message.
pub(crate) fn convert_declared(field: &Field) -> (found: Option<FieldType>)
    ensures
        found.deep_view() == declared_type(field@),
{
    let base_type: &str = field.field_type.base_type.as_str();
    match field.field_type.string_bound {
        Some(bound) => {
            if same_text(base_type, "string") {
                return Some(FieldType::BoundedString(bound));
            }
            if same_text(base_type, "wstring") {
                return Some(FieldType::BoundedWString(bound));
            }
        },
        None => {},
    }
    convert_builtin(base_type)
}

/// The type of a field whose items have type `item`.
pub(crate) fn collect(array: ArrayType, item: FieldType) -> (field_type: FieldType)
    ensures
        field_type@ == collected(array, item@),
{
    match array {
        ArrayType::Single => item,
        ArrayType::Fixed(n) => FieldType::Array(Box::new(item), n),
        ArrayType::Bounded(n) => FieldType::BoundedSequence(Box::new(item), n),
        ArrayType::Unbounded => FieldType::Sequence(Box::new(item)),
    }
}

/// Looks up a schema that has to exist.
pub fn resolve_required<R: Fn(&str) -> Option<Arc<MessageSchema>>>(
    full_name: &str,
    resolver: &R,
) -> (found: Result<Arc<MessageSchema>, DynamicError>)
    requires
        total(*resolver),
    ensures
        required_outcome(answers(*resolver), full_name@, outcome(found)),
{
    let reply: Option<Arc<MessageSchema>> = resolver(full_name);
    assert(answers(*resolver)(full_name@, reply.deep_view()));
    match reply {
        Some(schema) => Ok(schema),
        None => Err(DynamicError::SchemaNotFound(full_name.to_owned())),
    }
}

/// Converts a base type: a primitive type, a bounded string, or a message type,
/// which is looked up.
pub fn convert_base_type<R: Fn(&str) -> Option<Arc<MessageSchema>>>(
    base_type: &str,
    package: &Option<String>,
    declaring_package: &str,
    reference: Option<&str>,
    resolver: &R,
) -> (converted: Result<FieldType, DynamicError>)
    requires
        total(*resolver),
    ensures
        base_outcome(
            answers(*resolver),
            base_type@,
            package.deep_view(),
            declaring_package@,
            reference.deep_view(),
            outcome(converted),
        ),
{
    match convert_builtin(base_type) {
        Some(builtin) => {
            return Ok(builtin);
        },
        None => {},
    }
    let canonical: String = match reference {
        Some(reference) => reference.to_owned(),
        None => match package {
            Some(package) => join_name(package.as_str(), "msg", base_type),
            None => join_name(declaring_package, "msg", base_type),
        },
    };
    match resolve_required(canonical.as_str(), resolver) {
        Ok(schema) => Ok(FieldType::Message(schema)),
        Err(error) => Err(error),
    }
}

/// Converts the type of a field of a definition in `declaring_package`.
pub fn convert_field_type<R: Fn(&str) -> Option<Arc<MessageSchema>>>(
    field: &Field,
    declaring_package: &str,
    reference: Option<&str>,
    resolver: &R,
) -> (converted: Result<FieldType, DynamicError>)
    requires
        total(*resolver),
    ensures
        type_outcome(
            answers(*resolver),
            field@,
            declaring_package@,
            reference.deep_view(),
            outcome(converted),
        ),
{
    let item: Result<FieldType, DynamicError> = match convert_declared(field) {
        Some(declared) => Ok(declared),
        None => convert_base_type(
            field.field_type.base_type.as_str(),
            &field.field_type.package,
            declaring_package,
            reference,
            resolver,
        ),
    };
    assert(item_outcome(
        answers(*resolver),
        field@,
        declaring_package@,
        reference.deep_view(),
        outcome(item),
    ));
    match item {
        Ok(item) => Ok(collect(field.field_type.array, item)),
        Err(error) => Err(error),
    }
}

/// Converts a definition to the schema of the given type name. For each field,
/// `reference` may supply the canonical name of its message type.
pub fn parsed_message_to_schema_named_with_references<
    'a,
    R: Fn(&str) -> Option<Arc<MessageSchema>>,
    F: Fn(&str) -> Option<&'a str>,
>(msg: &ParsedMessage, full_name: &str, resolver: &R, reference: &F) -> (converted: Result<
    Arc<MessageSchema>,
    DynamicError,
>)
    requires
        total(*resolver),
        forall|s: &str| call_requires(*reference, (s,)),
    ensures
        message_outcome(
            answers(*resolver),
            hints(*reference),
            msg@,
            full_name@,
            outcome(converted),
        ),
{
    let (package, kind, name) = match split_canonical(full_name) {
        Some(parts) => parts,
        None => {
            return Err(DynamicError::InvalidTypeName(full_name.to_owned()));
        },
    };
    let ghost may_answer = answers(*resolver);
    let ghost may_hint = hints(*reference);
    let mut fields: Vec<FieldSchema> = Vec::new();
    for i in 0..msg.fields.len()
        invariant
            total(*resolver),
            forall|s: &str| call_requires(*reference, (s,)),
            may_answer == answers(*resolver),
            may_hint == hints(*reference),
            canonical_parts(full_name@) == Some((package@, kind@, name@)),
            fields.len() == i,
            forall|j: int| #![trigger msg@.fields[j]]
                0 <= j < i ==> field_outcome(
                    may_answer,
                    may_hint,
                    msg@.fields[j],
                    package@,
                    Ok(fields@[j]@),
                ),
    {
        let field: &Field = &msg.fields[i];
        assert(msg@.fields[i as int] == field@);
        let hint: Option<&'a str> = reference(field.name.as_str());
        assert(may_hint(field@.name, hint.deep_view()));
        match convert_field_type(field, package, hint, resolver) {
            Ok(field_type) => {
                let ghost before = fields@;
                fields.push(FieldSchema::new(field.name.as_str(), field_type));
                assert(field_outcome(
                    may_answer,
                    may_hint,
                    msg@.fields[i as int],
                    package@,
                    Ok(fields@[i as int]@),
                ));
                assert(forall|j: int| 0 <= j < i ==> fields@[j] == before[j]);
            },
            Err(error) => {
                assert(field_outcome(
                    may_answer,
                    may_hint,
                    msg@.fields[i as int],
                    package@,
                    Err(error@),
                ));
                proof {
                    assert forall|j: int| 0 <= j < i implies convertible(
                        may_answer,
                        may_hint,
                        #[trigger] msg@.fields[j],
                        package@,
                    ) by {
                        assert(field_outcome(
                            may_answer,
                            may_hint,
                            msg@.fields[j],
                            package@,
                            Ok(fields@[j]@),
                        ));
                    }
                    assert(fails_at(
                        may_answer,
                        may_hint,
                        msg@.fields,
                        package@,
                        error@,
                        i as int,
                    ));
                }
                return Err(error);
            },
        }
    }
    let schema: MessageSchema = MessageSchema {
        full_name: full_name.to_owned(),
        package: package.to_owned(),
        name: name.to_owned(),
        fields,
        type_hash: None,
    };
    proof {
        lemma_schema_fields(schema);
    }
    Ok(Arc::new(schema))
}

/// A resolver or a source format that can answer more can come to more outcomes.
pub proof fn lemma_message_outcome_grows(
    may_answer: Answers,
    may_hint: Hints,
    wider_answers: Answers,
    wider_hints: Hints,
    msg: MessageDef,
    full_name: Seq<char>,
    out: Result<SchemaModel, ErrorModel>,
)
    requires
        forall|name: Seq<char>, reply: Option<SchemaModel>| #[trigger]
            may_answer(name, reply) ==> wider_answers(name, reply),
        forall|name: Seq<char>, hint: Option<Seq<char>>| #[trigger]
            may_hint(name, hint) ==> wider_hints(name, hint),
        message_outcome(may_answer, may_hint, msg, full_name, out),
    ensures
        message_outcome(wider_answers, wider_hints, msg, full_name, out),
{
    assert forall|field: FieldDef, package: Seq<char>, o: Result<FieldModel, ErrorModel>|
        #[trigger] field_outcome(may_answer, may_hint, field, package, o) implies field_outcome(
        wider_answers,
        wider_hints,
        field,
        package,
        o,
    ) by {
        let hint = choose|hint: Option<Seq<char>>|
            {
                &&& #[trigger] may_hint(field.name, hint)
                &&& match o {
                    Ok(converted) => converted.name == field.name && type_outcome(
                        may_answer,
                        field,
                        package,
                        hint,
                        Ok(converted.field_type),
                    ),
                    Err(error) => type_outcome(may_answer, field, package, hint, Err(error)),
                }
            };
        assert(wider_hints(field.name, hint));
        match o {
            Ok(converted) => {
                let item = choose|item: TypeModel|
                    {
                        &&& #[trigger] item_outcome(may_answer, field, package, hint, Ok(item))
                        &&& converted.field_type == collected(field.array, item)
                    };
                assert(item_outcome(wider_answers, field, package, hint, Ok(item)));
            },
            Err(error) => {
                assert(item_outcome(wider_answers, field, package, hint, Err(error)));
            },
        }
    }
    if canonical_parts(full_name) is Some && out is Err {
        let (package, kind, name) = canonical_parts(full_name)->0;
        let error = out->Err_0;
        let i = choose|i: int| #[trigger]
            fails_at(may_answer, may_hint, msg.fields, package, error, i);
        assert forall|j: int| 0 <= j < i implies convertible(
            wider_answers,
            wider_hints,
            #[trigger] msg.fields[j],
            package,
        ) by {
            assert(convertible(may_answer, may_hint, msg.fields[j], package));
            let converted = choose|converted: FieldModel| #[trigger]
                field_outcome(may_answer, may_hint, msg.fields[j], package, Ok(converted));
            assert(field_outcome(
                wider_answers,
                wider_hints,
                msg.fields[j],
                package,
                Ok(converted),
            ));
        }
        assert(fails_at(wider_answers, wider_hints, msg.fields, package, error, i));
    }
}

/// Converts a definition to the schema of the given type name.
///
/// Service and action submessages use names such as
/// `example_interfaces/srv/AddTwoInts_Request`, which do not follow from the
/// definition. Unqualified message types belong to the `msg` namespace of the
/// type's package.
pub fn parsed_message_to_schema_named<R: Fn(&str) -> Option<Arc<MessageSchema>>>(
    msg: &ParsedMessage,
    full_name: &str,
    resolver: &R,
) -> (converted: Result<Arc<MessageSchema>, DynamicError>)
    requires
        total(*resolver),
    ensures
        message_outcome(answers(*resolver), no_hints(), msg@, full_name@, outcome(converted)),
{
    let reference = |field: &str| -> (hint: Option<&'static str>)
        ensures
            hint is None,
        { None };
    let converted: Result<Arc<MessageSchema>, DynamicError> =
        parsed_message_to_schema_named_with_references(msg, full_name, resolver, &reference);
    proof {
        lemma_message_outcome_grows(
            answers(*resolver),
            hints(reference),
            answers(*resolver),
            no_hints(),
            msg@,
            full_name@,
            outcome(converted),
        );
    }
    converted
}

/// What a resolver that is asked for a package and a message name may answer for
/// a canonical type name. It knows no types but messages.
pub open spec fn msg_answers<R: Fn(&str, &str) -> Option<Arc<MessageSchema>>>(
    resolver: R,
) -> Answers {
    |full_name: Seq<char>, reply: Option<SchemaModel>|
        match canonical_parts(full_name) {
            Some((package, kind, name)) if kind == "msg"@ => exists|
                p: &str,
                n: &str,
                r: Option<Arc<MessageSchema>>,
            |
                {
                    &&& #[trigger] call_ensures(resolver, (p, n), r)
                    &&& p@ == package
                    &&& n@ == name
                    &&& r.deep_view() == reply
                },
            _ => reply is None,
        }
}

/// Converts a definition to the schema of the message type that it defines,
/// `package/msg/Name`. Every message type of a field is looked up by its package
/// and name.
pub fn parsed_message_to_schema<R: Fn(&str, &str) -> Option<Arc<MessageSchema>>>(
    msg: &ParsedMessage,
    resolver: &R,
) -> (converted: Result<Arc<MessageSchema>, DynamicError>)
    requires
        forall|p: &str, n: &str| call_requires(*resolver, (p, n)),
    ensures
        message_outcome(
            msg_answers(*resolver),
            no_hints(),
            msg@,
            ros_name(msg@.package, "msg"@, msg@.name),
            outcome(converted),
        ),
{
    let full_name: String = join_name(msg.package.as_str(), "msg", msg.name.as_str());
    let by_canonical_name = |canonical: &str| -> (reply: Option<Arc<MessageSchema>>)
        requires
            forall|p: &str, n: &str| call_requires(*resolver, (p, n)),
        ensures
            msg_answers(*resolver)(canonical@, reply.deep_view()),
        {
            match split_canonical(canonical) {
                Some((package, kind, name)) => if same_text(kind, "msg") {
                    resolver(package, name)
                } else {
                    None
                },
                None => None,
            }
        };
    let converted: Result<Arc<MessageSchema>, DynamicError> = parsed_message_to_schema_named(
        msg,
        full_name.as_str(),
        &by_canonical_name,
    );
    proof {
        lemma_message_outcome_grows(
            answers(by_canonical_name),
            no_hints(),
            msg_answers(*resolver),
            no_hints(),
            msg@,
            full_name@,
            outcome(converted),
        );
    }
    converted
}

/// Whether a resolver answers the same question always alike.
pub open spec fn consistent(may_answer: Answers) -> bool {
    forall|name: Seq<char>, a: Option<SchemaModel>, b: Option<SchemaModel>|
        #![trigger may_answer(name, a), may_answer(name, b)]
        may_answer(name, a) && may_answer(name, b) ==> a == b
}

/// Whether a source format gives the same field always the same type name.
pub open spec fn consistent_hints(may_hint: Hints) -> bool {
    forall|name: Seq<char>, a: Option<Seq<char>>, b: Option<Seq<char>>|
        #![trigger may_hint(name, a), may_hint(name, b)]
        may_hint(name, a) && may_hint(name, b) ==> a == b
}

/// A field whose type names no message is converted without any lookup: whatever a
/// resolver or a source format answers, the outcome is the declared type, in the
/// collection that the field declares.
pub proof fn law_builtin_types_need_no_lookup(
    may_answer: Answers,
    field: FieldDef,
    declaring_package: Seq<char>,
    hint: Option<Seq<char>>,
    out: Result<TypeModel, ErrorModel>,
)
    requires
        declared_type(field) is Some,
    ensures
        type_outcome(may_answer, field, declaring_package, hint, out) <==> out == Ok::<
            TypeModel,
            ErrorModel,
        >(collected(field.array, declared_type(field)->0)),
{
    let declared = declared_type(field)->0;
    assert(item_outcome(may_answer, field, declaring_package, hint, Ok(declared)));
}

/// The bound of a bounded string is kept in every form of collection.
pub proof fn law_string_bounds_are_kept(
    may_answer: Answers,
    field: FieldDef,
    declaring_package: Seq<char>,
    hint: Option<Seq<char>>,
    bound: usize,
    out: Result<TypeModel, ErrorModel>,
)
    requires
        field.base_type == "string"@ || field.base_type == "wstring"@,
        field.string_bound == Some(bound),
        type_outcome(may_answer, field, declaring_package, hint, out),
    ensures
        field.base_type == "string"@ ==> out == Ok::<TypeModel, ErrorModel>(
            collected(field.array, TypeModel::BoundedString(bound)),
        ),
        field.base_type == "wstring"@ ==> out == Ok::<TypeModel, ErrorModel>(
            collected(field.array, TypeModel::BoundedWString(bound)),
        ),
{
    reveal_strlit("string");
    reveal_strlit("wstring");
    assert("string"@.len() != "wstring"@.len());
    law_builtin_types_need_no_lookup(may_answer, field, declaring_package, hint, out);
}

/// A message-typed field is looked up under one name: the one that the source format
/// gives, or else the one made of the field's package, or else of the declaring
/// package. The outcome is that schema, in the collection that the field declares, or
/// that no schema of that name was found.
pub proof fn law_message_types_are_looked_up(
    may_answer: Answers,
    field: FieldDef,
    declaring_package: Seq<char>,
    hint: Option<Seq<char>>,
    out: Result<TypeModel, ErrorModel>,
)
    requires
        declared_type(field) is None,
        type_outcome(may_answer, field, declaring_package, hint, out),
    ensures
        ({
            let name = referenced_name(
                field.base_type,
                field.package,
                declaring_package,
                hint,
            );
            match out {
                Ok(converted) => exists|schema: SchemaModel|
                    {
                        &&& #[trigger] may_answer(name, Some(schema))
                        &&& converted == collected(
                            field.array,
                            TypeModel::Message(Box::new(schema)),
                        )
                    },
                Err(error) => error == ErrorModel::SchemaNotFound(name) && may_answer(name, None),
            }
        }),
{
    let name = referenced_name(field.base_type, field.package, declaring_package, hint);
    match out {
        Ok(converted) => {
            let item = choose|item: TypeModel|
                {
                    &&& #[trigger] item_outcome(
                        may_answer,
                        field,
                        declaring_package,
                        hint,
                        Ok(item),
                    )
                    &&& converted == collected(field.array, item)
                };
            let schema = *(item->Message_0);
            assert(item == TypeModel::Message(Box::new(schema)));
            assert(may_answer(name, Some(schema)));
        },
        Err(error) => {},
    }
}

/// A schema keeps the type name that it was converted under, and its package and name
/// are parts of it. It has the fields of the definition, in order.
pub proof fn law_schema_keeps_its_identity(
    may_answer: Answers,
    may_hint: Hints,
    msg: MessageDef,
    full_name: Seq<char>,
    schema: SchemaModel,
)
    requires
        message_outcome(may_answer, may_hint, msg, full_name, Ok(schema)),
    ensures
        schema.full_name == full_name,
        exists|kind: Seq<char>| full_name == #[trigger] ros_name(schema.package, kind, schema.name),
        schema.fields.map_values(|field: FieldModel| field.name) == msg.fields.map_values(
            |field: FieldDef| field.name,
        ),
        schema.type_hash is None,
{
    law_join_of_split_canonical(full_name);
    let (package, kind, name) = canonical_parts(full_name)->0;
    assert(full_name == ros_name(schema.package, kind, schema.name));
    let converted = schema.fields.map_values(|field: FieldModel| field.name);
    let declared = msg.fields.map_values(|field: FieldDef| field.name);
    assert forall|i: int| 0 <= i < declared.len() implies converted[i] == declared[i] by {
        assert(field_outcome(
            may_answer,
            may_hint,
            msg.fields[i],
            package,
            Ok(schema.fields[i]),
        ));
    }
    assert(converted =~= declared);
}

/// With answers that do not change, a field has one outcome.
proof fn lemma_field_outcome_is_determined(
    may_answer: Answers,
    may_hint: Hints,
    field: FieldDef,
    package: Seq<char>,
    a: Result<FieldModel, ErrorModel>,
    b: Result<FieldModel, ErrorModel>,
)
    requires
        consistent(may_answer),
        consistent_hints(may_hint),
        field_outcome(may_answer, may_hint, field, package, a),
        field_outcome(may_answer, may_hint, field, package, b),
    ensures
        a == b,
{
    let ha = choose|hint: Option<Seq<char>>|
        {
            &&& #[trigger] may_hint(field.name, hint)
            &&& match a {
                Ok(converted) => converted.name == field.name && type_outcome(
                    may_answer,
                    field,
                    package,
                    hint,
                    Ok(converted.field_type),
                ),
                Err(error) => type_outcome(may_answer, field, package, hint, Err(error)),
            }
        };
    let hb = choose|hint: Option<Seq<char>>|
        {
            &&& #[trigger] may_hint(field.name, hint)
            &&& match b {
                Ok(converted) => converted.name == field.name && type_outcome(
                    may_answer,
                    field,
                    package,
                    hint,
                    Ok(converted.field_type),
                ),
                Err(error) => type_outcome(may_answer, field, package, hint, Err(error)),
            }
        };
    assert(ha == hb);
    let ta: Result<TypeModel, ErrorModel> = match a {
        Ok(converted) => Ok(converted.field_type),
        Err(error) => Err(error),
    };
    let tb: Result<TypeModel, ErrorModel> = match b {
        Ok(converted) => Ok(converted.field_type),
        Err(error) => Err(error),
    };
    if declared_type(field) is Some {
        law_builtin_types_need_no_lookup(may_answer, field, package, ha, ta);
        law_builtin_types_need_no_lookup(may_answer, field, package, ha, tb);
    } else {
        law_message_types_are_looked_up(may_answer, field, package, ha, ta);
        law_message_types_are_looked_up(may_answer, field, package, ha, tb);
    }
    assert(ta == tb);
}

/// A conversion is determined by the definition, the type name and the answers: with
/// answers that do not change there is one outcome.
pub proof fn law_conversion_is_determined(
    may_answer: Answers,
    may_hint: Hints,
    msg: MessageDef,
    full_name: Seq<char>,
    a: Result<SchemaModel, ErrorModel>,
    b: Result<SchemaModel, ErrorModel>,
)
    requires
        consistent(may_answer),
        consistent_hints(may_hint),
        message_outcome(may_answer, may_hint, msg, full_name, a),
        message_outcome(may_answer, may_hint, msg, full_name, b),
    ensures
        a == b,
{
    if canonical_parts(full_name) is Some {
        let (package, kind, name) = canonical_parts(full_name)->0;
        match (a, b) {
            (Ok(x), Ok(y)) => {
                assert forall|i: int| 0 <= i < msg.fields.len() implies x.fields[i]
                    == y.fields[i] by {
                    assert(field_outcome(
                        may_answer,
                        may_hint,
                        msg.fields[i],
                        package,
                        Ok(x.fields[i]),
                    ));
                    lemma_field_outcome_is_determined(
                        may_answer,
                        may_hint,
                        msg.fields[i],
                        package,
                        Ok(x.fields[i]),
                        Ok(y.fields[i]),
                    );
                }
                assert(x.fields =~= y.fields);
            },
            (Ok(x), Err(e)) => {
                lemma_fails_or_converts(may_answer, may_hint, msg, full_name, x, e);
            },
            (Err(e), Ok(y)) => {
                lemma_fails_or_converts(may_answer, may_hint, msg, full_name, y, e);
            },
            (Err(e), Err(f)) => {
                let i = choose|i: int| #[trigger]
                    fails_at(may_answer, may_hint, msg.fields, package, e, i);
                let j = choose|j: int| #[trigger]
                    fails_at(may_answer, may_hint, msg.fields, package, f, j);
                if i < j {
                    lemma_convertible_does_not_fail(
                        may_answer,
                        may_hint,
                        msg.fields[i],
                        package,
                        e,
                    );
                } else if j < i {
                    lemma_convertible_does_not_fail(
                        may_answer,
                        may_hint,
                        msg.fields[j],
                        package,
                        f,
                    );
                } else {
                    lemma_field_outcome_is_determined(
                        may_answer,
                        may_hint,
                        msg.fields[i],
                        package,
                        Err(e),
                        Err(f),
                    );
                }
            },
        }
    }
}

/// With answers that do not change, a field that converts does not fail.
proof fn lemma_convertible_does_not_fail(
    may_answer: Answers,
    may_hint: Hints,
    field: FieldDef,
    package: Seq<char>,
    error: ErrorModel,
)
    requires
        consistent(may_answer),
        consistent_hints(may_hint),
        convertible(may_answer, may_hint, field, package),
    ensures
        !field_outcome(may_answer, may_hint, field, package, Err(error)),
{
    if field_outcome(may_answer, may_hint, field, package, Err(error)) {
        let converted = choose|converted: FieldModel| #[trigger]
            field_outcome(may_answer, may_hint, field, package, Ok(converted));
        lemma_field_outcome_is_determined(
            may_answer,
            may_hint,
            field,
            package,
            Ok(converted),
            Err(error),
        );
    }
}

/// With answers that do not change, a definition does not both convert and fail.
proof fn lemma_fails_or_converts(
    may_answer: Answers,
    may_hint: Hints,
    msg: MessageDef,
    full_name: Seq<char>,
    schema: SchemaModel,
    error: ErrorModel,
)
    requires
        consistent(may_answer),
        consistent_hints(may_hint),
        canonical_parts(full_name) is Some,
        message_outcome(may_answer, may_hint, msg, full_name, Ok(schema)),
    ensures
        !message_outcome(may_answer, may_hint, msg, full_name, Err(error)),
{
    let (package, kind, name) = canonical_parts(full_name)->0;
    if message_outcome(may_answer, may_hint, msg, full_name, Err(error)) {
        let i = choose|i: int| #[trigger]
            fails_at(may_answer, may_hint, msg.fields, package, error, i);
        assert(field_outcome(may_answer, may_hint, msg.fields[i], package, Ok(schema.fields[i])));
        assert(convertible(may_answer, may_hint, msg.fields[i], package));
        lemma_convertible_does_not_fail(may_answer, may_hint, msg.fields[i], package, error);
    }
}

/// A resolver that knows messages only finds nothing under the name of a service or an
/// action, nor under a name that is not canonical.
pub proof fn law_only_messages_are_found<R: Fn(&str, &str) -> Option<Arc<MessageSchema>>>(
    resolver: R,
    full_name: Seq<char>,
    reply: Option<SchemaModel>,
)
    requires
        match canonical_parts(full_name) {
            Some((package, kind, name)) => kind != "msg"@,
            None => true,
        },
    ensures
        msg_answers(resolver)(full_name, reply) <==> reply is None,
{
}

/// A field that declares a collection holds the items that it would hold without one: as
/// many as declared for `type[n]`, at most so many for `type[<=n]`, any number for `type[]`.
/// Its type cannot be converted exactly if that of a single item cannot.
pub proof fn law_collections_hold_the_declared_items(
    may_answer: Answers,
    field: FieldDef,
    one: FieldDef,
    declaring_package: Seq<char>,
    hint: Option<Seq<char>>,
    out: Result<TypeModel, ErrorModel>,
)
    requires
        one.array == ArrayType::Single,
        one.base_type == field.base_type,
        one.package == field.package,
        one.string_bound == field.string_bound,
    ensures
        type_outcome(may_answer, field, declaring_package, hint, out) <==> match out {
            Ok(converted) => exists|item: TypeModel|
                {
                    &&& #[trigger] type_outcome(may_answer, one, declaring_package, hint, Ok(item))
                    &&& match field.array {
                        ArrayType::Single => converted == item,
                        ArrayType::Fixed(n) => converted == TypeModel::Array(Box::new(item), n),
                        ArrayType::Bounded(n) => converted == TypeModel::BoundedSequence(
                            Box::new(item),
                            n,
                        ),
                        ArrayType::Unbounded => converted == TypeModel::Sequence(Box::new(item)),
                    }
                },
            Err(error) => type_outcome(may_answer, one, declaring_package, hint, Err(error)),
        },
{
    assert forall|item: Result<TypeModel, ErrorModel>| #[trigger]
        item_outcome(may_answer, one, declaring_package, hint, item) == item_outcome(
            may_answer,
            field,
            declaring_package,
            hint,
            item,
        ) by {}
    assert forall|item: TypeModel| #[trigger]
        type_outcome(may_answer, one, declaring_package, hint, Ok(item)) == item_outcome(
            may_answer,
            one,
            declaring_package,
            hint,
            Ok(item),
        ) by {
        assert(collected(ArrayType::Single, item) == item);
    }
    match out {
        Ok(converted) => {
            if type_outcome(may_answer, field, declaring_package, hint, out) {
                let item = choose|item: TypeModel|
                    {
                        &&& #[trigger] item_outcome(
                            may_answer,
                            field,
                            declaring_package,
                            hint,
                            Ok(item),
                        )
                        &&& converted == collected(field.array, item)
                    };
                assert(type_outcome(may_answer, one, declaring_package, hint, Ok(item)));
            }
        },
        Err(error) => {},
    }
}

/// What the built-in types stand for, each by its name, whatever a resolver or a source
/// format answers.
pub proof fn law_built_in_types_by_name(
    may_answer: Answers,
    field: FieldDef,
    declaring_package: Seq<char>,
    hint: Option<Seq<char>>,
    out: Result<TypeModel, ErrorModel>,
)
    requires
        field.array == ArrayType::Single,
        type_outcome(may_answer, field, declaring_package, hint, out),
    ensures
        field.base_type == "bool"@ ==> out == Ok::<TypeModel, ErrorModel>(TypeModel::Bool),
        field.base_type == "int8"@ ==> out == Ok::<TypeModel, ErrorModel>(TypeModel::Int8),
        field.base_type == "byte"@ ==> out == Ok::<TypeModel, ErrorModel>(TypeModel::Byte),
        field.base_type == "int16"@ ==> out == Ok::<TypeModel, ErrorModel>(TypeModel::Int16),
        field.base_type == "int32"@ ==> out == Ok::<TypeModel, ErrorModel>(TypeModel::Int32),
        field.base_type == "int64"@ ==> out == Ok::<TypeModel, ErrorModel>(TypeModel::Int64),
        field.base_type == "uint8"@ ==> out == Ok::<TypeModel, ErrorModel>(TypeModel::Uint8),
        field.base_type == "char"@ ==> out == Ok::<TypeModel, ErrorModel>(TypeModel::Uint8),
        field.base_type == "idl_char"@ ==> out == Ok::<TypeModel, ErrorModel>(TypeModel::Char),
        field.base_type == "uint16"@ ==> out == Ok::<TypeModel, ErrorModel>(TypeModel::Uint16),
        field.base_type == "wchar"@ ==> out == Ok::<TypeModel, ErrorModel>(TypeModel::WChar),
        field.base_type == "uint32"@ ==> out == Ok::<TypeModel, ErrorModel>(TypeModel::Uint32),
        field.base_type == "uint64"@ ==> out == Ok::<TypeModel, ErrorModel>(TypeModel::Uint64),
        field.base_type == "float32"@ ==> out == Ok::<TypeModel, ErrorModel>(TypeModel::Float32),
        field.base_type == "float64"@ ==> out == Ok::<TypeModel, ErrorModel>(TypeModel::Float64),
        field.base_type == "string"@ ==> out == Ok::<TypeModel, ErrorModel>(
            match field.string_bound {
                Some(n) => TypeModel::BoundedString(n),
                None => TypeModel::String,
            },
        ),
        field.base_type == "wstring"@ ==> out == Ok::<TypeModel, ErrorModel>(
            match field.string_bound {
                Some(n) => TypeModel::BoundedWString(n),
                None => TypeModel::WString,
            },
        ),
{
    reveal_strlit("bool");
    reveal_strlit("int8");
    reveal_strlit("byte");
    reveal_strlit("int16");
    reveal_strlit("int32");
    reveal_strlit("int64");
    reveal_strlit("uint8");
    reveal_strlit("char");
    reveal_strlit("idl_char");
    reveal_strlit("uint16");
    reveal_strlit("wchar");
    reveal_strlit("uint32");
    reveal_strlit("uint64");
    reveal_strlit("float32");
    reveal_strlit("float64");
    reveal_strlit("string");
    reveal_strlit("wstring");
    assert("bool"@[0] != "int8"@[0]);
    assert("bool"@[1] != "byte"@[1]);
    assert("bool"@[0] != "char"@[0]);
    assert("int8"@[0] != "byte"@[0]);
    assert("int8"@[0] != "char"@[0]);
    assert("byte"@[0] != "char"@[0]);
    assert("int16"@[3] != "int32"@[3]);
    assert("int16"@[3] != "int64"@[3]);
    assert("int16"@[0] != "uint8"@[0]);
    assert("int16"@[0] != "wchar"@[0]);
    assert("int32"@[3] != "int64"@[3]);
    assert("int32"@[0] != "uint8"@[0]);
    assert("int32"@[0] != "wchar"@[0]);
    assert("int64"@[0] != "uint8"@[0]);
    assert("int64"@[0] != "wchar"@[0]);
    assert("uint8"@[0] != "wchar"@[0]);
    assert("uint16"@[4] != "uint32"@[4]);
    assert("uint16"@[4] != "uint64"@[4]);
    assert("uint16"@[0] != "string"@[0]);
    assert("uint32"@[4] != "uint64"@[4]);
    assert("uint32"@[0] != "string"@[0]);
    assert("uint64"@[0] != "string"@[0]);
    assert("float32"@[5] != "float64"@[5]);
    assert("float32"@[0] != "wstring"@[0]);
    assert("float64"@[0] != "wstring"@[0]);
    lemma_single_item(may_answer, field, declaring_package, hint, out);
}

/// The type of a field without a collection is that of its item.
proof fn lemma_single_item(
    may_answer: Answers,
    field: FieldDef,
    declaring_package: Seq<char>,
    hint: Option<Seq<char>>,
    out: Result<TypeModel, ErrorModel>,
)
    requires
        field.array == ArrayType::Single,
    ensures
        type_outcome(may_answer, field, declaring_package, hint, out) <==> item_outcome(
            may_answer,
            field,
            declaring_package,
            hint,
            out,
        ),
{
    match out {
        Ok(converted) => {
            assert(collected(ArrayType::Single, converted) == converted);
        },
        Err(error) => {},
    }
}

/// A string type with a number written behind `<=` is bounded by that number.
pub proof fn law_written_bounds_are_read(
    may_answer: Answers,
    field: FieldDef,
    declaring_package: Seq<char>,
    hint: Option<Seq<char>>,
    digits: Seq<char>,
    n: usize,
    out: Result<TypeModel, ErrorModel>,
)
    requires
        field.array == ArrayType::Single,
        usize_text(digits) == Some(n),
        type_outcome(may_answer, field, declaring_package, hint, out),
    ensures
        field.base_type == "string<="@ + digits ==> out == Ok::<TypeModel, ErrorModel>(
            TypeModel::BoundedString(n),
        ),
        field.base_type == "wstring<="@ + digits ==> out == Ok::<TypeModel, ErrorModel>(
            TypeModel::BoundedWString(n),
        ),
{
    let base = field.base_type;
    reveal_strlit("string<=");
    reveal_strlit("wstring<=");
    lemma_single_item(may_answer, field, declaring_package, hint, out);
    if base == "string<="@ + digits {
        assert(base[7] == '=');
        lemma_no_primitive_has(base, 7);
        assert("string<="@ =~= base.take(8));
        assert(base.skip(8) =~= digits);
    }
    if base == "wstring<="@ + digits {
        assert(base[8] == '=');
        lemma_no_primitive_has(base, 8);
        assert(base[0] == 'w');
        assert("string<="@.is_prefix_of(base) ==> base[0] == 's') by {
            if "string<="@.is_prefix_of(base) {
                assert(base.take(8)[0] == base[0]);
            }
        }
        assert("wstring<="@ =~= base.take(9));
        assert(base.skip(9) =~= digits);
    }
}

/// No primitive type has an equals sign in its name.
proof fn lemma_no_primitive_has(base: Seq<char>, k: int)
    requires
        0 <= k < base.len(),
        base[k] == '=',
    ensures
        primitive_type(base) is None,
        base != "string"@,
        base != "wstring"@,
{
    reveal_strlit("bool");
    reveal_strlit("int8");
    reveal_strlit("byte");
    reveal_strlit("int16");
    reveal_strlit("int32");
    reveal_strlit("int64");
    reveal_strlit("uint8");
    reveal_strlit("char");
    reveal_strlit("idl_char");
    reveal_strlit("uint16");
    reveal_strlit("wchar");
    reveal_strlit("uint32");
    reveal_strlit("uint64");
    reveal_strlit("float32");
    reveal_strlit("float64");
    reveal_strlit("string");
    reveal_strlit("wstring");
}

/// Every other type is a message, and is looked up under one name: the one that the source
/// format gives, or else the message of that name in the field's package, or else in the
/// package of the declaring type. The type is then the schema that was found, and if none was
/// found, that name is missing.
pub proof fn law_other_types_are_looked_up_by_name(
    may_answer: Answers,
    field: FieldDef,
    declaring_package: Seq<char>,
    hint: Option<Seq<char>>,
    name: Seq<char>,
    out: Result<TypeModel, ErrorModel>,
)
    requires
        field.array == ArrayType::Single,
        name == match (hint, field.package) {
            (Some(given), _) => given,
            (None, Some(package)) => package + "/msg/"@ + field.base_type,
            (None, None) => declaring_package + "/msg/"@ + field.base_type,
        },
        field.base_type != "bool"@,
        field.base_type != "int8"@,
        field.base_type != "byte"@,
        field.base_type != "int16"@,
        field.base_type != "int32"@,
        field.base_type != "int64"@,
        field.base_type != "uint8"@,
        field.base_type != "char"@,
        field.base_type != "idl_char"@,
        field.base_type != "uint16"@,
        field.base_type != "wchar"@,
        field.base_type != "uint32"@,
        field.base_type != "uint64"@,
        field.base_type != "float32"@,
        field.base_type != "float64"@,
        field.base_type != "string"@,
        field.base_type != "wstring"@,
        forall|digits: Seq<char>|
            field.base_type == "string<="@ + digits ==> #[trigger] usize_text(digits) is None,
        forall|digits: Seq<char>|
            field.base_type == "wstring<="@ + digits ==> #[trigger] usize_text(digits) is None,
    ensures
        type_outcome(may_answer, field, declaring_package, hint, out) <==> match out {
            Ok(converted) => converted matches TypeModel::Message(schema) && may_answer(
                name,
                Some(*schema),
            ),
            Err(error) => error == ErrorModel::SchemaNotFound(name) && may_answer(name, None),
        },
{
    let base = field.base_type;
    lemma_single_item(may_answer, field, declaring_package, hint, out);
    assert(primitive_type(base) is None);
    assert(written_bound(base, "string<="@) is None) by {
        lemma_no_bound(base, "string<="@);
    }
    assert(written_bound(base, "wstring<="@) is None) by {
        lemma_no_bound(base, "wstring<="@);
    }
    assert(declared_type(field) is None);
    assert(name == referenced_name(base, field.package, declaring_package, hint)) by {
        lemma_message_name(declaring_package, base);
        if field.package is Some {
            lemma_message_name(field.package->0, base);
        }
    }
}

/// Without a number behind the prefix, no bound is written.
proof fn lemma_no_bound(base: Seq<char>, prefix: Seq<char>)
    requires
        forall|digits: Seq<char>|
            base == prefix + digits ==> #[trigger] usize_text(digits) is None,
    ensures
        written_bound(base, prefix) is None,
{
    if prefix.is_prefix_of(base) {
        let digits = base.skip(prefix.len() as int);
        assert(base =~= prefix + digits);
        assert(usize_text(digits) is None);
    }
}

/// The name of a message of a package.
proof fn lemma_message_name(package: Seq<char>, name: Seq<char>)
    ensures
        ros_name(package, "msg"@, name) == package + "/msg/"@ + name,
{
    reveal_strlit("/msg/");
    reveal_strlit("msg");
    assert(ros_name(package, "msg"@, name) =~= package + "/msg/"@ + name);
}

/// A base type converts as the type of a field does that is written so, without a collection
/// and without a bound beside it.
pub proof fn law_base_types_convert_like_fields(
    may_answer: Answers,
    field: FieldDef,
    declaring_package: Seq<char>,
    hint: Option<Seq<char>>,
    out: Result<TypeModel, ErrorModel>,
)
    requires
        field.array == ArrayType::Single,
        field.string_bound is None,
    ensures
        base_outcome(
            may_answer,
            field.base_type,
            field.package,
            declaring_package,
            hint,
            out,
        ) <==> type_outcome(may_answer, field, declaring_package, hint, out),
{
    lemma_single_item(may_answer, field, declaring_package, hint, out);
}

/// A schema that has to exist is the one that the resolver gives for its name, and if the
/// resolver gives none, it is that name which is missing.
pub proof fn law_required_schemas_are_those_found(
    may_answer: Answers,
    name: Seq<char>,
    schema: SchemaModel,
    error: ErrorModel,
)
    ensures
        required_outcome(may_answer, name, Ok(schema)) <==> may_answer(name, Some(schema)),
        required_outcome(may_answer, name, Err(error)) <==> may_answer(name, None) && error
            == ErrorModel::SchemaNotFound(name),
{
}

/// A message is converted field by field. A schema has the name that was asked for, split
/// into its parts, and one field for each of the definition, with its name and its converted
/// type, in order. An error is that of the first field that cannot be converted, or, exactly
/// if the name is not canonical, that name.
pub proof fn law_messages_are_converted_field_by_field(
    may_answer: Answers,
    may_hint: Hints,
    msg: MessageDef,
    full_name: Seq<char>,
    out: Result<SchemaModel, ErrorModel>,
)
    requires
        message_outcome(may_answer, may_hint, msg, full_name, out),
    ensures
        match canonical_parts(full_name) {
            None => out == Err::<SchemaModel, ErrorModel>(ErrorModel::InvalidTypeName(full_name)),
            Some((package, kind, name)) => match out {
                Ok(schema) => {
                    &&& schema.full_name == full_name
                    &&& schema.package == package
                    &&& schema.name == name
                    &&& schema.type_hash is None
                    &&& schema.fields.len() == msg.fields.len()
                    &&& forall|i: int| #![trigger schema.fields[i]] #![trigger msg.fields[i]]
                        0 <= i < msg.fields.len() ==> {
                            &&& schema.fields[i].name == msg.fields[i].name
                            &&& converts_to(
                                may_answer,
                                may_hint,
                                msg.fields[i],
                                package,
                                Ok(schema.fields[i].field_type),
                            )
                        }
                },
                Err(error) => exists|i: int| #[trigger]
                    stops_at(may_answer, may_hint, msg.fields, package, error, i),
            },
        },
{
    if canonical_parts(full_name) is Some {
        let (package, kind, name) = canonical_parts(full_name)->0;
        match out {
            Ok(schema) => {
                assert forall|i: int| #![trigger schema.fields[i]] #![trigger msg.fields[i]]
                    0 <= i < msg.fields.len() implies {
                    &&& schema.fields[i].name == msg.fields[i].name
                    &&& converts_to(
                        may_answer,
                        may_hint,
                        msg.fields[i],
                        package,
                        Ok(schema.fields[i].field_type),
                    )
                } by {
                    assert(field_outcome(
                        may_answer,
                        may_hint,
                        msg.fields[i],
                        package,
                        Ok(schema.fields[i]),
                    ));
                }
            },
            Err(error) => {
                let i = choose|i: int| #[trigger]
                    fails_at(may_answer, may_hint, msg.fields, package, error, i);
                assert(field_outcome(may_answer, may_hint, msg.fields[i], package, Err(error)));
                assert(converts_to(may_answer, may_hint, msg.fields[i], package, Err(error)));
                assert forall|j: int| 0 <= j < i implies may_convert(
                    may_answer,
                    may_hint,
                    #[trigger] msg.fields[j],
                    package,
                ) by {
                    assert(convertible(may_answer, may_hint, msg.fields[j], package));
                    let field = choose|field: FieldModel| #[trigger]
                        field_outcome(may_answer, may_hint, msg.fields[j], package, Ok(field));
                    assert(converts_to(
                        may_answer,
                        may_hint,
                        msg.fields[j],
                        package,
                        Ok(field.field_type),
                    ));
                }
                assert(stops_at(may_answer, may_hint, msg.fields, package, error, i));
            },
        }
    }
}

/// Whether the field at `i` may fail so, and every field before it may convert.
pub open spec fn stops_at(
    may_answer: Answers,
    may_hint: Hints,
    fields: Seq<FieldDef>,
    declaring_package: Seq<char>,
    error: ErrorModel,
    i: int,
) -> bool {
    &&& 0 <= i < fields.len()
    &&& converts_to(may_answer, may_hint, fields[i], declaring_package, Err(error))
    &&& forall|j: int|
        0 <= j < i ==> may_convert(may_answer, may_hint, #[trigger] fields[j], declaring_package)
}

/// Whether the type of a field may convert.
pub open spec fn may_convert(
    may_answer: Answers,
    may_hint: Hints,
    field: FieldDef,
    declaring_package: Seq<char>,
) -> bool {
    exists|converted: TypeModel| #[trigger]
        converts_to(may_answer, may_hint, field, declaring_package, Ok(converted))
}

/// Whether the type of a field may convert so, with some type name that the source format may
/// give for the field.
pub open spec fn converts_to(
    may_answer: Answers,
    may_hint: Hints,
    field: FieldDef,
    declaring_package: Seq<char>,
    out: Result<TypeModel, ErrorModel>,
) -> bool {
    exists|hint: Option<Seq<char>>| #[trigger]
        may_hint(field.name, hint) && type_outcome(may_answer, field, declaring_package, hint, out)
}

/// What counts as an answer of a resolver is what the resolver returns for that name: if all
/// that it can return is one schema, or none, that is the answer.
pub proof fn law_answers_come_from_the_resolver<R: Fn(&str) -> Option<Arc<MessageSchema>>>(
    resolver: R,
    name: Seq<char>,
    expected: Option<SchemaModel>,
    reply: Option<SchemaModel>,
)
    requires
        forall|s: &str, r: Option<Arc<MessageSchema>>| #[trigger]
            call_ensures(resolver, (s,), r) && s@ == name ==> match r {
                Some(schema) => expected == Some(schema@),
                None => expected is None,
            },
        answers(resolver)(name, reply),
    ensures
        reply == expected,
{
}

/// The same of a resolver that is asked for a package and a message name.
pub proof fn law_message_answers_come_from_the_resolver<
    R: Fn(&str, &str) -> Option<Arc<MessageSchema>>,
>(
    resolver: R,
    package: Seq<char>,
    name: Seq<char>,
    expected: Option<SchemaModel>,
    reply: Option<SchemaModel>,
)
    requires
        !package.contains('/'),
        !name.contains('/'),
        forall|p: &str, n: &str, r: Option<Arc<MessageSchema>>| #[trigger]
            call_ensures(resolver, (p, n), r) && p@ == package && n@ == name ==> match r {
                Some(schema) => expected == Some(schema@),
                None => expected is None,
            },
        msg_answers(resolver)(package + "/msg/"@ + name, reply),
    ensures
        reply == expected,
{
    reveal_strlit("/");
    reveal_strlit("msg");
    reveal_strlit("/msg/");
    assert(package + "/msg/"@ + name =~= package + "/"@ + "msg"@ + "/"@ + name);
    law_canonical_names_have_three_parts(package + "/msg/"@ + name, package, "msg"@, name);
}

/// The type name of a field is what the source format gives for it, and a definition without
/// such names gives none.
pub proof fn law_hints_come_from_the_source_format<'a, F: Fn(&str) -> Option<&'a str>>(
    reference: F,
    name: Seq<char>,
    expected: Option<Seq<char>>,
    hint: Option<Seq<char>>,
)
    requires
        forall|s: &str, r: Option<&'a str>| #[trigger]
            call_ensures(reference, (s,), r) && s@ == name ==> match r {
                Some(given) => expected == Some(given@),
                None => expected is None,
            },
    ensures
        hints(reference)(name, hint) ==> hint == expected,
        no_hints()(name, hint) <==> hint is None,
{
}

/// Whether a type names no message does not depend on any answer: if it stands for itself, it
/// converts to what it stands for and to nothing else, and if not, to nothing but a message.
pub proof fn law_types_stand_for_themselves_or_for_messages(
    may_answer: Answers,
    field: FieldDef,
    declaring_package: Seq<char>,
    hint: Option<Seq<char>>,
    out: Result<TypeModel, ErrorModel>,
)
    requires
        field.array == ArrayType::Single,
        type_outcome(may_answer, field, declaring_package, hint, out),
    ensures
        declared_type(field) matches Some(declared) ==> out == Ok::<TypeModel, ErrorModel>(
            declared,
        ) && !(declared is Message),
        declared_type(field) is None && out is Ok ==> out->Ok_0 is Message,
{
    lemma_single_item(may_answer, field, declaring_package, hint, out);
}

} // verus!
