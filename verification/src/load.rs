//! Loading message schemas from their definitions, together with the schemas of
//! the messages nested in them.
//!
//! The caller supplies the outside work: `find` looks for the file of a message on
//! disk, and `parse` reads a definition. Everything else is decided here: where a
//! definition is taken from, in which order nested messages are loaded, when and why a
//! load has failed, and what is registered.
//!
//! A load is described by the log of the calls that it makes, with their answers, in
//! the order in which they are made. The log fixes what comes of the load ([`load`]),
//! whether or not the answers would be the same another time.

use crate::convert::{
    collect, collected, convert_declared, convertible, converts_to, declared_type, fails_at,
    field_outcome, fields_outcome, item_outcome, may_convert, no_hints, schema_of, stops_at,
    Answers,
};
use crate::embedded::{
    law_embedded_table_is_sorted, msg_source_in, msg_text, sorted_table, MsgTable, EMBEDDED_MSGS,
};
use crate::error::{DynamicError, ErrorModel};
use crate::failure::{failed_name, first_failure, load_result, FailureModel, LoadFailure};
use crate::msg_path::MsgPath;
use crate::names::{
    canonical_parts, join_name, law_join_of_split_canonical, law_shorthand_names_the_message,
    law_slashes_spoil_a_name, law_split_canonical_of_join, msg_type_parts, ros_name,
    split_canonical, split_msg_type,
};
use crate::registry::{keyed_by_name, known, with_schema, SchemaRegistry};
use crate::schema::{
    lemma_schema_fields, FieldModel, FieldSchema, FieldType, MessageSchema, SchemaModel, TypeModel,
};
use crate::text::same_text;
use crate::types::{ArrayType, Field, FieldDef, MessageDef, ParsedMessage};
use std::sync::Arc;
use vstd::prelude::*;
use vstd::string::*;

verus! {

/// Where a message definition is taken from.
#[derive(Clone, Debug, PartialEq, Eq)]
pub enum MsgSource {
    /// A file on disk.
    File(MsgPath),
    /// The text of a built-in definition.
    Embedded(&'static str),
}

/// The model of a [`MsgSource`].
pub enum SourceModel {
    File(Seq<Seq<char>>),
    Embedded(Seq<char>),
}

impl View for MsgSource {
    type V = SourceModel;

    open spec fn view(&self) -> SourceModel {
        match self {
            MsgSource::File(path) => SourceModel::File(path@),
            MsgSource::Embedded(text) => SourceModel::Embedded(text@),
        }
    }
}

impl DeepView for MsgSource {
    type V = SourceModel;

    open spec fn deep_view(&self) -> SourceModel {
        self@
    }
}

/// A call of `find` or of `parse`, with its answer.
pub enum Event {
    /// The file of a message was looked for.
    Find { package: Seq<char>, name: Seq<char>, file: Option<Seq<Seq<char>>> },
    /// The definition of a message was read.
    Parse {
        source: SourceModel,
        package: Seq<char>,
        name: Seq<char>,
        definition: Result<MessageDef, Seq<char>>,
    },
}

/// The model of what reading a definition gives: the definition, or what is wrong with it.
pub open spec fn read_result(result: Result<ParsedMessage, String>) -> Result<
    MessageDef,
    Seq<char>,
> {
    match result {
        Ok(parsed) => Ok(parsed@),
        Err(error) => Err(error@),
    }
}

/// Whether `find` and `parse` may answer as the event says.
pub open spec fn genuine<
    F: Fn(&str, &str) -> Option<MsgPath>,
    P: Fn(&MsgSource, &str, &str) -> Result<ParsedMessage, String>,
>(find: F, parse: P, event: Event) -> bool {
    match event {
        Event::Find { package, name, file } => exists|p: &str, n: &str, r: Option<MsgPath>|
            {
                &&& #[trigger] call_ensures(find, (p, n), r)
                &&& p@ == package
                &&& n@ == name
                &&& r.deep_view() == file
            },
        Event::Parse { source, package, name, definition } => exists|
            s: &MsgSource,
            p: &str,
            n: &str,
            r: Result<ParsedMessage, String>,
        |
            {
                &&& #[trigger] call_ensures(parse, (s, p, n), r)
                &&& s@ == source
                &&& p@ == package
                &&& n@ == name
                &&& read_result(r) == definition
            },
    }
}

/// Whether all events of a log may have happened.
pub open spec fn genuine_log<
    F: Fn(&str, &str) -> Option<MsgPath>,
    P: Fn(&MsgSource, &str, &str) -> Result<ParsedMessage, String>,
>(find: F, parse: P, log: Seq<Event>) -> bool {
    forall|i: int| 0 <= i < log.len() ==> genuine(find, parse, #[trigger] log[i])
}

/// Where the definition of a message is taken from: the file on disk if there is
/// one, and else the built-in definition.
pub open spec fn source_of(on_disk: Option<Seq<Seq<char>>>, built_in: Option<Seq<char>>) -> Option<
    SourceModel,
> {
    match on_disk {
        Some(path) => Some(SourceModel::File(path)),
        None => match built_in {
            Some(text) => Some(SourceModel::Embedded(text)),
            None => None,
        },
    }
}

/// The type name that a message-typed field of a message in `package` refers to. A
/// field without a package of its own refers to the same package.
pub open spec fn nested_name(field: FieldDef, package: Seq<char>) -> Seq<char> {
    match field.package {
        Some(own) => ros_name(own, "msg"@, field.base_type),
        None => ros_name(package, "msg"@, field.base_type),
    }
}

/// What a load has come to: the schema, or the chain of failures, the schemas that are
/// registered afterwards, and the rest of the log.
pub struct Loaded {
    pub schema: Result<SchemaModel, Seq<FailureModel>>,
    pub schemas: Map<Seq<char>, SchemaModel>,
    pub rest: Seq<Event>,
}

/// What loading the fields of a message has come to. If a field could not be loaded, there
/// is the chain of failures of its message, and the error of the conversion.
pub struct FieldsLoaded {
    pub fields: Result<Seq<FieldModel>, (Seq<FailureModel>, ErrorModel)>,
    pub schemas: Map<Seq<char>, SchemaModel>,
    pub rest: Seq<Event>,
}

/// What comes of loading the schema of `full_name` while the types in `in_progress`
/// are being loaded around it and `schemas` are registered, if the calls go as the log
/// says. A log that does not begin with the calls of the load comes to nothing.
pub open spec fn load(
    table: MsgTable,
    log: Seq<Event>,
    full_name: Seq<char>,
    in_progress: Seq<Seq<char>>,
    schemas: Map<Seq<char>, SchemaModel>,
) -> Option<Loaded>
    decreases log.len(), 1nat,
{
    if schemas.contains_key(full_name) {
        Some(Loaded { schema: Ok(schemas[full_name]), schemas, rest: log })
    } else {
        match msg_type_parts(full_name) {
            None => Some(failed(FailureModel::NotAMessage(full_name), schemas, log)),
            Some((package, name)) => match found_file(log, package, name) {
                None => None,
                Some(on_disk) => match source_of(on_disk, msg_text(table, package, name)) {
                    None => Some(failed(FailureModel::NotFound(full_name), schemas, log.skip(1))),
                    Some(source) => if in_progress.contains(full_name) {
                        Some(failed(FailureModel::Cyclic(full_name), schemas, log.skip(1)))
                    } else {
                        match read_definition(log.skip(1), source, package, name) {
                            None => None,
                            Some(Err(reason)) => Some(
                                failed(
                                    FailureModel::Unreadable { full_name, source, reason },
                                    schemas,
                                    log.skip(2),
                                ),
                            ),
                            Some(Ok(msg)) => load_definition(
                                table,
                                log,
                                msg,
                                full_name,
                                package,
                                in_progress,
                                schemas,
                            ),
                        }
                    },
                },
            },
        }
    }
}

/// A load that fails where it begins.
pub open spec fn failed(
    failure: FailureModel,
    schemas: Map<Seq<char>, SchemaModel>,
    rest: Seq<Event>,
) -> Loaded {
    Loaded { schema: Err(seq![failure]), schemas, rest }
}

/// The file that the first event of the log found, if that event is the search for the
/// given message.
pub open spec fn found_file(log: Seq<Event>, package: Seq<char>, name: Seq<char>) -> Option<
    Option<Seq<Seq<char>>>,
> {
    if log.len() > 0 {
        match log[0] {
            Event::Find { package: p, name: n, file } if p == package && n == name => Some(file),
            _ => None,
        }
    } else {
        None
    }
}

/// The definition that the first event of the log gave, if that event reads the given
/// message from the given source.
pub open spec fn read_definition(
    log: Seq<Event>,
    source: SourceModel,
    package: Seq<char>,
    name: Seq<char>,
) -> Option<Result<MessageDef, Seq<char>>> {
    if log.len() > 0 {
        match log[0] {
            Event::Parse { source: s, package: p, name: n, definition } if s == source && p
                == package && n == name => Some(definition),
            _ => None,
        }
    } else {
        None
    }
}

/// What comes of a load whose definition was read with the second event of the log.
pub open spec fn load_definition(
    table: MsgTable,
    log: Seq<Event>,
    msg: MessageDef,
    full_name: Seq<char>,
    package: Seq<char>,
    in_progress: Seq<Seq<char>>,
    schemas: Map<Seq<char>, SchemaModel>,
) -> Option<Loaded>
    decreases log.len(), 0nat,
{
    let own_name = ros_name(msg.package, "msg"@, msg.name);
    if log.len() < 2 {
        None
    } else if canonical_parts(own_name) is None {
        Some(
            failed(
                FailureModel::Unbuildable {
                    full_name,
                    error: ErrorModel::InvalidTypeName(own_name),
                },
                schemas,
                log.skip(2),
            ),
        )
    } else {
        match load_fields(
            table,
            log.skip(2),
            msg.fields,
            package,
            in_progress.push(full_name),
            schemas,
        ) {
            None => None,
            Some(loaded) => match loaded.fields {
                Err((causes, error)) => Some(
                    Loaded {
                        schema: Err(causes.push(FailureModel::Unbuildable { full_name, error })),
                        schemas: loaded.schemas,
                        rest: loaded.rest,
                    },
                ),
                Ok(fields) => {
                    let schema = schema_of(own_name, fields);
                    Some(
                        Loaded {
                            schema: Ok(schema),
                            schemas: with_schema(loaded.schemas, schema),
                            rest: loaded.rest,
                        },
                    )
                },
            },
        }
    }
}

/// What comes of converting the fields of a message in `package`, one after the
/// other: the schema of each nested message is loaded when its field is reached, and
/// the first that cannot be loaded ends it.
pub open spec fn load_fields(
    table: MsgTable,
    log: Seq<Event>,
    fields: Seq<FieldDef>,
    package: Seq<char>,
    in_progress: Seq<Seq<char>>,
    schemas: Map<Seq<char>, SchemaModel>,
) -> Option<FieldsLoaded>
    decreases log.len(), fields.len() + 3,
{
    if fields.len() == 0 {
        Some(FieldsLoaded { fields: Ok(seq![]), schemas, rest: log })
    } else {
        match load_fields(table, log, fields.drop_last(), package, in_progress, schemas) {
            None => None,
            Some(before) => match before.fields {
                Err(_) => Some(before),
                Ok(converted) => {
                    let field = fields.last();
                    match declared_type(field) {
                        Some(item) => Some(
                            FieldsLoaded {
                                fields: Ok(converted.push(converted_field(field, item))),
                                schemas: before.schemas,
                                rest: before.rest,
                            },
                        ),
                        None => if before.rest.len() > log.len() {
                            None
                        } else {
                            match load_nested(
                                table,
                                before.rest,
                                nested_name(field, package),
                                in_progress,
                                before.schemas,
                            ) {
                                None => None,
                                Some(nested) => Some(
                                    FieldsLoaded {
                                        fields: match nested.schema {
                                            Err(causes) => Err(
                                                (
                                                    causes,
                                                    ErrorModel::SchemaNotFound(
                                                        nested_name(field, package),
                                                    ),
                                                ),
                                            ),
                                            Ok(schema) => Ok(
                                                converted.push(
                                                    converted_field(
                                                        field,
                                                        TypeModel::Message(Box::new(schema)),
                                                    ),
                                                ),
                                            ),
                                        },
                                        schemas: nested.schemas,
                                        rest: nested.rest,
                                    },
                                ),
                            }
                        },
                    }
                },
            },
        }
    }
}

/// What comes of loading the schema of a nested message. Only canonical names of
/// messages are looked up.
pub open spec fn load_nested(
    table: MsgTable,
    log: Seq<Event>,
    full_name: Seq<char>,
    in_progress: Seq<Seq<char>>,
    schemas: Map<Seq<char>, SchemaModel>,
) -> Option<Loaded>
    decreases log.len(), 2nat,
{
    if names_a_message(full_name) {
        load(table, log, full_name, in_progress, schemas)
    } else {
        Some(Loaded { schema: Err(seq![]), schemas, rest: log })
    }
}

/// Whether `full_name` is the canonical name of a message type.
pub open spec fn names_a_message(full_name: Seq<char>) -> bool {
    match canonical_parts(full_name) {
        Some((package, kind, name)) => kind == "msg"@,
        None => false,
    }
}

/// A field with items of the given type.
pub open spec fn converted_field(field: FieldDef, item: TypeModel) -> FieldModel {
    FieldModel { name: field.name, field_type: collected(field.array, item) }
}

/// Whether `name` is in the list.
fn listed(names: &Vec<String>, name: &str) -> (found: bool)
    ensures
        found == names.deep_view().contains(name@),
{
    for i in 0..names.len()
        invariant
            forall|j: int| 0 <= j < i ==> (#[trigger] names.deep_view()[j]) != name@,
    {
        assert(names.deep_view()[i as int] == names@[i as int]@);
        if same_text(names[i].as_str(), name) {
            return true;
        }
    }
    false
}

/// A load does not look beyond the calls that it makes: with more in the log, it comes to
/// the same, and leaves the more.
proof fn lemma_longer_log(
    table: MsgTable,
    log: Seq<Event>,
    more: Seq<Event>,
    full_name: Seq<char>,
    in_progress: Seq<Seq<char>>,
    schemas: Map<Seq<char>, SchemaModel>,
)
    requires
        load(table, log, full_name, in_progress, schemas) is Some,
    ensures
        ({
            let loaded = load(table, log, full_name, in_progress, schemas)->0;
            load(table, log + more, full_name, in_progress, schemas) == Some(
                Loaded {
                    schema: loaded.schema,
                    schemas: loaded.schemas,
                    rest: loaded.rest + more,
                },
            )
        }),
    decreases log.len(), 0nat,
{
    if log.len() > 0 {
        assert((log + more)[0] == log[0]);
        assert((log + more).skip(1) =~= log.skip(1) + more);
    }
    if log.len() > 1 {
        assert((log + more).skip(1)[0] == log.skip(1)[0]);
        assert((log + more).skip(2) =~= log.skip(2) + more);
        match log[1] {
            Event::Parse { source, package, name, definition: Ok(msg) } => {
                let stack = in_progress.push(full_name);
                if load_fields(table, log.skip(2), msg.fields, package, stack, schemas) is Some {
                    lemma_longer_log_of_fields(
                        table,
                        log.skip(2),
                        more,
                        msg.fields,
                        package,
                        stack,
                        schemas,
                    );
                }
            },
            _ => {},
        }
    }
}

/// The same of the fields of a message.
proof fn lemma_longer_log_of_fields(
    table: MsgTable,
    log: Seq<Event>,
    more: Seq<Event>,
    fields: Seq<FieldDef>,
    package: Seq<char>,
    in_progress: Seq<Seq<char>>,
    schemas: Map<Seq<char>, SchemaModel>,
)
    requires
        load_fields(table, log, fields, package, in_progress, schemas) is Some,
    ensures
        ({
            let loaded = load_fields(table, log, fields, package, in_progress, schemas)->0;
            load_fields(table, log + more, fields, package, in_progress, schemas) == Some(
                FieldsLoaded {
                    fields: loaded.fields,
                    schemas: loaded.schemas,
                    rest: loaded.rest + more,
                },
            )
        }),
    decreases log.len(), fields.len() + 1,
{
    if fields.len() > 0 {
        let init = fields.drop_last();
        lemma_longer_log_of_fields(table, log, more, init, package, in_progress, schemas);
        let before = load_fields(table, log, init, package, in_progress, schemas)->0;
        let nested = nested_name(fields.last(), package);
        if before.fields is Ok && declared_type(fields.last()) is None {
            assert(load_nested(table, before.rest, nested, in_progress, before.schemas) is Some);
            if names_a_message(nested) {
                lemma_longer_log(table, before.rest, more, nested, in_progress, before.schemas);
            }
            assert(load_nested(
                table,
                before.rest + more,
                nested,
                in_progress,
                before.schemas,
            ) is Some);
        }
    }
}

/// What a load leaves of the log is the end of it.
proof fn lemma_rest_of_log(
    table: MsgTable,
    log: Seq<Event>,
    full_name: Seq<char>,
    in_progress: Seq<Seq<char>>,
    schemas: Map<Seq<char>, SchemaModel>,
)
    requires
        load(table, log, full_name, in_progress, schemas) is Some,
    ensures
        is_end_of(load(table, log, full_name, in_progress, schemas)->0.rest, log),
    decreases log.len(), 0nat,
{
    assert(log.skip(0) =~= log);
    if log.len() > 1 {
        match log[1] {
            Event::Parse { source, package, name, definition: Ok(msg) } => {
                let stack = in_progress.push(full_name);
                if load_fields(table, log.skip(2), msg.fields, package, stack, schemas) is Some {
                    lemma_rest_of_log_of_fields(
                        table,
                        log.skip(2),
                        msg.fields,
                        package,
                        stack,
                        schemas,
                    );
                    let rest = load_fields(
                        table,
                        log.skip(2),
                        msg.fields,
                        package,
                        stack,
                        schemas,
                    )->0.rest;
                    lemma_end_of_end(rest, log.skip(2), log);
                }
            },
            _ => {},
        }
    }
}

/// The same of the fields of a message.
proof fn lemma_rest_of_log_of_fields(
    table: MsgTable,
    log: Seq<Event>,
    fields: Seq<FieldDef>,
    package: Seq<char>,
    in_progress: Seq<Seq<char>>,
    schemas: Map<Seq<char>, SchemaModel>,
)
    requires
        load_fields(table, log, fields, package, in_progress, schemas) is Some,
    ensures
        is_end_of(load_fields(table, log, fields, package, in_progress, schemas)->0.rest, log),
    decreases log.len(), fields.len() + 1,
{
    assert(log.skip(0) =~= log);
    if fields.len() > 0 {
        let init = fields.drop_last();
        lemma_rest_of_log_of_fields(table, log, init, package, in_progress, schemas);
        let before = load_fields(table, log, init, package, in_progress, schemas)->0;
        let nested = nested_name(fields.last(), package);
        if before.fields is Ok && declared_type(fields.last()) is None {
            assert(load_nested(table, before.rest, nested, in_progress, before.schemas) is Some);
            if names_a_message(nested) {
                lemma_rest_of_log(table, before.rest, nested, in_progress, before.schemas);
                let rest = load(table, before.rest, nested, in_progress, before.schemas)->0.rest;
                lemma_end_of_end(rest, before.rest, log);
            }
        }
    }
}

/// Whether `rest` is what is left of the log after some of its events.
pub open spec fn is_end_of(rest: Seq<Event>, log: Seq<Event>) -> bool {
    &&& rest.len() <= log.len()
    &&& rest == log.skip(log.len() - rest.len())
}

/// An end of an end is an end.
proof fn lemma_end_of_end(rest: Seq<Event>, end: Seq<Event>, log: Seq<Event>)
    requires
        is_end_of(rest, end),
        is_end_of(end, log),
    ensures
        is_end_of(rest, log),
{
    assert(rest =~= log.skip(log.len() - rest.len()));
}

/// Whether the log, made of calls that `find` and `parse` may have answered so, is the log
/// of a load with the given result.
pub open spec fn explains<
    F: Fn(&str, &str) -> Option<MsgPath>,
    P: Fn(&MsgSource, &str, &str) -> Result<ParsedMessage, String>,
>(
    table: MsgTable,
    find: F,
    parse: P,
    full_name: Seq<char>,
    in_progress: Seq<Seq<char>>,
    before: Map<Seq<char>, SchemaModel>,
    result: Result<SchemaModel, Seq<FailureModel>>,
    after: Map<Seq<char>, SchemaModel>,
    log: Seq<Event>,
) -> bool {
    &&& genuine_log(find, parse, log)
    &&& load(table, log, full_name, in_progress, before) == Some(
        Loaded { schema: result, schemas: after, rest: seq![] },
    )
}

/// Whether a load may have the given result and leave the registered schemas `after`.
pub open spec fn load_outcome<
    F: Fn(&str, &str) -> Option<MsgPath>,
    P: Fn(&MsgSource, &str, &str) -> Result<ParsedMessage, String>,
>(
    table: MsgTable,
    find: F,
    parse: P,
    full_name: Seq<char>,
    in_progress: Seq<Seq<char>>,
    before: Map<Seq<char>, SchemaModel>,
    result: Result<SchemaModel, Seq<FailureModel>>,
    after: Map<Seq<char>, SchemaModel>,
) -> bool {
    exists|log: Seq<Event>| #[trigger]
        explains(table, find, parse, full_name, in_progress, before, result, after, log)
}

/// The model of the result of loading fields.
spec fn fields_result(
    result: Result<Vec<FieldSchema>, (Vec<LoadFailure>, DynamicError)>,
) -> Result<Seq<FieldModel>, (Seq<FailureModel>, ErrorModel)> {
    match result {
        Ok(fields) => Ok(fields.deep_view()),
        Err((causes, error)) => Err((causes.deep_view(), error@)),
    }
}

/// Converts the fields of a parsed message of `package`, loading the schemas of nested
/// messages on the way.
fn load_message_fields<
    F: Fn(&str, &str) -> Option<MsgPath>,
    P: Fn(&MsgSource, &str, &str) -> Result<ParsedMessage, String>,
>(
    table: &[(&'static str, &'static str)],
    parsed: &ParsedMessage,
    package: &str,
    in_progress: &mut Vec<String>,
    registry: &mut SchemaRegistry,
    find: &F,
    parse: &P,
) -> (out: (Result<Vec<FieldSchema>, (Vec<LoadFailure>, DynamicError)>, Ghost<Seq<Event>>))
    requires
        sorted_table(table@),
        old(registry).wf(),
        forall|p: &str, n: &str| call_requires(*find, (p, n)),
        forall|s: &MsgSource, p: &str, n: &str| call_requires(*parse, (s, p, n)),
    ensures
        final(registry).wf(),
        final(in_progress)@ == old(in_progress)@,
        genuine_log(*find, *parse, out.1@),
        load_fields(
            table@,
            out.1@,
            parsed@.fields,
            package@,
            old(in_progress).deep_view(),
            old(registry)@,
        ) == Some(
            (FieldsLoaded {
                fields: fields_result(out.0),
                schemas: final(registry)@,
                rest: seq![],
            }),
        ),
    decreases usize::MAX - old(in_progress)@.len(), 1nat,
{
    assert(in_progress@.len() == in_progress.len());
    let ghost stack = in_progress@;
    let ghost names = in_progress.deep_view();
    let ghost start = registry@;
    let ghost mut log: Seq<Event> = seq![];
    let mut fields: Vec<FieldSchema> = Vec::new();
    assert(fields.deep_view() =~= Seq::<FieldModel>::empty());
    assert(parsed@.fields.take(0) =~= Seq::<FieldDef>::empty());
    for i in 0..parsed.fields.len()
        invariant
            sorted_table(table@),
            registry.wf(),
            forall|p: &str, n: &str| call_requires(*find, (p, n)),
            forall|s: &MsgSource, p: &str, n: &str| call_requires(*parse, (s, p, n)),
            in_progress@ == stack,
            in_progress.deep_view() == names,
            stack == old(in_progress)@,
            stack.len() <= usize::MAX,
            names == old(in_progress).deep_view(),
            start == old(registry)@,
            genuine_log(*find, *parse, log),
            load_fields(table@, log, parsed@.fields.take(i as int), package@, names, start)
                == Some(
                (FieldsLoaded {
                    fields: Ok(fields.deep_view()),
                    schemas: registry@,
                    rest: seq![],
                }),
            ),
    {
        let field: &Field = &parsed.fields[i];
        let ghost upto = parsed@.fields.take(i + 1);
        let ghost done = fields.deep_view();
        let ghost schemas = registry@;
        proof {
            assert(parsed@.fields[i as int] == field@);
            assert(upto.drop_last() =~= parsed@.fields.take(i as int));
            assert(upto.last() == field@);
        }
        let item: FieldType = match convert_declared(field) {
            Some(declared) => declared,
            None => {
                let base_type: &str = field.field_type.base_type.as_str();
                let full_name: String = match &field.field_type.package {
                    Some(own) => join_name(own.as_str(), "msg", base_type),
                    None => join_name(package, "msg", base_type),
                };
                assert(full_name@ == nested_name(field@, package@));
                let is_message: bool = match split_canonical(full_name.as_str()) {
                    Some((_, kind, _)) => same_text(kind, "msg"),
                    None => false,
                };
                let ghost mut calls: Seq<Event> = seq![];
                let nested: Result<Arc<MessageSchema>, Vec<LoadFailure>> = if is_message {
                    let nested: Result<Arc<MessageSchema>, Vec<LoadFailure>> = load_schema_inner(
                        table,
                        full_name.as_str(),
                        in_progress,
                        registry,
                        find,
                        parse,
                    );
                    proof {
                        calls = choose|log: Seq<Event>| #[trigger]
                            explains(
                                table@,
                                *find,
                                *parse,
                                full_name@,
                                names,
                                schemas,
                                load_result(nested),
                                registry@,
                                log,
                            );
                    }
                    nested
                } else {
                    let causes: Vec<LoadFailure> = Vec::new();
                    assert(causes.deep_view() =~= seq![]);
                    Err(causes)
                };
                proof {
                    lemma_longer_log_of_fields(
                        table@,
                        log,
                        calls,
                        upto.drop_last(),
                        package@,
                        names,
                        start,
                    );
                    assert(Seq::<Event>::empty() + calls =~= calls);
                    assert(load_nested(table@, calls, full_name@, names, schemas) == Some(
                        (Loaded {
                            schema: load_result(nested),
                            schemas: registry@,
                            rest: seq![],
                        }),
                    ));
                    log = log + calls;
                }
                match nested {
                    Ok(schema) => FieldType::Message(schema),
                    Err(causes) => {
                        proof {
                            lemma_failure_stays(
                                table@,
                                log,
                                parsed@.fields,
                                package@,
                                names,
                                start,
                                i + 1,
                            );
                        }
                        return (Err((causes, DynamicError::SchemaNotFound(full_name))), Ghost(log));
                    },
                }
            },
        };
        let ghost item_model = item@;
        fields.push(FieldSchema::new(field.name.as_str(), collect(field.field_type.array, item)));
        assert(fields.deep_view() =~= done.push(converted_field(field@, item_model)));
    }
    assert(parsed@.fields.take(parsed@.fields.len() as int) =~= parsed@.fields);
    (Ok(fields), Ghost(log))
}

/// A field that cannot be loaded ends the load of the message: no later field is looked
/// at.
proof fn lemma_failure_stays(
    table: MsgTable,
    log: Seq<Event>,
    fields: Seq<FieldDef>,
    package: Seq<char>,
    in_progress: Seq<Seq<char>>,
    schemas: Map<Seq<char>, SchemaModel>,
    k: int,
)
    requires
        0 <= k <= fields.len(),
        load_fields(table, log, fields.take(k), package, in_progress, schemas) is Some,
        load_fields(table, log, fields.take(k), package, in_progress, schemas)->0.fields is Err,
    ensures
        load_fields(table, log, fields, package, in_progress, schemas) == load_fields(
            table,
            log,
            fields.take(k),
            package,
            in_progress,
            schemas,
        ),
    decreases fields.len(),
{
    if k == fields.len() {
        assert(fields.take(k) =~= fields);
    } else {
        assert(fields.drop_last().take(k) =~= fields.take(k));
        lemma_failure_stays(table, log, fields.drop_last(), package, in_progress, schemas, k);
    }
}

/// Loads the schema of `full_name` while the types in `in_progress` are being loaded
/// around it. They are in progress afterwards as they were before, whatever came of the
/// load.
///
/// A type that is met again while it is being loaded is part of a cycle, which no
/// well-formed definition has; its load fails.
pub fn load_schema_inner<
    F: Fn(&str, &str) -> Option<MsgPath>,
    P: Fn(&MsgSource, &str, &str) -> Result<ParsedMessage, String>,
>(
    table: &[(&'static str, &'static str)],
    full_name: &str,
    in_progress: &mut Vec<String>,
    registry: &mut SchemaRegistry,
    find: &F,
    parse: &P,
) -> (result: Result<Arc<MessageSchema>, Vec<LoadFailure>>)
    requires
        sorted_table(table@),
        old(registry).wf(),
        forall|p: &str, n: &str| call_requires(*find, (p, n)),
        forall|s: &MsgSource, p: &str, n: &str| call_requires(*parse, (s, p, n)),
    ensures
        final(registry).wf(),
        final(in_progress)@ == old(in_progress)@,
        load_outcome(
            table@,
            *find,
            *parse,
            full_name@,
            old(in_progress).deep_view(),
            old(registry)@,
            load_result(result),
            final(registry)@,
        ),
    decreases usize::MAX - old(in_progress)@.len(), 0nat,
{
    let ghost stack = in_progress@;
    let ghost names = in_progress.deep_view();
    let ghost start = registry@;
    let ghost mut log: Seq<Event> = seq![];
    match registry.get(full_name) {
        Some(schema) => {
            assert(explains(
                table@,
                *find,
                *parse,
                full_name@,
                names,
                start,
                Ok(schema@),
                start,
                log,
            ));
            return Ok(schema);
        },
        None => {},
    }
    let (package, name) = match split_msg_type(full_name) {
        Some(parts) => parts,
        None => {
            let failure: LoadFailure = LoadFailure::NotAMessage(full_name.to_owned());
            assert(explains(
                table@,
                *find,
                *parse,
                full_name@,
                names,
                start,
                Err(seq![failure@]),
                start,
                log,
            ));
            return Err(first_failure(failure));
        },
    };
    let on_disk: Option<MsgPath> = find(package.as_str(), name.as_str());
    let ghost found = Event::Find { package: package@, name: name@, file: on_disk.deep_view() };
    proof {
        assert(genuine(*find, *parse, found));
        log = seq![found];
        assert(log.skip(1) =~= seq![]);
    }
    let source: MsgSource = match on_disk {
        Some(path) => MsgSource::File(path),
        None => match msg_source_in(table, package.as_str(), name.as_str()) {
            Some(text) => MsgSource::Embedded(text),
            None => {
                let failure: LoadFailure = LoadFailure::NotFound(full_name.to_owned());
                assert(explains(
                    table@,
                    *find,
                    *parse,
                    full_name@,
                    names,
                    start,
                    Err(seq![failure@]),
                    start,
                    log,
                ));
                return Err(first_failure(failure));
            },
        },
    };
    if listed(in_progress, full_name) {
        let failure: LoadFailure = LoadFailure::Cyclic(full_name.to_owned());
        assert(explains(
            table@,
            *find,
            *parse,
            full_name@,
            names,
            start,
            Err(seq![failure@]),
            start,
            log,
        ));
        return Err(first_failure(failure));
    }
    let answer: Result<ParsedMessage, String> = parse(&source, package.as_str(), name.as_str());
    let ghost read = Event::Parse {
        source: source@,
        package: package@,
        name: name@,
        definition: read_result(answer),
    };
    proof {
        assert(genuine(*find, *parse, read));
        log = seq![found, read];
        assert(log.skip(1)[0] == read);
        assert(log.skip(2) =~= seq![]);
    }
    let parsed: ParsedMessage = match answer {
        Ok(parsed) => parsed,
        Err(reason) => {
            let failure: LoadFailure = LoadFailure::Unreadable {
                full_name: full_name.to_owned(),
                source,
                reason,
            };
            assert(explains(
                table@,
                *find,
                *parse,
                full_name@,
                names,
                start,
                Err(seq![failure@]),
                start,
                log,
            ));
            return Err(first_failure(failure));
        },
    };
    let own_name: String = join_name(parsed.package.as_str(), "msg", parsed.name.as_str());
    let (own_package, kind, own_short_name) = match split_canonical(own_name.as_str()) {
        Some(parts) => parts,
        None => {
            let failure: LoadFailure = LoadFailure::Unbuildable {
                full_name: full_name.to_owned(),
                error: DynamicError::InvalidTypeName(own_name),
            };
            assert(explains(
                table@,
                *find,
                *parse,
                full_name@,
                names,
                start,
                Err(seq![failure@]),
                start,
                log,
            ));
            return Err(first_failure(failure));
        },
    };
    in_progress.push(full_name.to_owned());
    assert(in_progress@.len() == in_progress.len());
    assert(in_progress.deep_view() =~= names.push(full_name@));
    let (fields, Ghost(calls)) = load_message_fields(
        table,
        &parsed,
        package.as_str(),
        in_progress,
        registry,
        find,
        parse,
    );
    in_progress.pop();
    proof {
        assert(in_progress@ =~= stack);
        log = seq![found, read] + calls;
        assert(log.skip(1)[0] == read);
        assert(log.skip(2) =~= calls);
    }
    let fields: Vec<FieldSchema> = match fields {
        Ok(fields) => fields,
        Err((mut failures, error)) => {
            let ghost causes = failures.deep_view();
            let failure: LoadFailure = LoadFailure::Unbuildable {
                full_name: full_name.to_owned(),
                error,
            };
            let ghost last = failure@;
            failures.push(failure);
            assert(failures.deep_view() =~= causes.push(last));
            assert(explains(
                table@,
                *find,
                *parse,
                full_name@,
                names,
                start,
                Err(failures.deep_view()),
                registry@,
                log,
            ));
            return Err(failures);
        },
    };
    let schema: MessageSchema = MessageSchema {
        full_name: own_name.clone(),
        package: own_package.to_owned(),
        name: own_short_name.to_owned(),
        fields,
        type_hash: None,
    };
    proof {
        lemma_schema_fields(schema);
    }
    let shared: Arc<MessageSchema> = registry.register(Arc::new(schema));
    assert(explains(
        table@,
        *find,
        *parse,
        full_name@,
        names,
        start,
        Ok(shared@),
        registry@,
        log,
    ));
    Ok(shared)
}

/// Loads the schema of a message type (`package/msg/Name` or `package/Name`), and those
/// of the messages nested in it, and registers them, or says why it could not.
///
/// A registered schema is returned as it is. Otherwise the definition on disk counts
/// or, if there is none, the one in the table. Without a definition, or with one that
/// cannot be read, that names an unknown type or that contains itself, the load fails.
///
/// What comes of the load follows from the table and the answers that `find` and `parse`
/// gave, and from nothing else.
pub fn load_schema_from<
    F: Fn(&str, &str) -> Option<MsgPath>,
    P: Fn(&MsgSource, &str, &str) -> Result<ParsedMessage, String>,
>(
    table: &[(&'static str, &'static str)],
    full_name: &str,
    registry: &mut SchemaRegistry,
    find: &F,
    parse: &P,
) -> (result: Result<Arc<MessageSchema>, Vec<LoadFailure>>)
    requires
        sorted_table(table@),
        old(registry).wf(),
        forall|p: &str, n: &str| call_requires(*find, (p, n)),
        forall|s: &MsgSource, p: &str, n: &str| call_requires(*parse, (s, p, n)),
    ensures
        final(registry).wf(),
        load_outcome(
            table@,
            *find,
            *parse,
            full_name@,
            seq![],
            old(registry)@,
            load_result(result),
            final(registry)@,
        ),
{
    let mut in_progress: Vec<String> = Vec::new();
    assert(in_progress.deep_view() =~= Seq::<Seq<char>>::empty());
    load_schema_inner(table, full_name, &mut in_progress, registry, find, parse)
}

/// Loads the schema of a message type as [`load_schema_from`] does, with the definitions
/// that are built into the library.
pub fn load_schema<
    F: Fn(&str, &str) -> Option<MsgPath>,
    P: Fn(&MsgSource, &str, &str) -> Result<ParsedMessage, String>,
>(full_name: &str, registry: &mut SchemaRegistry, find: &F, parse: &P) -> (schema: Option<
    Arc<MessageSchema>,
>)
    requires
        old(registry).wf(),
        forall|p: &str, n: &str| call_requires(*find, (p, n)),
        forall|s: &MsgSource, p: &str, n: &str| call_requires(*parse, (s, p, n)),
    ensures
        final(registry).wf(),
        exists|result: Result<SchemaModel, Seq<FailureModel>>|
            {
                &&& #[trigger] load_outcome(
                    EMBEDDED_MSGS@,
                    *find,
                    *parse,
                    full_name@,
                    seq![],
                    old(registry)@,
                    result,
                    final(registry)@,
                )
                &&& schema.deep_view() == result.ok()
            },
{
    proof {
        law_embedded_table_is_sorted();
    }
    match load_schema_from(&EMBEDDED_MSGS, full_name, registry, find, parse) {
        Ok(schema) => Some(schema),
        Err(_) => None,
    }
}

/// A registered schema is returned as it is: nothing is read or registered.
pub proof fn law_registered_schema_is_returned(
    table: MsgTable,
    log: Seq<Event>,
    full_name: Seq<char>,
    in_progress: Seq<Seq<char>>,
    schemas: Map<Seq<char>, SchemaModel>,
)
    requires
        schemas.contains_key(full_name),
    ensures
        load(table, log, full_name, in_progress, schemas) == Some(
            (Loaded { schema: Ok(schemas[full_name]), schemas, rest: log }),
        ),
{
}

/// Nothing is looked for under a name that is none of a message type.
pub proof fn law_other_names_are_not_looked_for(
    table: MsgTable,
    log: Seq<Event>,
    full_name: Seq<char>,
    in_progress: Seq<Seq<char>>,
    schemas: Map<Seq<char>, SchemaModel>,
)
    requires
        !schemas.contains_key(full_name),
        msg_type_parts(full_name) is None,
    ensures
        load(table, log, full_name, in_progress, schemas) == Some(
            failed(FailureModel::NotAMessage(full_name), schemas, log),
        ),
{
}

/// A definition on disk counts, whether or not there is a built-in one: it is the one that
/// is read. If it cannot be read, the load fails: the built-in definition does not take
/// its place.
pub proof fn law_disk_comes_before_built_in(
    table: MsgTable,
    log: Seq<Event>,
    full_name: Seq<char>,
    in_progress: Seq<Seq<char>>,
    schemas: Map<Seq<char>, SchemaModel>,
    package: Seq<char>,
    name: Seq<char>,
    path: Seq<Seq<char>>,
)
    requires
        !schemas.contains_key(full_name),
        !in_progress.contains(full_name),
        msg_type_parts(full_name) == Some((package, name)),
        found_file(log, package, name) == Some(Some(path)),
        load(table, log, full_name, in_progress, schemas) is Some,
    ensures
        ({
            let read = read_definition(log.skip(1), SourceModel::File(path), package, name);
            &&& read is Some
            &&& read->0 matches Err(reason) ==> load(table, log, full_name, in_progress, schemas)
                == Some(
                failed(
                    FailureModel::Unreadable {
                        full_name,
                        source: SourceModel::File(path),
                        reason,
                    },
                    schemas,
                    log.skip(2),
                ),
            )
        }),
{
}

/// Without a definition on disk, the built-in one is read.
pub proof fn law_built_in_comes_after_disk(
    table: MsgTable,
    log: Seq<Event>,
    full_name: Seq<char>,
    in_progress: Seq<Seq<char>>,
    schemas: Map<Seq<char>, SchemaModel>,
    package: Seq<char>,
    name: Seq<char>,
    text: Seq<char>,
)
    requires
        !schemas.contains_key(full_name),
        !in_progress.contains(full_name),
        msg_type_parts(full_name) == Some((package, name)),
        found_file(log, package, name) == Some(None::<Seq<Seq<char>>>),
        msg_text(table, package, name) == Some(text),
        load(table, log, full_name, in_progress, schemas) is Some,
    ensures
        read_definition(log.skip(1), SourceModel::Embedded(text), package, name) is Some,
{
}

/// Without a definition on disk or built in, nothing is found and nothing changes.
pub proof fn law_unknown_message_is_not_found(
    table: MsgTable,
    log: Seq<Event>,
    full_name: Seq<char>,
    in_progress: Seq<Seq<char>>,
    schemas: Map<Seq<char>, SchemaModel>,
    package: Seq<char>,
    name: Seq<char>,
)
    requires
        !schemas.contains_key(full_name),
        msg_type_parts(full_name) == Some((package, name)),
        found_file(log, package, name) == Some(None::<Seq<Seq<char>>>),
        msg_text(table, package, name) is None,
    ensures
        load(table, log, full_name, in_progress, schemas) == Some(
            failed(FailureModel::NotFound(full_name), schemas, log.skip(1)),
        ),
{
}

/// A type that is met again while it is being loaded is not found, and nothing changes.
pub proof fn law_cycle_is_not_entered_twice(
    table: MsgTable,
    log: Seq<Event>,
    full_name: Seq<char>,
    in_progress: Seq<Seq<char>>,
    schemas: Map<Seq<char>, SchemaModel>,
)
    requires
        !schemas.contains_key(full_name),
        in_progress.contains(full_name),
        load(table, log, full_name, in_progress, schemas) is Some,
    ensures
        ({
            let loaded = load(table, log, full_name, in_progress, schemas)->0;
            &&& loaded.schemas == schemas
            &&& loaded.schema is Err
            &&& msg_type_parts(full_name) matches Some((package, name)) ==> (source_of(
                found_file(log, package, name)->0,
                msg_text(table, package, name),
            ) is Some ==> loaded.schema->Err_0 == seq![FailureModel::Cyclic(full_name)])
        }),
{
}

/// Whether two calls ask the same.
pub open spec fn same_question(a: Event, b: Event) -> bool {
    match (a, b) {
        (
            Event::Find { package, name, file },
            Event::Find { package: p, name: n, file: f },
        ) => package == p && name == n,
        (
            Event::Parse { source, package, name, definition },
            Event::Parse { source: s, package: p, name: n, definition: d },
        ) => source == s && package == p && name == n,
        _ => false,
    }
}

/// Whether `find` and `parse` give the same answer to the same question each time.
pub open spec fn steady<
    F: Fn(&str, &str) -> Option<MsgPath>,
    P: Fn(&MsgSource, &str, &str) -> Result<ParsedMessage, String>,
>(find: F, parse: P) -> bool {
    forall|a: Event, b: Event| #[trigger]
        genuine(find, parse, a) && #[trigger] genuine(find, parse, b) && same_question(a, b)
            ==> a == b
}

/// Whether the same question has the same answer in both logs.
spec fn agree(a: Seq<Event>, b: Seq<Event>) -> bool {
    forall|i: int, j: int|
        0 <= i < a.len() && 0 <= j < b.len() && same_question(a[i], b[j]) ==> (#[trigger] a[i])
            == (#[trigger] b[j])
}

/// As long as the definitions that can be had do not change, loading a type can come to one
/// thing only.
pub proof fn law_load_is_determined<
    F: Fn(&str, &str) -> Option<MsgPath>,
    P: Fn(&MsgSource, &str, &str) -> Result<ParsedMessage, String>,
>(
    table: MsgTable,
    find: F,
    parse: P,
    a: Seq<Event>,
    b: Seq<Event>,
    full_name: Seq<char>,
    in_progress: Seq<Seq<char>>,
    schemas: Map<Seq<char>, SchemaModel>,
)
    requires
        steady(find, parse),
        genuine_log(find, parse, a),
        genuine_log(find, parse, b),
        load(table, a, full_name, in_progress, schemas) is Some,
        load(table, b, full_name, in_progress, schemas) is Some,
    ensures
        ({
            let x = load(table, a, full_name, in_progress, schemas)->0;
            let y = load(table, b, full_name, in_progress, schemas)->0;
            x.schema == y.schema && x.schemas == y.schemas
        }),
{
    assert forall|i: int, j: int|
        0 <= i < a.len() && 0 <= j < b.len() && same_question(a[i], b[j]) implies (#[trigger] a[i])
        == (#[trigger] b[j]) by {
        assert(genuine(find, parse, a[i]));
        assert(genuine(find, parse, b[j]));
    }
    lemma_agreeing_logs(table, a, b, full_name, in_progress, schemas);
}

/// A load by logs that agree comes to the same.
proof fn lemma_agreeing_logs(
    table: MsgTable,
    a: Seq<Event>,
    b: Seq<Event>,
    full_name: Seq<char>,
    in_progress: Seq<Seq<char>>,
    schemas: Map<Seq<char>, SchemaModel>,
)
    requires
        agree(a, b),
        load(table, a, full_name, in_progress, schemas) is Some,
        load(table, b, full_name, in_progress, schemas) is Some,
    ensures
        ({
            let x = load(table, a, full_name, in_progress, schemas)->0;
            let y = load(table, b, full_name, in_progress, schemas)->0;
            x.schema == y.schema && x.schemas == y.schemas
        }),
    decreases a.len(), 0nat,
{
    if !schemas.contains_key(full_name) && msg_type_parts(full_name) is Some {
        let (package, name) = msg_type_parts(full_name)->0;
        assert(same_question(a[0], b[0]));
        assert(a[0] == b[0]);
        let on_disk = found_file(a, package, name)->0;
        let source = source_of(on_disk, msg_text(table, package, name));
        if source is Some && !in_progress.contains(full_name) {
            assert(a.skip(1)[0] == a[1]);
            assert(b.skip(1)[0] == b[1]);
            assert(same_question(a[1], b[1]));
            assert(a[1] == b[1]);
            match read_definition(a.skip(1), source->0, package, name)->0 {
                Ok(msg) => {
                    let stack = in_progress.push(full_name);
                    if load_fields(table, a.skip(2), msg.fields, package, stack, schemas) is Some
                        && load_fields(table, b.skip(2), msg.fields, package, stack, schemas) is Some {
                        lemma_agreeing_logs_of_fields(
                            table,
                            a.skip(2),
                            b.skip(2),
                            msg.fields,
                            package,
                            stack,
                            schemas,
                        );
                    }
                },
                Err(reason) => {},
            }
        }
    }
}

/// The same of the fields of a message.
proof fn lemma_agreeing_logs_of_fields(
    table: MsgTable,
    a: Seq<Event>,
    b: Seq<Event>,
    fields: Seq<FieldDef>,
    package: Seq<char>,
    in_progress: Seq<Seq<char>>,
    schemas: Map<Seq<char>, SchemaModel>,
)
    requires
        agree(a, b),
        load_fields(table, a, fields, package, in_progress, schemas) is Some,
        load_fields(table, b, fields, package, in_progress, schemas) is Some,
    ensures
        ({
            let x = load_fields(table, a, fields, package, in_progress, schemas)->0;
            let y = load_fields(table, b, fields, package, in_progress, schemas)->0;
            x.fields == y.fields && x.schemas == y.schemas
        }),
    decreases a.len(), fields.len() + 1,
{
    if fields.len() > 0 {
        let init = fields.drop_last();
        lemma_agreeing_logs_of_fields(table, a, b, init, package, in_progress, schemas);
        lemma_rest_of_log_of_fields(table, a, init, package, in_progress, schemas);
        lemma_rest_of_log_of_fields(table, b, init, package, in_progress, schemas);
        let x = load_fields(table, a, init, package, in_progress, schemas)->0;
        let y = load_fields(table, b, init, package, in_progress, schemas)->0;
        let nested = nested_name(fields.last(), package);
        if x.fields is Ok && declared_type(fields.last()) is None {
            assert(load_nested(table, x.rest, nested, in_progress, x.schemas) is Some);
            assert(load_nested(table, y.rest, nested, in_progress, x.schemas) is Some);
            if names_a_message(nested) {
                lemma_agreeing_logs(table, x.rest, y.rest, nested, in_progress, x.schemas);
            }
        }
    }
}

/// A load keeps every schema under its own name, loses no name, and a schema that it finds
/// is registered under its name.
pub proof fn law_loaded_schema_is_registered(
    table: MsgTable,
    log: Seq<Event>,
    full_name: Seq<char>,
    in_progress: Seq<Seq<char>>,
    schemas: Map<Seq<char>, SchemaModel>,
)
    requires
        keyed_by_name(schemas),
        load(table, log, full_name, in_progress, schemas) is Some,
    ensures
        ({
            let loaded = load(table, log, full_name, in_progress, schemas)->0;
            &&& keyed_by_name(loaded.schemas)
            &&& schemas.dom().subset_of(loaded.schemas.dom())
            &&& loaded.schema is Ok ==> known(loaded.schemas, loaded.schema->Ok_0.full_name)
                == Some(loaded.schema->Ok_0)
        }),
    decreases log.len(), 0nat,
{
    if log.len() > 1 {
        match log[1] {
            Event::Parse { source, package, name, definition: Ok(msg) } => {
                let stack = in_progress.push(full_name);
                if load_fields(table, log.skip(2), msg.fields, package, stack, schemas) is Some {
                    lemma_fields_keep_names(
                        table,
                        log.skip(2),
                        msg.fields,
                        package,
                        stack,
                        schemas,
                    );
                }
            },
            _ => {},
        }
    }
}

/// The same of the fields of a message.
proof fn lemma_fields_keep_names(
    table: MsgTable,
    log: Seq<Event>,
    fields: Seq<FieldDef>,
    package: Seq<char>,
    in_progress: Seq<Seq<char>>,
    schemas: Map<Seq<char>, SchemaModel>,
)
    requires
        keyed_by_name(schemas),
        load_fields(table, log, fields, package, in_progress, schemas) is Some,
    ensures
        ({
            let loaded = load_fields(table, log, fields, package, in_progress, schemas)->0;
            &&& keyed_by_name(loaded.schemas)
            &&& schemas.dom().subset_of(loaded.schemas.dom())
        }),
    decreases log.len(), fields.len() + 1,
{
    if fields.len() > 0 {
        let init = fields.drop_last();
        lemma_fields_keep_names(table, log, init, package, in_progress, schemas);
        let before = load_fields(table, log, init, package, in_progress, schemas)->0;
        let nested = nested_name(fields.last(), package);
        if before.fields is Ok && declared_type(fields.last()) is None {
            assert(load_nested(table, before.rest, nested, in_progress, before.schemas) is Some);
            if names_a_message(nested) {
                law_loaded_schema_is_registered(
                    table,
                    before.rest,
                    nested,
                    in_progress,
                    before.schemas,
                );
            }
        }
    }
}

/// Whether every definition in the log says of a message what was asked for: a message of
/// that package and that name.
pub open spec fn faithful(log: Seq<Event>) -> bool {
    forall|i: int|
        0 <= i < log.len() ==> ((#[trigger] log[i]) matches Event::Parse {
            source,
            package,
            name,
            definition: Ok(msg),
        } ==> msg.package == package && msg.name == name)
}

/// The canonical name of a message type that may be written in short.
pub open spec fn message_name(full_name: Seq<char>) -> Seq<char> {
    match msg_type_parts(full_name) {
        Some((package, name)) => ros_name(package, "msg"@, name),
        None => full_name,
    }
}

/// Whether the field at `i` of a message in `package` holds one of the messages.
pub open spec fn holds_one_of(
    fields: Seq<FieldDef>,
    package: Seq<char>,
    messages: Set<Seq<char>>,
    i: int,
) -> bool {
    &&& 0 <= i < fields.len()
    &&& declared_type(fields[i]) is None
    &&& messages.contains(nested_name(fields[i], package))
}

/// Whether every definition of one of the messages that is in the log has a field with one
/// of them, so that each leads back into the set: the messages of a cycle are such a set.
pub open spec fn cyclic(log: Seq<Event>, messages: Set<Seq<char>>) -> bool {
    forall|i: int| 0 <= i < log.len() ==> leads_back(#[trigger] log[i], messages)
}

/// Whether the event, if it reads the definition of one of the messages, gives one with a
/// field that holds one of them.
pub open spec fn leads_back(event: Event, messages: Set<Seq<char>>) -> bool {
    event matches Event::Parse { source, package, name, definition: Ok(msg) } ==> (
    messages.contains(ros_name(package, "msg"@, name)) ==> exists|i: int| #[trigger]
        holds_one_of(msg.fields, package, messages, i))
}

/// Whether none of the messages is registered.
pub open spec fn unregistered(
    messages: Set<Seq<char>>,
    schemas: Map<Seq<char>, SchemaModel>,
) -> bool {
    forall|name: Seq<char>| #[trigger] messages.contains(name) ==> !schemas.contains_key(name)
}

/// Messages that contain one another in a cycle are never loaded: a load of one of them
/// fails, and no load of any other type registers one of them.
pub proof fn law_cyclic_messages_are_not_loaded(
    table: MsgTable,
    log: Seq<Event>,
    messages: Set<Seq<char>>,
    full_name: Seq<char>,
    in_progress: Seq<Seq<char>>,
    schemas: Map<Seq<char>, SchemaModel>,
)
    requires
        faithful(log),
        cyclic(log, messages),
        unregistered(messages, schemas),
        load(table, log, full_name, in_progress, schemas) is Some,
    ensures
        ({
            let loaded = load(table, log, full_name, in_progress, schemas)->0;
            &&& unregistered(messages, loaded.schemas)
            &&& messages.contains(message_name(full_name)) && !schemas.contains_key(full_name)
                ==> loaded.schema is Err
        }),
    decreases log.len(), 0nat,
{
    if log.len() > 1 {
        let end = log.skip(2);
        assert(log.skip(1)[0] == log[1]);
        match log[1] {
            Event::Parse { source, package, name, definition: Ok(msg) } => {
                let stack = in_progress.push(full_name);
                if load_fields(table, end, msg.fields, package, stack, schemas) is Some {
                    assert(leads_back(log[1], messages));
                    lemma_cyclic_fields(table, end, messages, msg.fields, package, stack, schemas);
                }
            },
            _ => {},
        }
    }
}

/// Fields that hold one of the messages of a cycle cannot be loaded, and no field registers
/// one of them.
proof fn lemma_cyclic_fields(
    table: MsgTable,
    log: Seq<Event>,
    messages: Set<Seq<char>>,
    fields: Seq<FieldDef>,
    package: Seq<char>,
    in_progress: Seq<Seq<char>>,
    schemas: Map<Seq<char>, SchemaModel>,
)
    requires
        faithful(log),
        cyclic(log, messages),
        unregistered(messages, schemas),
        load_fields(table, log, fields, package, in_progress, schemas) is Some,
    ensures
        ({
            let loaded = load_fields(table, log, fields, package, in_progress, schemas)->0;
            &&& unregistered(messages, loaded.schemas)
            &&& (exists|i: int| #[trigger] holds_one_of(fields, package, messages, i))
                ==> loaded.fields is Err
        }),
    decreases log.len(), fields.len() + 1,
{
    if fields.len() > 0 {
        let init = fields.drop_last();
        lemma_cyclic_fields(table, log, messages, init, package, in_progress, schemas);
        lemma_rest_of_log_of_fields(table, log, init, package, in_progress, schemas);
        let before = load_fields(table, log, init, package, in_progress, schemas)->0;
        let nested = nested_name(fields.last(), package);
        if before.fields is Ok && declared_type(fields.last()) is None {
            assert(load_nested(table, before.rest, nested, in_progress, before.schemas) is Some);
            if names_a_message(nested) {
                let (p, kind, n) = canonical_parts(nested)->0;
                law_join_of_split_canonical(nested);
                law_shorthand_names_the_message(p, n);
                assert(message_name(nested) == nested);
                law_cyclic_messages_are_not_loaded(
                    table,
                    before.rest,
                    messages,
                    nested,
                    in_progress,
                    before.schemas,
                );
            }
        }
        assert forall|i: int| #[trigger] holds_one_of(fields, package, messages, i) && i
            < fields.len() - 1 implies holds_one_of(init, package, messages, i) by {}
    }
}

/// What a load inside of the types in progress may find, at one point of the log or
/// another.
pub open spec fn nested_answers(table: MsgTable,
    log: Seq<Event>, in_progress: Seq<Seq<char>>) -> Answers {
    |name: Seq<char>, reply: Option<SchemaModel>|
        exists|rest: Seq<Event>, schemas: Map<Seq<char>, SchemaModel>|
            {
                &&& is_end_of(rest, log)
                &&& (#[trigger] load_nested(table, rest, name, in_progress, schemas)) is Some
                &&& load_nested(table, rest, name, in_progress, schemas)->0.schema.ok() == reply
            }
}

/// Loading converts: the fields of a loaded message are those that a conversion of its
/// definition gives when nested loads answer for its message types, and where the load
/// fails, so does the conversion.
pub proof fn law_loading_converts_the_definition(
    table: MsgTable,
    log: Seq<Event>,
    fields: Seq<FieldDef>,
    package: Seq<char>,
    in_progress: Seq<Seq<char>>,
    schemas: Map<Seq<char>, SchemaModel>,
)
    requires
        load_fields(table, log, fields, package, in_progress, schemas) is Some,
    ensures
        ({
            let may_answer = nested_answers(table, log, in_progress);
            match load_fields(table, log, fields, package, in_progress, schemas)->0.fields {
                Ok(converted) => fields_outcome(
                    may_answer,
                    no_hints(),
                    fields,
                    package,
                    Ok(converted),
                ),
                Err((causes, error)) => fields_outcome(
                    may_answer,
                    no_hints(),
                    fields,
                    package,
                    Err(error),
                ),
            }
        }),
    decreases fields.len(),
{
    let may_answer = nested_answers(table, log, in_progress);
    if fields.len() > 0 {
        let init = fields.drop_last();
        let last = fields.last();
        law_loading_converts_the_definition(table, log, init, package, in_progress, schemas);
        lemma_rest_of_log_of_fields(table, log, init, package, in_progress, schemas);
        let before = load_fields(table, log, init, package, in_progress, schemas)->0;
        let loaded = load_fields(table, log, fields, package, in_progress, schemas)->0;
        match before.fields {
            Err((causes, error)) => {
                let i = choose|i: int| #[trigger]
                    fails_at(may_answer, no_hints(), init, package, error, i);
                assert(fields[i] == init[i]);
                assert forall|j: int| 0 <= j < i implies convertible(
                    may_answer,
                    no_hints(),
                    #[trigger] fields[j],
                    package,
                ) by {
                    assert(fields[j] == init[j]);
                }
                assert(fails_at(may_answer, no_hints(), fields, package, error, i));
                assert(fields_outcome(may_answer, no_hints(), fields, package, Err(error)));
            },
            Ok(converted) => {
                lemma_last_field(
                    table,
                    log,
                    before.rest,
                    last,
                    package,
                    in_progress,
                    before.schemas,
                );
                assert forall|j: int| 0 <= j < init.len() implies field_outcome(
                    may_answer,
                    no_hints(),
                    #[trigger] fields[j],
                    package,
                    Ok(converted[j]),
                ) by {
                    assert(fields[j] == init[j]);
                }
                match loaded.fields {
                    Ok(all) => {
                        assert(fields_outcome(may_answer, no_hints(), fields, package, Ok(all)));
                    },
                    Err((causes, error)) => {
                        assert(fails_at(
                            may_answer,
                            no_hints(),
                            fields,
                            package,
                            error,
                            fields.len() - 1,
                        ));
                        assert(fields_outcome(
                            may_answer,
                            no_hints(),
                            fields,
                            package,
                            Err(error),
                        ));
                    },
                }
            },
        }
    }
}

/// The outcome of converting one field when nested loads answer.
proof fn lemma_last_field(
    table: MsgTable,
    log: Seq<Event>,
    rest: Seq<Event>,
    field: FieldDef,
    package: Seq<char>,
    in_progress: Seq<Seq<char>>,
    schemas: Map<Seq<char>, SchemaModel>,
)
    requires
        is_end_of(rest, log),
    ensures
        ({
            let may_answer = nested_answers(table, log, in_progress);
            let nested = load_nested(table, rest, nested_name(field, package), in_progress, schemas);
            match declared_type(field) {
                Some(item) => field_outcome(
                    may_answer,
                    no_hints(),
                    field,
                    package,
                    Ok(converted_field(field, item)),
                ),
                None => nested is Some ==> field_outcome(
                    may_answer,
                    no_hints(),
                    field,
                    package,
                    match nested->0.schema {
                        Ok(schema) => Ok(
                            converted_field(field, TypeModel::Message(Box::new(schema))),
                        ),
                        Err(causes) => Err(
                            ErrorModel::SchemaNotFound(nested_name(field, package)),
                        ),
                    },
                ),
            }
        }),
{
    let may_answer = nested_answers(table, log, in_progress);
    let name = nested_name(field, package);
    let nested = load_nested(table, rest, name, in_progress, schemas);
    let hint: Option<Seq<char>> = None;
    assert(no_hints()(field.name, hint));
    match declared_type(field) {
        Some(item) => {
            assert(item_outcome(may_answer, field, package, hint, Ok(item)));
        },
        None => {
            if nested is Some {
                assert(may_answer(name, nested->0.schema.ok()));
                match nested->0.schema {
                    Ok(schema) => {
                        let item = TypeModel::Message(Box::new(schema));
                        assert(item_outcome(may_answer, field, package, hint, Ok(item)));
                    },
                    Err(causes) => {
                        assert(item_outcome(
                            may_answer,
                            field,
                            package,
                            hint,
                            Err(ErrorModel::SchemaNotFound(name)),
                        ));
                    },
                }
            }
        },
    }
}

/// The type of the items that a field holds.
pub open spec fn item_type(field_type: TypeModel) -> TypeModel {
    match field_type {
        TypeModel::Array(item, n) => *item,
        TypeModel::Sequence(item) => *item,
        TypeModel::BoundedSequence(item, n) => *item,
        _ => field_type,
    }
}

/// Whether every message that the fields hold is registered.
pub open spec fn nested_registered(
    fields: Seq<FieldModel>,
    schemas: Map<Seq<char>, SchemaModel>,
) -> bool {
    forall|i: int|
        0 <= i < fields.len() ==> (item_type((#[trigger] fields[i]).field_type) matches
            TypeModel::Message(nested) ==> known(schemas, nested.full_name) == Some(*nested))
}

/// Whether `after` holds all schemas of `before`.
pub open spec fn keeps_all(
    before: Map<Seq<char>, SchemaModel>,
    after: Map<Seq<char>, SchemaModel>,
) -> bool {
    forall|name: Seq<char>| #[trigger]
        before.contains_key(name) ==> after.contains_key(name) && after[name] == before[name]
}

/// Whether `after` holds all schemas of `before`, but perhaps another one under `name`.
pub open spec fn keeps_all_but(
    before: Map<Seq<char>, SchemaModel>,
    after: Map<Seq<char>, SchemaModel>,
    name: Seq<char>,
) -> bool {
    forall|other: Seq<char>| #[trigger]
        before.contains_key(other) && other != name ==> after.contains_key(other)
            && after[other] == before[other]
}

/// A load leaves every registered schema in its place, but for the schema of the type that
/// is loaded, and does not register a type that is in progress around it.
///
/// That one schema is replaced only if the type is asked for by its short name, stands
/// registered under its canonical name, and is loaded: a load that fails, and a load under
/// a canonical name, leave all in place.
pub proof fn law_registered_schemas_are_kept(
    table: MsgTable,
    log: Seq<Event>,
    full_name: Seq<char>,
    in_progress: Seq<Seq<char>>,
    schemas: Map<Seq<char>, SchemaModel>,
)
    requires
        faithful(log),
        load(table, log, full_name, in_progress, schemas) is Some,
    ensures
        ({
            let loaded = load(table, log, full_name, in_progress, schemas)->0;
            let own_name = message_name(full_name);
            &&& keeps_all_but(schemas, loaded.schemas, own_name)
            &&& loaded.schema is Err || names_a_message(full_name) || schemas.contains_key(
                full_name,
            ) ==> keeps_all(schemas, loaded.schemas)
            &&& forall|pending: Seq<char>| #[trigger]
                in_progress.contains(pending) && !schemas.contains_key(pending) && (pending
                    != own_name || names_a_message(full_name)) ==> !loaded.schemas.contains_key(
                    pending,
                )
        }),
    decreases log.len(), 0nat,
{
    if names_a_message(full_name) {
        lemma_canonical_message_name(full_name);
    }
    if log.len() > 1 {
        let end = log.skip(2);
        assert(log.skip(1)[0] == log[1]);
        match log[1] {
            Event::Parse { source, package, name, definition: Ok(msg) } => {
                let stack = in_progress.push(full_name);
                if load_fields(table, end, msg.fields, package, stack, schemas) is Some {
                    lemma_fields_keep_schemas(table, end, msg.fields, package, stack, schemas);
                    assert forall|pending: Seq<char>| #[trigger]
                        in_progress.contains(pending) implies stack.contains(pending) by {
                        let i = choose|i: int|
                            0 <= i < in_progress.len() && in_progress[i] == pending;
                        assert(stack[i] == pending);
                    }
                }
            },
            _ => {},
        }
    }
}

/// The canonical name of a message type is its own canonical name.
proof fn lemma_canonical_message_name(full_name: Seq<char>)
    requires
        names_a_message(full_name),
    ensures
        message_name(full_name) == full_name,
        msg_type_parts(full_name) is Some,
{
    let (package, kind, name) = canonical_parts(full_name)->0;
    law_join_of_split_canonical(full_name);
    law_shorthand_names_the_message(package, name);
}

/// The same of the fields of a message.
proof fn lemma_fields_keep_schemas(
    table: MsgTable,
    log: Seq<Event>,
    fields: Seq<FieldDef>,
    package: Seq<char>,
    in_progress: Seq<Seq<char>>,
    schemas: Map<Seq<char>, SchemaModel>,
)
    requires
        faithful(log),
        load_fields(table, log, fields, package, in_progress, schemas) is Some,
    ensures
        ({
            let after = load_fields(table, log, fields, package, in_progress, schemas)->0.schemas;
            &&& keeps_all(schemas, after)
            &&& forall|pending: Seq<char>| #[trigger]
                in_progress.contains(pending) && !schemas.contains_key(pending)
                    ==> !after.contains_key(pending)
        }),
    decreases log.len(), fields.len() + 1,
{
    if fields.len() > 0 {
        let init = fields.drop_last();
        lemma_fields_keep_schemas(table, log, init, package, in_progress, schemas);
        lemma_rest_of_log_of_fields(table, log, init, package, in_progress, schemas);
        let before = load_fields(table, log, init, package, in_progress, schemas)->0;
        let nested = nested_name(fields.last(), package);
        if before.fields is Ok && declared_type(fields.last()) is None {
            assert(load_nested(table, before.rest, nested, in_progress, before.schemas) is Some);
            if names_a_message(nested) {
                law_registered_schemas_are_kept(
                    table,
                    before.rest,
                    nested,
                    in_progress,
                    before.schemas,
                );
            }
        }
    }
}

/// The messages in the fields of a loaded message are registered.
proof fn lemma_fields_are_registered(
    table: MsgTable,
    log: Seq<Event>,
    fields: Seq<FieldDef>,
    package: Seq<char>,
    in_progress: Seq<Seq<char>>,
    schemas: Map<Seq<char>, SchemaModel>,
)
    requires
        faithful(log),
        keyed_by_name(schemas),
        load_fields(table, log, fields, package, in_progress, schemas) is Some,
    ensures
        ({
            let loaded = load_fields(table, log, fields, package, in_progress, schemas)->0;
            loaded.fields is Ok ==> nested_registered(loaded.fields->Ok_0, loaded.schemas)
        }),
    decreases fields.len(),
{
    if fields.len() > 0 {
        let init = fields.drop_last();
        let field = fields.last();
        lemma_fields_are_registered(table, log, init, package, in_progress, schemas);
        lemma_fields_keep_names(table, log, init, package, in_progress, schemas);
        lemma_rest_of_log_of_fields(table, log, init, package, in_progress, schemas);
        let before = load_fields(table, log, init, package, in_progress, schemas)->0;
        let loaded = load_fields(table, log, fields, package, in_progress, schemas)->0;
        let nested = nested_name(field, package);
        if before.fields is Ok {
            match declared_type(field) {
                Some(item) => {
                    assert(item_type(collected(field.array, item)) == item);
                },
                None => {
                    assert(load_nested(
                        table,
                        before.rest,
                        nested,
                        in_progress,
                        before.schemas,
                    ) is Some);
                    if names_a_message(nested) {
                        law_registered_schemas_are_kept(
                            table,
                            before.rest,
                            nested,
                            in_progress,
                            before.schemas,
                        );
                        law_loaded_schema_is_registered(
                            table,
                            before.rest,
                            nested,
                            in_progress,
                            before.schemas,
                        );
                    }
                },
            }
            if loaded.fields is Ok {
                let all = loaded.fields->Ok_0;
                assert forall|i: int| 0 <= i < all.len() implies (item_type(
                    (#[trigger] all[i]).field_type,
                ) matches TypeModel::Message(nested) ==> known(
                    loaded.schemas,
                    nested.full_name,
                ) == Some(*nested)) by {
                    if i < before.fields->Ok_0.len() {
                        assert(all[i] == before.fields->Ok_0[i]);
                    }
                }
            }
        }
    }
}

/// Whether every message that the fields hold is registered, but perhaps one of the given
/// name.
pub open spec fn nested_registered_but(
    fields: Seq<FieldModel>,
    schemas: Map<Seq<char>, SchemaModel>,
    name: Seq<char>,
) -> bool {
    forall|i: int|
        0 <= i < fields.len() ==> (item_type((#[trigger] fields[i]).field_type) matches
            TypeModel::Message(nested) ==> nested.full_name != name ==> known(
            schemas,
            nested.full_name,
        ) == Some(*nested))
}

/// When a message is loaded, it is registered under its canonical name, whether it was asked
/// for by that name or by the short one, and the messages that its fields hold are
/// registered with it.
///
/// A message that is asked for by its short name can hold one of its own name, which stood
/// registered under the canonical name: the loaded schema takes the place of that one.
pub proof fn law_nested_schemas_are_registered(
    table: MsgTable,
    log: Seq<Event>,
    full_name: Seq<char>,
    in_progress: Seq<Seq<char>>,
    schemas: Map<Seq<char>, SchemaModel>,
)
    requires
        faithful(log),
        keyed_by_name(schemas),
        !schemas.contains_key(full_name),
        load(table, log, full_name, in_progress, schemas) is Some,
    ensures
        ({
            let loaded = load(table, log, full_name, in_progress, schemas)->0;
            loaded.schema matches Ok(schema) ==> {
                &&& schema.full_name == message_name(full_name)
                &&& known(loaded.schemas, message_name(full_name)) == Some(schema)
                &&& nested_registered_but(schema.fields, loaded.schemas, schema.full_name)
                &&& names_a_message(full_name) ==> nested_registered(
                    schema.fields,
                    loaded.schemas,
                )
            }
        }),
{
    let loaded = load(table, log, full_name, in_progress, schemas)->0;
    if loaded.schema is Ok {
        let (package, name) = msg_type_parts(full_name)->0;
        let end = log.skip(2);
        assert(log.skip(1)[0] == log[1]);
        let msg = log[1]->definition->Ok_0;
        let stack = in_progress.push(full_name);
        let inner = load_fields(table, end, msg.fields, package, stack, schemas)->0;
        lemma_fields_are_registered(table, end, msg.fields, package, stack, schemas);
        if names_a_message(full_name) {
            lemma_canonical_message_name(full_name);
            lemma_fields_keep_schemas(table, end, msg.fields, package, stack, schemas);
            assert(stack[in_progress.len() as int] == full_name);
            assert(stack.contains(full_name));
            assert(!inner.schemas.contains_key(full_name));
        }
    }
}

/// Whether the failures make a chain: each after the first is of a message that holds the
/// one before.
pub open spec fn chained(failures: Seq<FailureModel>) -> bool {
    forall|i: int|
        0 < i < failures.len() ==> ((#[trigger] failures[i]) matches FailureModel::Unbuildable {
            full_name,
            error,
        } && error == ErrorModel::SchemaNotFound(failed_name(failures[i - 1])))
}

/// A failed load says why: the last failure is that of the type itself, each other one is
/// that of the nested message that the next one misses, and a definition that was found is
/// never reported as not found.
pub proof fn law_failures_explain_the_load(
    table: MsgTable,
    log: Seq<Event>,
    full_name: Seq<char>,
    in_progress: Seq<Seq<char>>,
    schemas: Map<Seq<char>, SchemaModel>,
)
    requires
        load(table, log, full_name, in_progress, schemas) is Some,
    ensures
        load(table, log, full_name, in_progress, schemas)->0.schema matches Err(failures) ==> {
            &&& failures.len() > 0
            &&& failed_name(failures.last()) == full_name
            &&& chained(failures)
            &&& failures.last() is NotFound ==> {
                &&& msg_type_parts(full_name) is Some
                &&& ({
                    let (package, name) = msg_type_parts(full_name)->0;
                    &&& found_file(log, package, name) == Some(None::<Seq<Seq<char>>>)
                    &&& msg_text(table, package, name) is None
                })
            }
        },
    decreases log.len(), 0nat,
{
    if log.len() > 1 {
        let end = log.skip(2);
        match log[1] {
            Event::Parse { source, package, name, definition: Ok(msg) } => {
                let stack = in_progress.push(full_name);
                if load_fields(table, end, msg.fields, package, stack, schemas) is Some {
                    lemma_failures_of_fields(table, end, msg.fields, package, stack, schemas);
                }
            },
            _ => {},
        }
    }
}

/// The failures of fields make a chain that ends with the message that is missing.
proof fn lemma_failures_of_fields(
    table: MsgTable,
    log: Seq<Event>,
    fields: Seq<FieldDef>,
    package: Seq<char>,
    in_progress: Seq<Seq<char>>,
    schemas: Map<Seq<char>, SchemaModel>,
)
    requires
        load_fields(table, log, fields, package, in_progress, schemas) is Some,
    ensures
        load_fields(table, log, fields, package, in_progress, schemas)->0.fields matches Err(
            (causes, error),
        ) ==> {
            &&& chained(causes)
            &&& error is SchemaNotFound
            &&& causes.len() > 0 ==> error == ErrorModel::SchemaNotFound(
                failed_name(causes.last()),
            )
        },
    decreases log.len(), fields.len() + 1,
{
    if fields.len() > 0 {
        let init = fields.drop_last();
        lemma_failures_of_fields(table, log, init, package, in_progress, schemas);
        let before = load_fields(table, log, init, package, in_progress, schemas)->0;
        let nested = nested_name(fields.last(), package);
        if before.fields is Ok && declared_type(fields.last()) is None {
            assert(load_nested(table, before.rest, nested, in_progress, before.schemas) is Some);
            if names_a_message(nested) {
                law_failures_explain_the_load(
                    table,
                    before.rest,
                    nested,
                    in_progress,
                    before.schemas,
                );
            }
        }
    }
}

/// The model of a source has what the source has.
pub proof fn law_source_model(path: MsgPath, text: &'static str)
    ensures
        MsgSource::File(path)@ == SourceModel::File(path@),
        MsgSource::Embedded(text)@ == SourceModel::Embedded(text@),
{
}

/// What a log says was answered is what `find` and `parse` answer: if all that they can
/// answer to a question is one thing, that is what the log has.
pub proof fn law_events_are_answers_of_the_caller<
    F: Fn(&str, &str) -> Option<MsgPath>,
    P: Fn(&MsgSource, &str, &str) -> Result<ParsedMessage, String>,
>(
    find: F,
    parse: P,
    event: Event,
    expected_file: Option<Seq<Seq<char>>>,
    expected_definition: Result<MessageDef, Seq<char>>,
)
    requires
        genuine(find, parse, event),
    ensures
        event matches Event::Find { package, name, file } ==> (forall|
            p: &str,
            n: &str,
            r: Option<MsgPath>,
        | #[trigger]
            call_ensures(find, (p, n), r) && p@ == package && n@ == name ==> match r {
                Some(path) => expected_file == Some(path@),
                None => expected_file is None,
            }) ==> file == expected_file,
        event matches Event::Parse { source, package, name, definition } ==> (forall|
            s: &MsgSource,
            p: &str,
            n: &str,
            r: Result<ParsedMessage, String>,
        | #[trigger]
            call_ensures(parse, (s, p, n), r) && s@ == source && p@ == package && n@ == name
                ==> match r {
                Ok(msg) => expected_definition == Ok::<MessageDef, Seq<char>>(msg@),
                Err(reason) => expected_definition == Err::<MessageDef, Seq<char>>(reason@),
            }) ==> definition == expected_definition,
{
}

/// What a load gives is what its log comes to: with definitions that do not change, any log of
/// the answers that comes to something comes to the result of the load.
pub proof fn law_result_of_a_load_is_that_of_its_log<
    F: Fn(&str, &str) -> Option<MsgPath>,
    P: Fn(&MsgSource, &str, &str) -> Result<ParsedMessage, String>,
>(
    table: MsgTable,
    find: F,
    parse: P,
    log: Seq<Event>,
    full_name: Seq<char>,
    in_progress: Seq<Seq<char>>,
    before: Map<Seq<char>, SchemaModel>,
    result: Result<SchemaModel, Seq<FailureModel>>,
    after: Map<Seq<char>, SchemaModel>,
)
    requires
        steady(find, parse),
        forall|i: int| 0 <= i < log.len() ==> genuine(find, parse, #[trigger] log[i]),
        load(table, log, full_name, in_progress, before) is Some,
        load_outcome(table, find, parse, full_name, in_progress, before, result, after),
    ensures
        load(table, log, full_name, in_progress, before)->0.schema == result,
        load(table, log, full_name, in_progress, before)->0.schemas == after,
{
    let own = choose|own: Seq<Event>| #[trigger]
        explains(table, find, parse, full_name, in_progress, before, result, after, own);
    law_load_is_determined(table, find, parse, log, own, full_name, in_progress, before);
}

/// A load makes the calls of its course and no others: what it gives is what some log of
/// answers comes to with nothing left over.
pub proof fn law_a_load_makes_no_further_calls<
    F: Fn(&str, &str) -> Option<MsgPath>,
    P: Fn(&MsgSource, &str, &str) -> Result<ParsedMessage, String>,
>(
    table: MsgTable,
    find: F,
    parse: P,
    full_name: Seq<char>,
    in_progress: Seq<Seq<char>>,
    before: Map<Seq<char>, SchemaModel>,
    result: Result<SchemaModel, Seq<FailureModel>>,
    after: Map<Seq<char>, SchemaModel>,
) -> (log: Seq<Event>)
    requires
        load_outcome(table, find, parse, full_name, in_progress, before, result, after),
    ensures
        forall|i: int| 0 <= i < log.len() ==> genuine(find, parse, #[trigger] log[i]),
        load(table, log, full_name, in_progress, before) is Some,
        load(table, log, full_name, in_progress, before)->0.schema == result,
        load(table, log, full_name, in_progress, before)->0.schemas == after,
        load(table, log, full_name, in_progress, before)->0.rest.len() == 0,
{
    choose|log: Seq<Event>| #[trigger]
        explains(table, find, parse, full_name, in_progress, before, result, after, log)
}

/// The course of a load up to the reading of a definition. A registered schema needs no call,
/// and neither does a name that is none of a message type. Otherwise the file of the message
/// is looked for, by its package and name. Without a file and without a text in the table, or
/// with the type in progress, the load ends there. Else the definition is read from the file
/// or, if there is none, from the text, for the same package and name, and if it cannot be
/// read, the load ends with what is wrong with it. In all these cases nothing is registered.
pub proof fn law_course_of_a_load(
    table: MsgTable,
    log: Seq<Event>,
    full_name: Seq<char>,
    in_progress: Seq<Seq<char>>,
    schemas: Map<Seq<char>, SchemaModel>,
)
    requires
        load(table, log, full_name, in_progress, schemas) is Some,
    ensures
        ({
            let loaded = load(table, log, full_name, in_progress, schemas)->0;
            if schemas.contains_key(full_name) {
                &&& loaded.schema == Ok::<SchemaModel, Seq<FailureModel>>(schemas[full_name])
                &&& loaded.schemas == schemas
                &&& loaded.rest == log
            } else {
                match msg_type_parts(full_name) {
                    None => {
                        &&& loaded.schema == Err::<SchemaModel, Seq<FailureModel>>(
                            seq![FailureModel::NotAMessage(full_name)],
                        )
                        &&& loaded.schemas == schemas
                        &&& loaded.rest == log
                    },
                    Some((package, name)) => {
                        &&& log.len() > 0
                        &&& log[0] is Find
                        &&& log[0]->Find_package == package
                        &&& log[0]->Find_name == name
                        &&& log[0]->file is None && msg_text(table, package, name) is None ==> {
                            &&& loaded.schema == Err::<SchemaModel, Seq<FailureModel>>(
                                seq![FailureModel::NotFound(full_name)],
                            )
                            &&& loaded.schemas == schemas
                            &&& loaded.rest == log.skip(1)
                        }
                        &&& log[0]->file is Some || msg_text(table, package, name) is Some
                            ==> if in_progress.contains(full_name) {
                            &&& loaded.schema == Err::<SchemaModel, Seq<FailureModel>>(
                                seq![FailureModel::Cyclic(full_name)],
                            )
                            &&& loaded.schemas == schemas
                            &&& loaded.rest == log.skip(1)
                        } else {
                            &&& log.len() > 1
                            &&& log[1] is Parse
                            &&& log[1]->Parse_package == package
                            &&& log[1]->Parse_name == name
                            &&& log[0]->file matches Some(path) ==> log[1]->source
                                == SourceModel::File(path)
                            &&& log[0]->file is None ==> log[1]->source == SourceModel::Embedded(
                                msg_text(table, package, name)->0,
                            )
                            &&& log[1]->definition matches Err(words) ==> {
                                &&& loaded.schema is Err
                                &&& loaded.schema->Err_0.len() == 1
                                &&& loaded.schema->Err_0[0] is Unreadable
                                &&& loaded.schema->Err_0[0]->Unreadable_full_name == full_name
                                &&& loaded.schema->Err_0[0]->source == log[1]->source
                                &&& loaded.schema->Err_0[0]->reason == words
                                &&& loaded.schemas == schemas
                                &&& loaded.rest == log.skip(2)
                            }
                        }
                    },
                }
            }
        }),
{
    if log.len() > 1 {
        assert(log.skip(1)[0] == log[1]);
    }
}

/// A schema that a load builds is that of the definition it read: it has the name that the
/// definition gives itself, and one field for each of the definition, in the same order, with
/// the same name and with its type, converted as the nested loads answer.
pub proof fn law_loaded_schema_has_the_fields_of_the_definition(
    table: MsgTable,
    log: Seq<Event>,
    full_name: Seq<char>,
    in_progress: Seq<Seq<char>>,
    schemas: Map<Seq<char>, SchemaModel>,
)
    requires
        !schemas.contains_key(full_name),
        load(table, log, full_name, in_progress, schemas) is Some,
        load(table, log, full_name, in_progress, schemas)->0.schema is Ok,
    ensures
        log.len() > 1,
        log[1] is Parse,
        log[1]->definition is Ok,
        ({
            let schema = load(table, log, full_name, in_progress, schemas)->0.schema->Ok_0;
            let msg = log[1]->definition->Ok_0;
            let nested = nested_answers(table, log.skip(2), in_progress.push(full_name));
            &&& schema.full_name == msg.package + "/msg/"@ + msg.name
            &&& schema.package == msg.package
            &&& schema.name == msg.name
            &&& schema.type_hash is None
            &&& schema.fields.len() == msg.fields.len()
            &&& forall|i: int| #![trigger schema.fields[i]] #![trigger msg.fields[i]]
                0 <= i < msg.fields.len() ==> {
                    &&& schema.fields[i].name == msg.fields[i].name
                    &&& converts_to(
                        nested,
                        no_hints(),
                        msg.fields[i],
                        log[1]->Parse_package,
                        Ok(schema.fields[i].field_type),
                    )
                }
        }),
{
    law_course_of_a_load(table, log, full_name, in_progress, schemas);
    assert(log.skip(1)[0] == log[1]);
    let package = log[1]->Parse_package;
    let msg = log[1]->definition->Ok_0;
    let stack = in_progress.push(full_name);
    let schema = load(table, log, full_name, in_progress, schemas)->0.schema->Ok_0;
    let own_name = ros_name(msg.package, "msg"@, msg.name);
    let nested = nested_answers(table, log.skip(2), stack);
    reveal_strlit("/msg/");
    reveal_strlit("msg");
    assert(own_name =~= msg.package + "/msg/"@ + msg.name);
    law_slashes_spoil_a_name(msg.package, "msg"@, msg.name);
    law_split_canonical_of_join(msg.package, "msg"@, msg.name);
    law_loading_converts_the_definition(
        table,
        log.skip(2),
        msg.fields,
        package,
        stack,
        schemas,
    );
    assert(fields_outcome(nested, no_hints(), msg.fields, package, Ok(schema.fields)));
    assert forall|i: int| #![trigger schema.fields[i]] #![trigger msg.fields[i]]
        0 <= i < msg.fields.len() implies {
        &&& schema.fields[i].name == msg.fields[i].name
        &&& converts_to(
            nested,
            no_hints(),
            msg.fields[i],
            package,
            Ok(schema.fields[i].field_type),
        )
    } by {
        assert(field_outcome(nested, no_hints(), msg.fields[i], package, Ok(schema.fields[i])));
    }
}

/// A load whose definition was read fails only if the definition gives itself a name that is
/// none, or if one of its fields cannot be converted as the nested loads answer: the first
/// such field is what is wrong.
pub proof fn law_readable_definition_fails_by_its_name_or_a_field(
    table: MsgTable,
    log: Seq<Event>,
    full_name: Seq<char>,
    in_progress: Seq<Seq<char>>,
    schemas: Map<Seq<char>, SchemaModel>,
)
    requires
        !schemas.contains_key(full_name),
        !in_progress.contains(full_name),
        load(table, log, full_name, in_progress, schemas) is Some,
        load(table, log, full_name, in_progress, schemas)->0.schema is Err,
        msg_type_parts(full_name) is Some,
        log[0]->file is Some || msg_text(
            table,
            (msg_type_parts(full_name)->0).0,
            (msg_type_parts(full_name)->0).1,
        ) is Some,
        log[1]->definition is Ok,
    ensures
        ({
            let failures = load(table, log, full_name, in_progress, schemas)->0.schema->Err_0;
            let msg = log[1]->definition->Ok_0;
            let own_name = msg.package + "/msg/"@ + msg.name;
            let nested = nested_answers(table, log.skip(2), in_progress.push(full_name));
            let package = log[1]->Parse_package;
            &&& failures.len() > 0
            &&& failures.last() is Unbuildable
            &&& failures.last()->Unbuildable_full_name == full_name
            &&& if msg.package.contains('/') || msg.name.contains('/') {
                &&& failures.len() == 1
                &&& failures.last()->error == ErrorModel::InvalidTypeName(own_name)
            } else {
                exists|i: int| #[trigger]
                    stops_at(nested, no_hints(), msg.fields, package, failures.last()->error, i)
            }
        }),
{
    law_course_of_a_load(table, log, full_name, in_progress, schemas);
    assert(log.skip(1)[0] == log[1]);
    let package = log[1]->Parse_package;
    let msg = log[1]->definition->Ok_0;
    let stack = in_progress.push(full_name);
    let failures = load(table, log, full_name, in_progress, schemas)->0.schema->Err_0;
    let own_name = ros_name(msg.package, "msg"@, msg.name);
    let nested = nested_answers(table, log.skip(2), stack);
    reveal_strlit("/msg/");
    reveal_strlit("msg");
    assert(own_name =~= msg.package + "/msg/"@ + msg.name);
    law_slashes_spoil_a_name(msg.package, "msg"@, msg.name);
    if canonical_parts(own_name) is Some {
        law_split_canonical_of_join(msg.package, "msg"@, msg.name);
        law_loading_converts_the_definition(
            table,
            log.skip(2),
            msg.fields,
            package,
            stack,
            schemas,
        );
        let error = failures.last()->error;
        assert(fields_outcome(nested, no_hints(), msg.fields, package, Err(error)));
        lemma_first_failing_field(nested, msg, package, error);
    }
}

/// A load whose definition was read goes on with its fields, with the type in progress and
/// the rest of the log. The schema has the fields that come of this, and is added to what they
/// registered, under its name. If they fail, what they registered stays, and their failures
/// are followed by that of the type.
pub proof fn law_readable_definition_is_loaded_with_its_fields(
    table: MsgTable,
    log: Seq<Event>,
    full_name: Seq<char>,
    in_progress: Seq<Seq<char>>,
    schemas: Map<Seq<char>, SchemaModel>,
)
    requires
        !schemas.contains_key(full_name),
        !in_progress.contains(full_name),
        load(table, log, full_name, in_progress, schemas) is Some,
        msg_type_parts(full_name) is Some,
        log[0]->file is Some || msg_text(
            table,
            (msg_type_parts(full_name)->0).0,
            (msg_type_parts(full_name)->0).1,
        ) is Some,
        log[1]->definition is Ok,
        !log[1]->definition->Ok_0.package.contains('/'),
        !log[1]->definition->Ok_0.name.contains('/'),
    ensures
        ({
            let loaded = load(table, log, full_name, in_progress, schemas)->0;
            let msg = log[1]->definition->Ok_0;
            let inner = load_fields(
                table,
                log.skip(2),
                msg.fields,
                log[1]->Parse_package,
                in_progress.push(full_name),
                schemas,
            );
            &&& inner is Some
            &&& loaded.rest == inner->0.rest
            &&& match inner->0.fields {
                Ok(fields) => {
                    &&& loaded.schema is Ok
                    &&& loaded.schema->Ok_0.fields == fields
                    &&& loaded.schemas == inner->0.schemas.insert(
                        msg.package + "/msg/"@ + msg.name,
                        loaded.schema->Ok_0,
                    )
                },
                Err((causes, error)) => {
                    &&& loaded.schema is Err
                    &&& loaded.schema->Err_0.len() == causes.len() + 1
                    &&& loaded.schema->Err_0.take(causes.len() as int) == causes
                    &&& loaded.schema->Err_0.last() is Unbuildable
                    &&& loaded.schema->Err_0.last()->Unbuildable_full_name == full_name
                    &&& loaded.schema->Err_0.last()->error == error
                    &&& loaded.schemas == inner->0.schemas
                },
            }
        }),
{
    law_course_of_a_load(table, log, full_name, in_progress, schemas);
    assert(log.skip(1)[0] == log[1]);
    let msg = log[1]->definition->Ok_0;
    reveal_strlit("/msg/");
    reveal_strlit("msg");
    assert(ros_name(msg.package, "msg"@, msg.name) =~= msg.package + "/msg/"@ + msg.name);
    law_split_canonical_of_join(msg.package, "msg"@, msg.name);
    let loaded = load(table, log, full_name, in_progress, schemas)->0;
    if loaded.schema is Err {
        let failures = loaded.schema->Err_0;
        assert(failures.drop_last() =~= failures.take(failures.len() - 1));
    }
}

/// What stops the conversion of the fields is the first field that fails.
proof fn lemma_first_failing_field(
    may_answer: Answers,
    msg: MessageDef,
    package: Seq<char>,
    error: ErrorModel,
)
    requires
        fields_outcome(may_answer, no_hints(), msg.fields, package, Err(error)),
    ensures
        exists|i: int| #[trigger]
            stops_at(may_answer, no_hints(), msg.fields, package, error, i),
{
    let i = choose|i: int| #[trigger]
        fails_at(may_answer, no_hints(), msg.fields, package, error, i);
    assert(converts_to(may_answer, no_hints(), msg.fields[i], package, Err(error)));
    assert forall|j: int| 0 <= j < i implies may_convert(
        may_answer,
        no_hints(),
        #[trigger] msg.fields[j],
        package,
    ) by {
        assert(convertible(may_answer, no_hints(), msg.fields[j], package));
        let field = choose|field: FieldModel| #[trigger]
            field_outcome(may_answer, no_hints(), msg.fields[j], package, Ok(field));
        assert(converts_to(
            may_answer,
            no_hints(),
            msg.fields[j],
            package,
            Ok(field.field_type),
        ));
    }
    assert(stops_at(may_answer, no_hints(), msg.fields, package, error, i));
}

/// A nested message is answered for by a load of its own, under its canonical name, and under
/// no other name is a nested message found.
pub proof fn law_nested_messages_are_loaded(
    table: MsgTable,
    log: Seq<Event>,
    in_progress: Seq<Seq<char>>,
    full_name: Seq<char>,
    reply: Option<SchemaModel>,
)
    requires
        nested_answers(table, log, in_progress)(full_name, reply),
    ensures
        match canonical_parts(full_name) {
            Some((package, kind, name)) if kind == "msg"@ => exists|
                rest: Seq<Event>,
                schemas: Map<Seq<char>, SchemaModel>,
            |
                {
                    &&& is_end_of(rest, log)
                    &&& (#[trigger] load(table, rest, full_name, in_progress, schemas)) is Some
                    &&& match load(table, rest, full_name, in_progress, schemas)->0.schema {
                        Ok(schema) => reply == Some(schema),
                        Err(failures) => reply is None,
                    }
                },
            _ => reply is None,
        },
{
    let (rest, schemas) = choose|rest: Seq<Event>, schemas: Map<Seq<char>, SchemaModel>|
        {
            &&& is_end_of(rest, log)
            &&& (#[trigger] load_nested(table, rest, full_name, in_progress, schemas)) is Some
            &&& load_nested(table, rest, full_name, in_progress, schemas)->0.schema.ok() == reply
        };
    if names_a_message(full_name) {
        assert(load(table, rest, full_name, in_progress, schemas) is Some);
    }
}

/// Fields are loaded one after the other: the fields of the first part are, and then, with
/// the rest of the log and what is registered by then, those of the second part, unless one of
/// the first part could not be loaded, which ends it.
pub proof fn law_fields_are_loaded_in_turn(
    table: MsgTable,
    log: Seq<Event>,
    first: Seq<FieldDef>,
    second: Seq<FieldDef>,
    package: Seq<char>,
    in_progress: Seq<Seq<char>>,
    schemas: Map<Seq<char>, SchemaModel>,
)
    requires
        load_fields(table, log, first, package, in_progress, schemas) is Some,
    ensures
        ({
            let x = load_fields(table, log, first, package, in_progress, schemas)->0;
            let all = load_fields(table, log, first + second, package, in_progress, schemas);
            match x.fields {
                Err(_) => all == Some(x),
                Ok(converted) => match load_fields(
                    table,
                    x.rest,
                    second,
                    package,
                    in_progress,
                    x.schemas,
                ) {
                    None => all is None,
                    Some(y) => {
                        &&& all is Some
                        &&& all->0.schemas == y.schemas
                        &&& all->0.rest == y.rest
                        &&& match y.fields {
                            Ok(more) => all->0.fields == Ok::<
                                Seq<FieldModel>,
                                (Seq<FailureModel>, ErrorModel),
                            >(converted + more),
                            Err(failure) => all->0.fields == Err::<
                                Seq<FieldModel>,
                                (Seq<FailureModel>, ErrorModel),
                            >(failure),
                        }
                    },
                },
            }
        }),
    decreases second.len(),
{
    let x = load_fields(table, log, first, package, in_progress, schemas)->0;
    if second.len() == 0 {
        assert(first + second =~= first);
        if x.fields is Ok {
            assert(x.fields->Ok_0 + Seq::<FieldModel>::empty() =~= x.fields->Ok_0);
        }
    } else {
        let init = second.drop_last();
        law_fields_are_loaded_in_turn(
            table,
            log,
            first,
            init,
            package,
            in_progress,
            schemas,
        );
        lemma_rest_of_log_of_fields(table, log, first, package, in_progress, schemas);
        assert((first + second).drop_last() =~= first + init);
        assert((first + second).last() == second.last());
        if x.fields is Ok {
            match load_fields(table, x.rest, init, package, in_progress, x.schemas) {
                Some(y) => {
                    lemma_rest_of_log_of_fields(
                        table,
                        x.rest,
                        init,
                        package,
                        in_progress,
                        x.schemas,
                    );
                    if y.fields is Ok {
                        let converted = x.fields->Ok_0;
                        let more = y.fields->Ok_0;
                        assert forall|field: FieldModel| #[trigger]
                            (converted + more).push(field) == converted + more.push(field) by {
                            assert((converted + more).push(field) =~= converted + more.push(
                                field,
                            ));
                        }
                        let nested = nested_name(second.last(), package);
                        let inner = load_nested(table, y.rest, nested, in_progress, y.schemas);
                        if declared_type(second.last()) is None && inner is Some
                            && inner->0.schema is Ok {
                            let field = converted_field(
                                second.last(),
                                TypeModel::Message(Box::new(inner->0.schema->Ok_0)),
                            );
                            assert((converted + more).push(field) == converted + more.push(field));
                        }
                        if declared_type(second.last()) is Some {
                            let field = converted_field(
                                second.last(),
                                declared_type(second.last())->0,
                            );
                            assert((converted + more).push(field) == converted + more.push(field));
                        }
                    }
                },
                None => {},
            }
        }
    }
}

/// Whether the fields are the one field, with its name, holding items of the given type in the
/// collection that the field declares.
pub open spec fn holds_items(fields: Seq<FieldModel>, field: FieldDef, item: TypeModel) -> bool {
    &&& fields.len() == 1
    &&& fields[0].name == field.name
    &&& match field.array {
        ArrayType::Single => fields[0].field_type == item,
        ArrayType::Fixed(n) => fields[0].field_type == TypeModel::Array(Box::new(item), n),
        ArrayType::Bounded(n) => fields[0].field_type == TypeModel::BoundedSequence(
            Box::new(item),
            n,
        ),
        ArrayType::Unbounded => fields[0].field_type == TypeModel::Sequence(Box::new(item)),
    }
}

/// A single field: one whose type names no message needs no call and registers nothing, and
/// holds that type. One that names a message loads it, under the name that it has in the
/// field's package or else in that of the message around it, and holds the schema that the
/// load gives. Either way it holds as many items as it declares.
pub proof fn law_one_field_is_loaded_by_name(
    table: MsgTable,
    log: Seq<Event>,
    field: FieldDef,
    package: Seq<char>,
    in_progress: Seq<Seq<char>>,
    schemas: Map<Seq<char>, SchemaModel>,
    name: Seq<char>,
)
    requires
        name == match field.package {
            Some(own) => own + "/msg/"@ + field.base_type,
            None => package + "/msg/"@ + field.base_type,
        },
    ensures
        ({
            let loaded = load_fields(table, log, seq![field], package, in_progress, schemas);
            if declared_type(field) is Some {
                &&& loaded is Some
                &&& loaded->0.fields is Ok
                &&& holds_items(loaded->0.fields->Ok_0, field, declared_type(field)->0)
                &&& loaded->0.schemas == schemas
                &&& loaded->0.rest == log
            } else if canonical_parts(name) is None {
                &&& loaded is Some
                &&& loaded->0.fields == Err::<Seq<FieldModel>, (Seq<FailureModel>, ErrorModel)>(
                    (seq![], ErrorModel::SchemaNotFound(name)),
                )
                &&& loaded->0.schemas == schemas
                &&& loaded->0.rest == log
            } else {
                match load(table, log, name, in_progress, schemas) {
                    None => loaded is None,
                    Some(nested) => {
                        &&& loaded is Some
                        &&& loaded->0.schemas == nested.schemas
                        &&& loaded->0.rest == nested.rest
                        &&& nested.schema is Ok <==> loaded->0.fields is Ok
                        &&& nested.schema matches Ok(schema) ==> holds_items(
                            loaded->0.fields->Ok_0,
                            field,
                            TypeModel::Message(Box::new(schema)),
                        )
                        &&& nested.schema matches Err(failures) ==> loaded->0.fields == Err::<
                            Seq<FieldModel>,
                            (Seq<FailureModel>, ErrorModel),
                        >((failures, ErrorModel::SchemaNotFound(name)))
                    },
                }
            }
        }),
{
    reveal_strlit("/msg/");
    reveal_strlit("msg");
    reveal_with_fuel(load_fields, 2);
    assert(name =~= nested_name(field, package));
    let fields = seq![field];
    assert(fields.drop_last() =~= Seq::<FieldDef>::empty());
    assert(fields.last() == field);
    let own = match field.package {
        Some(own) => own,
        None => package,
    };
    if canonical_parts(name) is Some {
        law_slashes_spoil_a_name(own, "msg"@, field.base_type);
        law_split_canonical_of_join(own, "msg"@, field.base_type);
    }
    assert(load_nested(table, log, name, in_progress, schemas) is Some || load(
        table,
        log,
        name,
        in_progress,
        schemas,
    ) is None);
}

/// Whether the schema is that of a definition, as far as its name, and the number, the order
/// and the names of its fields go.
pub open spec fn is_of_definition(schema: SchemaModel, msg: MessageDef) -> bool {
    &&& schema.full_name == msg.package + "/msg/"@ + msg.name
    &&& schema.fields.len() == msg.fields.len()
    &&& forall|i: int| #![trigger schema.fields[i]]
        0 <= i < msg.fields.len() ==> schema.fields[i].name == msg.fields[i].name
}

/// Whether a definition that the log read is that of the schema.
pub open spec fn read_in(log: Seq<Event>, schema: SchemaModel, i: int) -> bool {
    &&& 0 <= i < log.len()
    &&& log[i] is Parse
    &&& log[i]->definition is Ok
    &&& is_of_definition(schema, log[i]->definition->Ok_0)
}

/// Whatever a load registers, of the type itself or of one nested in it at any depth, is the
/// schema of a definition that it read, under the name of that definition, with its fields in
/// order.
pub proof fn law_registered_schemas_come_from_definitions(
    table: MsgTable,
    log: Seq<Event>,
    full_name: Seq<char>,
    in_progress: Seq<Seq<char>>,
    schemas: Map<Seq<char>, SchemaModel>,
    name: Seq<char>,
)
    requires
        load(table, log, full_name, in_progress, schemas) is Some,
        load(table, log, full_name, in_progress, schemas)->0.schemas.contains_key(name),
    ensures
        ({
            let after = load(table, log, full_name, in_progress, schemas)->0.schemas;
            ||| schemas.contains_key(name) && after[name] == schemas[name]
            ||| {
                &&& after[name].full_name == name
                &&& exists|i: int| #[trigger] read_in(log, after[name], i)
            }
        }),
    decreases log.len(), 0nat,
{
    let loaded = load(table, log, full_name, in_progress, schemas)->0;
    law_course_of_a_load(table, log, full_name, in_progress, schemas);
    if !schemas.contains_key(full_name) && loaded.schemas != schemas {
        let end = log.skip(2);
        assert(log.skip(1)[0] == log[1]);
        let package = log[1]->Parse_package;
        let msg = log[1]->definition->Ok_0;
        let stack = in_progress.push(full_name);
        let inner = load_fields(table, end, msg.fields, package, stack, schemas)->0;
        if loaded.schema is Ok {
            law_loaded_schema_has_the_fields_of_the_definition(
                table,
                log,
                full_name,
                in_progress,
                schemas,
            );
        }
        if loaded.schema is Ok && name == loaded.schema->Ok_0.full_name {
            assert(read_in(log, loaded.schemas[name], 1));
        } else {
            lemma_fields_come_from_definitions(
                table,
                end,
                msg.fields,
                package,
                stack,
                schemas,
                name,
            );
            if exists|i: int| #[trigger] read_in(end, inner.schemas[name], i) {
                let i = choose|i: int| #[trigger] read_in(end, inner.schemas[name], i);
                assert(end[i] == log[i + 2]);
                assert(read_in(log, inner.schemas[name], i + 2));
            }
        }
    }
}

/// The same of the fields of a message.
proof fn lemma_fields_come_from_definitions(
    table: MsgTable,
    log: Seq<Event>,
    fields: Seq<FieldDef>,
    package: Seq<char>,
    in_progress: Seq<Seq<char>>,
    schemas: Map<Seq<char>, SchemaModel>,
    name: Seq<char>,
)
    requires
        load_fields(table, log, fields, package, in_progress, schemas) is Some,
        load_fields(table, log, fields, package, in_progress, schemas)->0.schemas.contains_key(
            name,
        ),
    ensures
        ({
            let after = load_fields(table, log, fields, package, in_progress, schemas)->0.schemas;
            ||| schemas.contains_key(name) && after[name] == schemas[name]
            ||| {
                &&& after[name].full_name == name
                &&& exists|i: int| #[trigger] read_in(log, after[name], i)
            }
        }),
    decreases log.len(), fields.len() + 1,
{
    if fields.len() > 0 {
        let init = fields.drop_last();
        lemma_rest_of_log_of_fields(table, log, init, package, in_progress, schemas);
        let before = load_fields(table, log, init, package, in_progress, schemas)->0;
        let after = load_fields(table, log, fields, package, in_progress, schemas)->0.schemas;
        let nested = nested_name(fields.last(), package);
        if before.fields is Ok && declared_type(fields.last()) is None {
            assert(load_nested(table, before.rest, nested, in_progress, before.schemas) is Some);
            if names_a_message(nested) {
                law_registered_schemas_come_from_definitions(
                    table,
                    before.rest,
                    nested,
                    in_progress,
                    before.schemas,
                    name,
                );
                if exists|i: int| #[trigger] read_in(before.rest, after[name], i) {
                    let i = choose|i: int| #[trigger] read_in(before.rest, after[name], i);
                    let skipped = log.len() - before.rest.len();
                    assert(before.rest[i] == log[i + skipped]);
                    assert(read_in(log, after[name], i + skipped));
                }
            }
        }
        if before.schemas.contains_key(name) && after[name] == before.schemas[name] {
            lemma_fields_come_from_definitions(
                table,
                log,
                init,
                package,
                in_progress,
                schemas,
                name,
            );
        }
    }
}

/// A field that holds a message holds the one that its definition names: of the field's
/// package, or else of the package of the message around it.
pub proof fn law_message_fields_hold_the_message_they_name(
    table: MsgTable,
    log: Seq<Event>,
    full_name: Seq<char>,
    in_progress: Seq<Seq<char>>,
    schemas: Map<Seq<char>, SchemaModel>,
    i: int,
)
    requires
        faithful(log),
        keyed_by_name(schemas),
        !schemas.contains_key(full_name),
        load(table, log, full_name, in_progress, schemas) is Some,
        load(table, log, full_name, in_progress, schemas)->0.schema is Ok,
        0 <= i < load(table, log, full_name, in_progress, schemas)->0.schema->Ok_0.fields.len(),
    ensures
        ({
            let schema = load(table, log, full_name, in_progress, schemas)->0.schema->Ok_0;
            let msg = log[1]->definition->Ok_0;
            let package = log[1]->Parse_package;
            let field = msg.fields[i];
            item_type(schema.fields[i].field_type) matches TypeModel::Message(nested)
                ==> nested.full_name == match field.package {
                Some(own) => own + "/msg/"@ + field.base_type,
                None => package + "/msg/"@ + field.base_type,
            }
        }),
{
    law_course_of_a_load(table, log, full_name, in_progress, schemas);
    assert(log.skip(1)[0] == log[1]);
    let end = log.skip(2);
    let package = log[1]->Parse_package;
    let msg = log[1]->definition->Ok_0;
    let field = msg.fields[i];
    let stack = in_progress.push(full_name);
    lemma_fields_hold_named(table, end, msg.fields, package, stack, schemas);
    reveal_strlit("/msg/");
    reveal_strlit("msg");
    assert(nested_name(field, package) =~= match field.package {
        Some(own) => own + "/msg/"@ + field.base_type,
        None => package + "/msg/"@ + field.base_type,
    });
}

/// The messages in loaded fields bear the names that the fields refer to.
proof fn lemma_fields_hold_named(
    table: MsgTable,
    log: Seq<Event>,
    fields: Seq<FieldDef>,
    package: Seq<char>,
    in_progress: Seq<Seq<char>>,
    schemas: Map<Seq<char>, SchemaModel>,
)
    requires
        faithful(log),
        keyed_by_name(schemas),
        load_fields(table, log, fields, package, in_progress, schemas) is Some,
    ensures
        load_fields(table, log, fields, package, in_progress, schemas)->0.fields matches Ok(all)
            ==> {
            &&& all.len() == fields.len()
            &&& forall|i: int|
                0 <= i < fields.len() ==> (item_type((#[trigger] all[i]).field_type) matches
                    TypeModel::Message(nested) ==> nested.full_name == nested_name(
                    fields[i],
                    package,
                ))
        },
    decreases fields.len(),
{
    if fields.len() > 0 {
        let init = fields.drop_last();
        let field = fields.last();
        lemma_fields_hold_named(table, log, init, package, in_progress, schemas);
        lemma_fields_keep_names(table, log, init, package, in_progress, schemas);
        lemma_rest_of_log_of_fields(table, log, init, package, in_progress, schemas);
        let before = load_fields(table, log, init, package, in_progress, schemas)->0;
        let loaded = load_fields(table, log, fields, package, in_progress, schemas)->0;
        let nested = nested_name(field, package);
        if before.fields is Ok {
            match declared_type(field) {
                Some(item) => {
                    assert(item_type(collected(field.array, item)) == item);
                },
                None => {
                    assert(load_nested(
                        table,
                        before.rest,
                        nested,
                        in_progress,
                        before.schemas,
                    ) is Some);
                    if names_a_message(nested) {
                        lemma_canonical_message_name(nested);
                        if !before.schemas.contains_key(nested) {
                            law_nested_schemas_are_registered(
                                table,
                                before.rest,
                                nested,
                                in_progress,
                                before.schemas,
                            );
                        }
                    }
                },
            }
            if loaded.fields is Ok {
                let all = loaded.fields->Ok_0;
                assert forall|i: int| 0 <= i < fields.len() implies (item_type(
                    (#[trigger] all[i]).field_type,
                ) matches TypeModel::Message(nested) ==> nested.full_name == nested_name(
                    fields[i],
                    package,
                )) by {
                    if i < init.len() {
                        assert(all[i] == before.fields->Ok_0[i]);
                        assert(fields[i] == init[i]);
                    }
                }
            }
        }
    }
}

} // verus!
