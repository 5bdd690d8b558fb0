//! The schemas of a service: its request and its response, and the event and
//! service descriptions that ROS derives from them.

use crate::convert::{
    answers, consistent, law_conversion_is_determined, message_outcome, no_hints,
    parsed_message_to_schema_named, required_outcome,
    resolve_required, schema_of, total, Answers,
};
use crate::error::{outcome, DynamicError, ErrorModel};
use crate::names::{
    canonical_parts, join_name, law_slashes_spoil_a_name, law_split_canonical_of_join,
    lemma_canonical_suffix, ros_name, slash_free, split_canonical, with_suffix,
};
use crate::schema::{
    lemma_schema_fields, message_field, optional_message_field, FieldSchema, MessageSchema,
    SchemaModel, TypeModel,
};
use crate::types::{MessageDef, ParsedService, ServiceDef};
use std::sync::Arc;
use vstd::prelude::*;
use vstd::string::*;

verus! {

/// The type name of a service.
pub open spec fn service_name(service: ServiceDef) -> Seq<char> {
    ros_name(service.package, "srv"@, service.name)
}

/// What comes of converting the request and the response of a service. The
/// response is converted only after the request.
pub open spec fn service_outcome(
    may_answer: Answers,
    service: ServiceDef,
    out: Result<(SchemaModel, SchemaModel), ErrorModel>,
) -> bool {
    exists|request: Result<SchemaModel, ErrorModel>|
        {
            &&& #[trigger] message_outcome(
                may_answer,
                no_hints(),
                service.request,
                service_name(service) + "_Request"@,
                request,
            )
            &&& match request {
                Err(error) => out == Err::<(SchemaModel, SchemaModel), ErrorModel>(error),
                Ok(request) => exists|response: Result<SchemaModel, ErrorModel>|
                    {
                        &&& #[trigger] message_outcome(
                            may_answer,
                            no_hints(),
                            service.response,
                            service_name(service) + "_Response"@,
                            response,
                        )
                        &&& out == match response {
                            Err(error) => Err::<(SchemaModel, SchemaModel), ErrorModel>(error),
                            Ok(response) => Ok((request, response)),
                        }
                    },
            }
        }
}

/// The message that describes an event of a service: who called it and when, and
/// the request or the response, if it was recorded.
pub open spec fn event_schema(
    prefix: Seq<char>,
    request: SchemaModel,
    response: SchemaModel,
    info: SchemaModel,
) -> SchemaModel {
    schema_of(
        prefix + "_Event"@,
        seq![
            message_field("info"@, info),
            optional_message_field("request"@, request),
            optional_message_field("response"@, response),
        ],
    )
}

/// The description of a service.
pub open spec fn service_schema(
    prefix: Seq<char>,
    request: SchemaModel,
    response: SchemaModel,
    info: SchemaModel,
) -> SchemaModel {
    schema_of(
        prefix,
        seq![
            message_field("request_message"@, request),
            message_field("response_message"@, response),
            message_field("event_message"@, event_schema(prefix, request, response, info)),
        ],
    )
}

/// The four schemas of a service.
pub open spec fn service_set(
    prefix: Seq<char>,
    request: SchemaModel,
    response: SchemaModel,
    info: SchemaModel,
) -> Seq<SchemaModel> {
    seq![
        request,
        response,
        event_schema(prefix, request, response, info),
        service_schema(prefix, request, response, info),
    ]
}

/// The message type with the particulars of a service event.
pub open spec fn event_info_name() -> Seq<char> {
    "service_msgs/msg/ServiceEventInfo"@
}

/// What comes of completing the schemas of the service named `prefix`.
pub open spec fn service_set_outcome(
    may_answer: Answers,
    prefix: Seq<char>,
    request: SchemaModel,
    response: SchemaModel,
    out: Result<Seq<SchemaModel>, ErrorModel>,
) -> bool {
    exists|info: Result<SchemaModel, ErrorModel>|
        {
            &&& #[trigger] required_outcome(may_answer, event_info_name(), info)
            &&& out == match info {
                Err(error) => Err::<Seq<SchemaModel>, ErrorModel>(error),
                Ok(info) => if canonical_parts(prefix) is Some {
                    Ok(service_set(prefix, request, response, info))
                } else {
                    Err(ErrorModel::InvalidTypeName(prefix + "_Event"@))
                },
            }
        }
}

/// What comes of building every schema of a service.
pub open spec fn service_wire_outcome(
    may_answer: Answers,
    service: ServiceDef,
    out: Result<Seq<SchemaModel>, ErrorModel>,
) -> bool {
    exists|pair: Result<(SchemaModel, SchemaModel), ErrorModel>|
        {
            &&& #[trigger] service_outcome(may_answer, service, pair)
            &&& match pair {
                Err(error) => out == Err::<Seq<SchemaModel>, ErrorModel>(error),
                Ok((request, response)) => service_set_outcome(
                    may_answer,
                    service_name(service),
                    request,
                    response,
                    out,
                ),
            }
        }
}

/// The schema of the given name and fields.
pub fn synthetic_schema(full_name: &str, fields: Vec<FieldSchema>) -> (built: Result<
    Arc<MessageSchema>,
    DynamicError,
>)
    ensures
        outcome(built) == if canonical_parts(full_name@) is Some {
            Ok::<SchemaModel, ErrorModel>(schema_of(full_name@, fields.deep_view()))
        } else {
            Err(ErrorModel::InvalidTypeName(full_name@))
        },
{
    let (package, kind, name) = match split_canonical(full_name) {
        Some(parts) => parts,
        None => {
            return Err(DynamicError::InvalidTypeName(full_name.to_owned()));
        },
    };
    let schema: MessageSchema = MessageSchema {
        full_name: full_name.to_owned(),
        package: package.to_owned(),
        name: name.to_owned(),
        fields,
        type_hash: None,
    };
    proof {
        lemma_schema_fields(schema);
    }
    Ok(Arc::new(schema))
}

/// Completes the schemas of the service named `prefix`: the request, the response,
/// the event and the service description, in that order.
pub fn service_schema_set<R: Fn(&str) -> Option<Arc<MessageSchema>>>(
    prefix: &str,
    request: Arc<MessageSchema>,
    response: Arc<MessageSchema>,
    resolver: &R,
) -> (built: Result<Vec<Arc<MessageSchema>>, DynamicError>)
    requires
        total(*resolver),
    ensures
        service_set_outcome(answers(*resolver), prefix@, request@, response@, outcome(built)),
{
    let info: Result<Arc<MessageSchema>, DynamicError> = resolve_required(
        "service_msgs/msg/ServiceEventInfo",
        resolver,
    );
    assert(required_outcome(answers(*resolver), event_info_name(), outcome(info)));
    let info: Arc<MessageSchema> = match info {
        Ok(info) => info,
        Err(error) => {
            return Err(error);
        },
    };
    proof {
        reveal_strlit("_Event");
        assert(slash_free("_Event"@));
        lemma_canonical_suffix(prefix@, "_Event"@);
    }
    let event_fields: Vec<FieldSchema> =
        vec![
        FieldSchema::message("info", &info),
        FieldSchema::optional_message("request", &request),
        FieldSchema::optional_message("response", &response),
    ];
    assert(event_fields.deep_view() =~= seq![
        message_field("info"@, info@),
        optional_message_field("request"@, request@),
        optional_message_field("response"@, response@),
    ]);
    let event: Arc<MessageSchema> = match synthetic_schema(
        with_suffix(prefix, "_Event").as_str(),
        event_fields,
    ) {
        Ok(event) => event,
        Err(error) => {
            return Err(error);
        },
    };
    let service_fields: Vec<FieldSchema> =
        vec![
        FieldSchema::message("request_message", &request),
        FieldSchema::message("response_message", &response),
        FieldSchema::message("event_message", &event),
    ];
    assert(service_fields.deep_view() =~= seq![
        message_field("request_message"@, request@),
        message_field("response_message"@, response@),
        message_field("event_message"@, event@),
    ]);
    let service: Arc<MessageSchema> = match synthetic_schema(prefix, service_fields) {
        Ok(service) => service,
        Err(error) => {
            return Err(error);
        },
    };
    let schemas: Vec<Arc<MessageSchema>> = vec![request, response, event, service];
    assert(schemas.deep_view() =~= service_set(prefix@, request@, response@, info@));
    Ok(schemas)
}

/// Converts the request and the response of a parsed service.
pub fn parsed_service_to_schemas<R: Fn(&str) -> Option<Arc<MessageSchema>>>(
    service: &ParsedService,
    resolver: &R,
) -> (converted: Result<(Arc<MessageSchema>, Arc<MessageSchema>), DynamicError>)
    requires
        total(*resolver),
    ensures
        service_outcome(answers(*resolver), service@, outcome(converted)),
{
    let prefix: String = join_name(service.package.as_str(), "srv", service.name.as_str());
    let request: Result<Arc<MessageSchema>, DynamicError> = parsed_message_to_schema_named(
        &service.request,
        with_suffix(prefix.as_str(), "_Request").as_str(),
        resolver,
    );
    assert(message_outcome(
        answers(*resolver),
        no_hints(),
        service@.request,
        service_name(service@) + "_Request"@,
        outcome(request),
    ));
    let request: Arc<MessageSchema> = match request {
        Ok(request) => request,
        Err(error) => {
            return Err(error);
        },
    };
    let response: Result<Arc<MessageSchema>, DynamicError> = parsed_message_to_schema_named(
        &service.response,
        with_suffix(prefix.as_str(), "_Response").as_str(),
        resolver,
    );
    assert(message_outcome(
        answers(*resolver),
        no_hints(),
        service@.response,
        service_name(service@) + "_Response"@,
        outcome(response),
    ));
    match response {
        Ok(response) => Ok((request, response)),
        Err(error) => Err(error),
    }
}

/// Builds every schema of a parsed service: the request, the response, the event
/// and the service description, in that order. ROS derives the latter two, which
/// no `.srv` file holds.
pub fn parsed_service_to_wire_schemas<R: Fn(&str) -> Option<Arc<MessageSchema>>>(
    service: &ParsedService,
    resolver: &R,
) -> (built: Result<Vec<Arc<MessageSchema>>, DynamicError>)
    requires
        total(*resolver),
    ensures
        service_wire_outcome(answers(*resolver), service@, outcome(built)),
{
    let pair: Result<(Arc<MessageSchema>, Arc<MessageSchema>), DynamicError> =
        parsed_service_to_schemas(service, resolver);
    assert(service_outcome(answers(*resolver), service@, outcome(pair)));
    match pair {
        Ok((request, response)) => service_schema_set(
            join_name(service.package.as_str(), "srv", service.name.as_str()).as_str(),
            request,
            response,
            resolver,
        ),
        Err(error) => Err(error),
    }
}

/// The schemas of a service bear the ROS names of its request, its response, its event
/// and the service itself.
pub proof fn law_service_wire_names(
    may_answer: Answers,
    service: ServiceDef,
    schemas: Seq<SchemaModel>,
)
    requires
        service_wire_outcome(may_answer, service, Ok(schemas)),
    ensures
        schemas.map_values(|schema: SchemaModel| schema.full_name) == seq![
            service_name(service) + "_Request"@,
            service_name(service) + "_Response"@,
            service_name(service) + "_Event"@,
            service_name(service),
        ],
{
    assert(schemas.map_values(|schema: SchemaModel| schema.full_name) =~= seq![
        service_name(service) + "_Request"@,
        service_name(service) + "_Response"@,
        service_name(service) + "_Event"@,
        service_name(service),
    ]);
}

/// The schemas of a service begin with its converted request and response.
pub proof fn law_service_wire_begins_with_the_messages(
    may_answer: Answers,
    service: ServiceDef,
    schemas: Seq<SchemaModel>,
)
    requires
        service_wire_outcome(may_answer, service, Ok(schemas)),
    ensures
        schemas.len() == 4,
        service_outcome(may_answer, service, Ok((schemas[0], schemas[1]))),
{
}

/// A service whose package or name holds a slash has no schemas. The name of its request
/// is what is wrong.
pub proof fn law_service_name_is_checked(
    may_answer: Answers,
    service: ServiceDef,
    out: Result<Seq<SchemaModel>, ErrorModel>,
)
    requires
        !slash_free(service.package) || !slash_free(service.name),
        service_wire_outcome(may_answer, service, out),
    ensures
        out == Err::<Seq<SchemaModel>, ErrorModel>(
            ErrorModel::InvalidTypeName(service_name(service) + "_Request"@),
        ),
{
    reveal_strlit("srv");
    reveal_strlit("_Request");
    law_slashes_spoil_a_name(service.package, "srv"@, service.name);
    lemma_canonical_suffix(service_name(service), "_Request"@);
}

/// With a resolver that answers always alike, a service has one outcome.
pub proof fn law_service_wire_is_determined(
    may_answer: Answers,
    service: ServiceDef,
    a: Result<Seq<SchemaModel>, ErrorModel>,
    b: Result<Seq<SchemaModel>, ErrorModel>,
)
    requires
        consistent(may_answer),
        service_wire_outcome(may_answer, service, a),
        service_wire_outcome(may_answer, service, b),
    ensures
        a == b,
{
    let prefix = service_name(service);
    assert forall|
        x: Result<(SchemaModel, SchemaModel), ErrorModel>,
        y: Result<(SchemaModel, SchemaModel), ErrorModel>,
    | #[trigger]
        service_outcome(may_answer, service, x) && #[trigger] service_outcome(
            may_answer,
            service,
            y,
        ) implies x == y by {
        lemma_service_outcome_is_determined(may_answer, service, x, y);
    }
}

/// With a resolver that answers always alike, the messages of a service have one outcome.
proof fn lemma_service_outcome_is_determined(
    may_answer: Answers,
    service: ServiceDef,
    a: Result<(SchemaModel, SchemaModel), ErrorModel>,
    b: Result<(SchemaModel, SchemaModel), ErrorModel>,
)
    requires
        consistent(may_answer),
        service_outcome(may_answer, service, a),
        service_outcome(may_answer, service, b),
    ensures
        a == b,
{
    assert forall|
        msg: MessageDef,
        name: Seq<char>,
        x: Result<SchemaModel, ErrorModel>,
        y: Result<SchemaModel, ErrorModel>,
    | #[trigger]
        message_outcome(may_answer, no_hints(), msg, name, x) && #[trigger] message_outcome(
            may_answer,
            no_hints(),
            msg,
            name,
            y,
        ) implies x == y by {
        law_conversion_is_determined(may_answer, no_hints(), msg, name, x, y);
    }
}

/// The set of a service, field by field. The event tells who called the service, and holds
/// at most one request and at most one response. The service description holds the request,
/// the response and the event, one each.
pub proof fn law_service_set_field_by_field(
    may_answer: Answers,
    prefix: Seq<char>,
    request: SchemaModel,
    response: SchemaModel,
    schemas: Seq<SchemaModel>,
)
    requires
        service_set_outcome(may_answer, prefix, request, response, Ok(schemas)),
    ensures
        schemas.len() == 4,
        schemas[0] == request,
        schemas[1] == response,
        canonical_parts(prefix) is Some,
        ({
            let (package, kind, name) = canonical_parts(prefix)->0;
            let info = *(schemas[2].fields[0].field_type->Message_0);
            &&& may_answer("service_msgs/msg/ServiceEventInfo"@, Some(info))
            &&& schemas[2].full_name == prefix + "_Event"@
            &&& schemas[2].package == package
            &&& schemas[2].name == name + "_Event"@
            &&& schemas[2].type_hash is None
            &&& schemas[3].full_name == prefix
            &&& schemas[3].package == package
            &&& schemas[3].name == name
            &&& schemas[3].type_hash is None
            &&& schemas[2].fields.len() == 3
            &&& schemas[2].fields[0].name == "info"@
            &&& schemas[2].fields[0].field_type == TypeModel::Message(Box::new(info))
            &&& schemas[2].fields[1].name == "request"@
            &&& schemas[2].fields[1].field_type == TypeModel::BoundedSequence(
                Box::new(TypeModel::Message(Box::new(schemas[0]))),
                1,
            )
            &&& schemas[2].fields[2].name == "response"@
            &&& schemas[2].fields[2].field_type == TypeModel::BoundedSequence(
                Box::new(TypeModel::Message(Box::new(schemas[1]))),
                1,
            )
            &&& schemas[3].fields.len() == 3
            &&& schemas[3].fields[0].name == "request_message"@
            &&& schemas[3].fields[0].field_type == TypeModel::Message(Box::new(schemas[0]))
            &&& schemas[3].fields[1].name == "response_message"@
            &&& schemas[3].fields[1].field_type == TypeModel::Message(Box::new(schemas[1]))
            &&& schemas[3].fields[2].name == "event_message"@
            &&& schemas[3].fields[2].field_type == TypeModel::Message(Box::new(schemas[2]))
        }),
{
    reveal_strlit("_Event");
    lemma_canonical_suffix(prefix, "_Event"@);
}

/// The set of a service cannot be completed only if the particulars of service events are not
/// known, or if the name of the service is not canonical.
pub proof fn law_service_set_fails_without_event_info(
    may_answer: Answers,
    prefix: Seq<char>,
    request: SchemaModel,
    response: SchemaModel,
    error: ErrorModel,
)
    requires
        service_set_outcome(may_answer, prefix, request, response, Err(error)),
    ensures
        ({
            ||| {
                &&& error == ErrorModel::SchemaNotFound("service_msgs/msg/ServiceEventInfo"@)
                &&& may_answer("service_msgs/msg/ServiceEventInfo"@, None)
            }
            ||| {
                &&& error == ErrorModel::InvalidTypeName(prefix + "_Event"@)
                &&& canonical_parts(prefix) is None
            }
        }),
{
}

/// The name of a service.
proof fn lemma_service_name(service: ServiceDef)
    ensures
        service_name(service) == service.package + "/srv/"@ + service.name,
{
    reveal_strlit("/srv/");
    reveal_strlit("srv");
    assert(service_name(service) =~= service.package + "/srv/"@ + service.name);
}

/// The schemas of a parsed service, field by field: the converted request and response, and
/// the event and the service description made of them, whatever their fields.
pub proof fn law_service_wire_field_by_field(
    may_answer: Answers,
    service: ServiceDef,
    schemas: Seq<SchemaModel>,
)
    requires
        service_wire_outcome(may_answer, service, Ok(schemas)),
    ensures
        schemas.len() == 4,
        ({
            let prefix = service.package + "/srv/"@ + service.name;
            let info = *(schemas[2].fields[0].field_type->Message_0);
            &&& message_outcome(
                may_answer,
                no_hints(),
                service.request,
                prefix + "_Request"@,
                Ok(schemas[0]),
            )
            &&& message_outcome(
                may_answer,
                no_hints(),
                service.response,
                prefix + "_Response"@,
                Ok(schemas[1]),
            )
            &&& may_answer("service_msgs/msg/ServiceEventInfo"@, Some(info))
            &&& schemas[2].full_name == prefix + "_Event"@
            &&& schemas[2].package == service.package
            &&& schemas[2].name == service.name + "_Event"@
            &&& schemas[2].type_hash is None
            &&& schemas[3].full_name == prefix
            &&& schemas[3].package == service.package
            &&& schemas[3].name == service.name
            &&& schemas[3].type_hash is None
            &&& schemas[2].fields.len() == 3
            &&& schemas[2].fields[0].name == "info"@
            &&& schemas[2].fields[0].field_type == TypeModel::Message(Box::new(info))
            &&& schemas[2].fields[1].name == "request"@
            &&& schemas[2].fields[1].field_type == TypeModel::BoundedSequence(
                Box::new(TypeModel::Message(Box::new(schemas[0]))),
                1,
            )
            &&& schemas[2].fields[2].name == "response"@
            &&& schemas[2].fields[2].field_type == TypeModel::BoundedSequence(
                Box::new(TypeModel::Message(Box::new(schemas[1]))),
                1,
            )
            &&& schemas[3].fields.len() == 3
            &&& schemas[3].fields[0].name == "request_message"@
            &&& schemas[3].fields[0].field_type == TypeModel::Message(Box::new(schemas[0]))
            &&& schemas[3].fields[1].name == "response_message"@
            &&& schemas[3].fields[1].field_type == TypeModel::Message(Box::new(schemas[1]))
            &&& schemas[3].fields[2].name == "event_message"@
            &&& schemas[3].fields[2].field_type == TypeModel::Message(Box::new(schemas[2]))
        }),
{
    let prefix = service_name(service);
    lemma_service_name(service);
    law_service_set_field_by_field(may_answer, prefix, schemas[0], schemas[1], schemas);
    if !slash_free(service.package) || !slash_free(service.name) {
        law_service_name_is_checked(may_answer, service, Ok(schemas));
    }
    reveal_strlit("srv");
    law_split_canonical_of_join(service.package, "srv"@, service.name);
}

/// The messages of a service are its request and its response, converted one after the other,
/// and what fails is one of them.
pub proof fn law_service_messages_are_converted(
    may_answer: Answers,
    service: ServiceDef,
    out: Result<(SchemaModel, SchemaModel), ErrorModel>,
)
    requires
        service_outcome(may_answer, service, out),
    ensures
        ({
            let prefix = service.package + "/srv/"@ + service.name;
            match out {
                Ok((request, response)) => {
                    &&& message_outcome(
                        may_answer,
                        no_hints(),
                        service.request,
                        prefix + "_Request"@,
                        Ok(request),
                    )
                    &&& message_outcome(
                        may_answer,
                        no_hints(),
                        service.response,
                        prefix + "_Response"@,
                        Ok(response),
                    )
                },
                Err(error) => {
                    ||| message_outcome(
                        may_answer,
                        no_hints(),
                        service.request,
                        prefix + "_Request"@,
                        Err(error),
                    )
                    ||| message_outcome(
                        may_answer,
                        no_hints(),
                        service.response,
                        prefix + "_Response"@,
                        Err(error),
                    )
                },
            }
        }),
{
    lemma_service_name(service);
}

/// The schemas of a service cannot be built only if one of its messages cannot be converted,
/// or if the particulars of service events are not known.
pub proof fn law_service_wire_fails_by_a_message_or_a_lookup(
    may_answer: Answers,
    service: ServiceDef,
    error: ErrorModel,
)
    requires
        service_wire_outcome(may_answer, service, Err(error)),
    ensures
        ({
            ||| service_outcome(may_answer, service, Err(error))
            ||| {
                &&& error == ErrorModel::SchemaNotFound("service_msgs/msg/ServiceEventInfo"@)
                &&& may_answer("service_msgs/msg/ServiceEventInfo"@, None)
            }
        }),
{
    let pair = choose|pair: Result<(SchemaModel, SchemaModel), ErrorModel>|
        {
            &&& #[trigger] service_outcome(may_answer, service, pair)
            &&& match pair {
                Err(e) => error == e,
                Ok((request, response)) => service_set_outcome(
                    may_answer,
                    service_name(service),
                    request,
                    response,
                    Err(error),
                ),
            }
        };
    if pair is Ok {
        let (request, response) = pair->Ok_0;
        law_service_set_fails_without_event_info(
            may_answer,
            service_name(service),
            request,
            response,
            error,
        );
        reveal_strlit("_Request");
        lemma_canonical_suffix(service_name(service), "_Request"@);
    }
}

} // verus!
