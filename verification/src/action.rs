//! The schemas of an action: its goal, result and feedback, and the services and
//! messages that ROS derives from them.

use crate::convert::{
    answers, consistent, law_conversion_is_determined, message_outcome, no_hints,
    parsed_message_to_schema_named, required_outcome,
    resolve_required, schema_of, total, Answers,
};
use crate::error::{outcome, DynamicError, ErrorModel};
use crate::names::{
    canonical_parts, join_name, law_slashes_spoil_a_name, law_split_canonical_of_join,
    lemma_canonical_suffix, ros_name, slash_free, with_suffix,
};
use crate::schema::{
    message_field, FieldModel, FieldSchema, FieldType, MessageSchema, SchemaModel, TypeModel,
};
use crate::service::{event_info_name, service_schema_set, service_set, synthetic_schema};
use crate::text::same_text;
use crate::types::{ActionDef, MessageDef, ParsedAction};
use std::sync::Arc;
use vstd::prelude::*;
use vstd::string::*;

verus! {

/// The type name of an action.
pub open spec fn action_name(action: ActionDef) -> Seq<char> {
    ros_name(action.package, "action"@, action.name)
}

/// What comes of converting a definition that may be absent.
pub open spec fn optional_outcome(
    may_answer: Answers,
    msg: Option<MessageDef>,
    full_name: Seq<char>,
    out: Result<Option<SchemaModel>, ErrorModel>,
) -> bool {
    match msg {
        None => out == Ok::<Option<SchemaModel>, ErrorModel>(None),
        Some(msg) => match out {
            Ok(None) => false,
            Ok(Some(schema)) => message_outcome(may_answer, no_hints(), msg, full_name, Ok(schema)),
            Err(error) => message_outcome(may_answer, no_hints(), msg, full_name, Err(error)),
        },
    }
}

/// The converted parts of an action.
pub struct ActionParts {
    pub goal: SchemaModel,
    pub result: Option<SchemaModel>,
    pub feedback: Option<SchemaModel>,
}

/// What comes of converting the goal, the result and the feedback of an action, one
/// after the other.
pub open spec fn action_parts_outcome(
    may_answer: Answers,
    action: ActionDef,
    out: Result<ActionParts, ErrorModel>,
) -> bool {
    let prefix = action_name(action);
    exists|goal: Result<SchemaModel, ErrorModel>|
        {
            &&& #[trigger] message_outcome(
                may_answer,
                no_hints(),
                action.goal,
                prefix + "_Goal"@,
                goal,
            )
            &&& match goal {
                Err(error) => out == Err::<ActionParts, ErrorModel>(error),
                Ok(goal) => exists|result: Result<Option<SchemaModel>, ErrorModel>|
                    {
                        &&& #[trigger] optional_outcome(
                            may_answer,
                            action.result,
                            prefix + "_Result"@,
                            result,
                        )
                        &&& match result {
                            Err(error) => out == Err::<ActionParts, ErrorModel>(error),
                            Ok(result) => exists|feedback: Result<Option<SchemaModel>, ErrorModel>|
                                {
                                    &&& #[trigger] optional_outcome(
                                        may_answer,
                                        action.feedback,
                                        prefix + "_Feedback"@,
                                        feedback,
                                    )
                                    &&& out == match feedback {
                                        Err(error) => Err::<ActionParts, ErrorModel>(error),
                                        Ok(feedback) => Ok(ActionParts { goal, result, feedback }),
                                    }
                                },
                        }
                    },
            }
        }
}

/// The schema, if there is one, as a sequence.
pub open spec fn as_seq(schema: Option<SchemaModel>) -> Seq<SchemaModel> {
    match schema {
        Some(schema) => seq![schema],
        None => seq![],
    }
}

/// The parts that an action has, in order.
pub open spec fn present_parts(parts: ActionParts) -> Seq<SchemaModel> {
    seq![parts.goal] + as_seq(parts.result) + as_seq(parts.feedback)
}

/// What comes of converting a parsed action.
pub open spec fn action_outcome(
    may_answer: Answers,
    action: ActionDef,
    out: Result<Seq<SchemaModel>, ErrorModel>,
) -> bool {
    exists|parts: Result<ActionParts, ErrorModel>|
        {
            &&& #[trigger] action_parts_outcome(may_answer, action, parts)
            &&& out == match parts {
                Err(error) => Err::<Seq<SchemaModel>, ErrorModel>(error),
                Ok(parts) => Ok(present_parts(parts)),
            }
        }
}

/// The first schema of that name.
pub open spec fn first_named(schemas: Seq<SchemaModel>, full_name: Seq<char>) -> Option<SchemaModel>
    decreases schemas.len(),
{
    if schemas.len() == 0 {
        None
    } else if schemas.first().full_name == full_name {
        Some(schemas.first())
    } else {
        first_named(schemas.drop_first(), full_name)
    }
}

/// Finds the schema of that name.
pub fn schema_named(schemas: &Vec<Arc<MessageSchema>>, full_name: &str) -> (found: Result<
    Arc<MessageSchema>,
    DynamicError,
>)
    ensures
        outcome(found) == match first_named(schemas.deep_view(), full_name@) {
            Some(schema) => Ok::<SchemaModel, ErrorModel>(schema),
            None => Err(ErrorModel::SchemaNotFound(full_name@)),
        },
{
    let ghost models = schemas.deep_view();
    assert(models.skip(0) =~= models);
    for i in 0..schemas.len()
        invariant
            models == schemas.deep_view(),
            first_named(models, full_name@) == first_named(models.skip(i as int), full_name@),
    {
        assert(models[i as int] == schemas@[i as int]@);
        if same_text(schemas[i].full_name.as_str(), full_name) {
            return Ok(schemas[i].clone());
        }
        assert(models.skip(i as int).drop_first() =~= models.skip(i + 1));
    }
    Err(DynamicError::SchemaNotFound(full_name.to_owned()))
}

/// Converts the goal, the result and the feedback of a parsed action, those of them
/// that it has.
pub fn parsed_action_to_schemas<R: Fn(&str) -> Option<Arc<MessageSchema>>>(
    action: &ParsedAction,
    resolver: &R,
) -> (converted: Result<Vec<Arc<MessageSchema>>, DynamicError>)
    requires
        total(*resolver),
    ensures
        action_outcome(answers(*resolver), action@, outcome(converted)),
{
    let ghost may_answer = answers(*resolver);
    let ghost full_name = action_name(action@);
    let prefix: String = join_name(action.package.as_str(), "action", action.name.as_str());
    let goal: Result<Arc<MessageSchema>, DynamicError> = parsed_message_to_schema_named(
        &action.goal,
        with_suffix(prefix.as_str(), "_Goal").as_str(),
        resolver,
    );
    assert(message_outcome(
        may_answer,
        no_hints(),
        action@.goal,
        full_name + "_Goal"@,
        outcome(goal),
    ));
    let goal: Arc<MessageSchema> = match goal {
        Ok(goal) => goal,
        Err(error) => {
            assert(action_parts_outcome(may_answer, action@, Err(error@)));
            return Err(error);
        },
    };
    let ghost goal_model = goal@;
    let ghost mut result_model: Option<SchemaModel> = None;
    let ghost mut feedback_model: Option<SchemaModel> = None;
    let mut schemas: Vec<Arc<MessageSchema>> = vec![goal];
    assert(schemas.deep_view() =~= seq![goal_model]);
    match &action.result {
        Some(result) => {
            match parsed_message_to_schema_named(
                result,
                with_suffix(prefix.as_str(), "_Result").as_str(),
                resolver,
            ) {
                Ok(schema) => {
                    proof {
                        result_model = Some(schema@);
                    }
                    schemas.push(schema);
                    assert(schemas.deep_view() =~= seq![goal_model] + as_seq(result_model));
                },
                Err(error) => {
                    assert(optional_outcome(
                        may_answer,
                        action@.result,
                        full_name + "_Result"@,
                        Err(error@),
                    ));
                    assert(action_parts_outcome(may_answer, action@, Err(error@)));
                    return Err(error);
                },
            }
        },
        None => {},
    }
    assert(schemas.deep_view() =~= seq![goal_model] + as_seq(result_model));
    assert(optional_outcome(
        may_answer,
        action@.result,
        full_name + "_Result"@,
        Ok(result_model),
    ));
    match &action.feedback {
        Some(feedback) => {
            match parsed_message_to_schema_named(
                feedback,
                with_suffix(prefix.as_str(), "_Feedback").as_str(),
                resolver,
            ) {
                Ok(schema) => {
                    proof {
                        feedback_model = Some(schema@);
                    }
                    schemas.push(schema);
                    assert(schemas.deep_view() =~= seq![goal_model] + as_seq(result_model) + as_seq(
                        feedback_model,
                    ));
                },
                Err(error) => {
                    assert(optional_outcome(
                        may_answer,
                        action@.feedback,
                        full_name + "_Feedback"@,
                        Err(error@),
                    ));
                    assert(action_parts_outcome(may_answer, action@, Err(error@)));
                    return Err(error);
                },
            }
        },
        None => {},
    }
    proof {
        let parts = ActionParts {
            goal: goal_model,
            result: result_model,
            feedback: feedback_model,
        };
        assert(optional_outcome(
            may_answer,
            action@.feedback,
            full_name + "_Feedback"@,
            Ok(feedback_model),
        ));
        assert(action_parts_outcome(may_answer, action@, Ok(parts)));
        assert(schemas.deep_view() =~= present_parts(parts));
    }
    Ok(schemas)
}

/// The message type of goal identifiers.
pub open spec fn uuid_name() -> Seq<char> {
    "unique_identifier_msgs/msg/UUID"@
}

/// The message type of time stamps.
pub open spec fn time_name() -> Seq<char> {
    "builtin_interfaces/msg/Time"@
}

/// The schemas that an action is described with: its own parts, the message types
/// that every action uses, and the event particulars of its two services.
pub struct ActionInputs {
    pub goal: SchemaModel,
    pub result: SchemaModel,
    pub feedback: SchemaModel,
    pub uuid: SchemaModel,
    pub time: SchemaModel,
    pub send_goal_info: SchemaModel,
    pub get_result_info: SchemaModel,
}

/// The request that sends a goal.
pub open spec fn send_goal_request(prefix: Seq<char>, inputs: ActionInputs) -> SchemaModel {
    schema_of(
        prefix + "_SendGoal_Request"@,
        seq![message_field("goal_id"@, inputs.uuid), message_field("goal"@, inputs.goal)],
    )
}

/// The response that accepts or rejects a goal.
pub open spec fn send_goal_response(prefix: Seq<char>, inputs: ActionInputs) -> SchemaModel {
    schema_of(
        prefix + "_SendGoal_Response"@,
        seq![
            FieldModel { name: "accepted"@, field_type: TypeModel::Bool },
            message_field("stamp"@, inputs.time),
        ],
    )
}

/// The request for the result of a goal.
pub open spec fn get_result_request(prefix: Seq<char>, inputs: ActionInputs) -> SchemaModel {
    schema_of(prefix + "_GetResult_Request"@, seq![message_field("goal_id"@, inputs.uuid)])
}

/// The response with the result of a goal.
pub open spec fn get_result_response(prefix: Seq<char>, inputs: ActionInputs) -> SchemaModel {
    schema_of(
        prefix + "_GetResult_Response"@,
        seq![
            FieldModel { name: "status"@, field_type: TypeModel::Int8 },
            message_field("result"@, inputs.result),
        ],
    )
}

/// The schemas of the service that sends a goal.
pub open spec fn send_goal_set(prefix: Seq<char>, inputs: ActionInputs) -> Seq<SchemaModel> {
    service_set(
        prefix + "_SendGoal"@,
        send_goal_request(prefix, inputs),
        send_goal_response(prefix, inputs),
        inputs.send_goal_info,
    )
}

/// The schemas of the service that fetches a result.
pub open spec fn get_result_set(prefix: Seq<char>, inputs: ActionInputs) -> Seq<SchemaModel> {
    service_set(
        prefix + "_GetResult"@,
        get_result_request(prefix, inputs),
        get_result_response(prefix, inputs),
        inputs.get_result_info,
    )
}

/// The message that publishes feedback on a goal.
pub open spec fn feedback_message(prefix: Seq<char>, inputs: ActionInputs) -> SchemaModel {
    schema_of(
        prefix + "_FeedbackMessage"@,
        seq![message_field("goal_id"@, inputs.uuid), message_field("feedback"@, inputs.feedback)],
    )
}

/// The description of an action.
pub open spec fn action_schema(prefix: Seq<char>, inputs: ActionInputs) -> SchemaModel {
    schema_of(
        prefix,
        seq![
            message_field("goal"@, inputs.goal),
            message_field("result"@, inputs.result),
            message_field("feedback"@, inputs.feedback),
            message_field("send_goal_service"@, send_goal_set(prefix, inputs).last()),
            message_field("get_result_service"@, get_result_set(prefix, inputs).last()),
            message_field("feedback_message"@, feedback_message(prefix, inputs)),
        ],
    )
}

/// Every schema of an action.
pub open spec fn action_set(prefix: Seq<char>, inputs: ActionInputs) -> Seq<SchemaModel> {
    seq![inputs.goal, inputs.result, inputs.feedback] + send_goal_set(prefix, inputs)
        + get_result_set(prefix, inputs) + seq![
        feedback_message(prefix, inputs),
        action_schema(prefix, inputs),
    ]
}

/// What comes of completing the schemas of an action that has all its parts. The
/// message types that every action uses are looked up one after the other, the
/// event particulars once for each of the two services.
pub open spec fn completed_outcome(
    may_answer: Answers,
    prefix: Seq<char>,
    goal: SchemaModel,
    result: SchemaModel,
    feedback: SchemaModel,
    out: Result<Seq<SchemaModel>, ErrorModel>,
) -> bool {
    match out {
        Ok(schemas) => exists|inputs: ActionInputs|
            {
                &&& #[trigger] action_set(prefix, inputs) == schemas
                &&& inputs.goal == goal
                &&& inputs.result == result
                &&& inputs.feedback == feedback
                &&& may_answer(uuid_name(), Some(inputs.uuid))
                &&& may_answer(time_name(), Some(inputs.time))
                &&& may_answer(event_info_name(), Some(inputs.send_goal_info))
                &&& may_answer(event_info_name(), Some(inputs.get_result_info))
            },
        Err(error) => {
            ||| error == ErrorModel::SchemaNotFound(uuid_name()) && may_answer(uuid_name(), None)
            ||| {
                &&& may_find(may_answer, uuid_name())
                &&& error == ErrorModel::SchemaNotFound(time_name())
                &&& may_answer(time_name(), None)
            }
            ||| {
                &&& may_find(may_answer, uuid_name())
                &&& may_find(may_answer, time_name())
                &&& error == ErrorModel::SchemaNotFound(event_info_name())
                &&& may_answer(event_info_name(), None)
            }
        },
    }
}

/// Whether a lookup of that name may succeed.
pub open spec fn may_find(may_answer: Answers, name: Seq<char>) -> bool {
    exists|schema: SchemaModel| #[trigger] may_answer(name, Some(schema))
}

/// What comes of building every schema of an action. An action without a result or
/// without feedback cannot be described.
pub open spec fn action_wire_outcome(
    may_answer: Answers,
    action: ActionDef,
    out: Result<Seq<SchemaModel>, ErrorModel>,
) -> bool {
    let prefix = action_name(action);
    exists|parts: Result<ActionParts, ErrorModel>|
        {
            &&& #[trigger] action_parts_outcome(may_answer, action, parts)
            &&& match parts {
                Err(error) => out == Err::<Seq<SchemaModel>, ErrorModel>(error),
                Ok(parts) => match (parts.result, parts.feedback) {
                    (None, _) => out == Err::<Seq<SchemaModel>, ErrorModel>(
                        ErrorModel::SchemaNotFound(prefix + "_Result"@),
                    ),
                    (Some(_), None) => out == Err::<Seq<SchemaModel>, ErrorModel>(
                        ErrorModel::SchemaNotFound(prefix + "_Feedback"@),
                    ),
                    (Some(result), Some(feedback)) => completed_outcome(
                        may_answer,
                        prefix,
                        parts.goal,
                        result,
                        feedback,
                        out,
                    ),
                },
            }
        }
}

/// The parts of an action are found under their names, and under these only.
proof fn lemma_parts_by_name(may_answer: Answers, action: ActionDef, parts: ActionParts)
    requires
        action_parts_outcome(may_answer, action, Ok(parts)),
    ensures
        ({
            let prefix = action_name(action);
            let schemas = present_parts(parts);
            &&& canonical_parts(prefix) is Some
            &&& first_named(schemas, prefix + "_Goal"@) == Some(parts.goal)
            &&& first_named(schemas, prefix + "_Result"@) == parts.result
            &&& first_named(schemas, prefix + "_Feedback"@) == parts.feedback
        }),
{
    let prefix = action_name(action);
    let schemas = present_parts(parts);
    reveal_strlit("_Goal");
    reveal_strlit("_Result");
    reveal_strlit("_Feedback");
    lemma_canonical_suffix(prefix, "_Goal"@);
    let a = prefix + "_Goal"@;
    let b = prefix + "_Result"@;
    let c = prefix + "_Feedback"@;
    assert(a.len() != b.len() && b.len() != c.len() && a.len() != c.len());
    assert(parts.goal.full_name == a);
    assert(parts.result is Some ==> parts.result->0.full_name == b);
    assert(parts.feedback is Some ==> parts.feedback->0.full_name == c);
    reveal_with_fuel(first_named, 4);
    let rest = as_seq(parts.result) + as_seq(parts.feedback);
    assert(schemas.drop_first() =~= rest);
    if parts.result is Some {
        assert(rest.drop_first() =~= as_seq(parts.feedback));
    } else {
        assert(rest =~= as_seq(parts.feedback));
    }
    if parts.feedback is Some {
        assert(as_seq(parts.feedback).drop_first() =~= Seq::<SchemaModel>::empty());
    }
}

/// The derived names of an action are canonical if the name of the action is.
proof fn lemma_derived_names(prefix: Seq<char>)
    requires
        canonical_parts(prefix) is Some,
    ensures
        canonical_parts(prefix + "_SendGoal"@) is Some,
        canonical_parts(prefix + "_SendGoal_Request"@) is Some,
        canonical_parts(prefix + "_SendGoal_Response"@) is Some,
        canonical_parts(prefix + "_GetResult"@) is Some,
        canonical_parts(prefix + "_GetResult_Request"@) is Some,
        canonical_parts(prefix + "_GetResult_Response"@) is Some,
        canonical_parts(prefix + "_FeedbackMessage"@) is Some,
{
    reveal_strlit("_SendGoal");
    reveal_strlit("_SendGoal_Request");
    reveal_strlit("_SendGoal_Response");
    reveal_strlit("_GetResult");
    reveal_strlit("_GetResult_Request");
    reveal_strlit("_GetResult_Response");
    reveal_strlit("_FeedbackMessage");
    lemma_canonical_suffix(prefix, "_SendGoal"@);
    lemma_canonical_suffix(prefix, "_SendGoal_Request"@);
    lemma_canonical_suffix(prefix, "_SendGoal_Response"@);
    lemma_canonical_suffix(prefix, "_GetResult"@);
    lemma_canonical_suffix(prefix, "_GetResult_Request"@);
    lemma_canonical_suffix(prefix, "_GetResult_Response"@);
    lemma_canonical_suffix(prefix, "_FeedbackMessage"@);
}

/// Builds every schema of a parsed action: the goal, the result and the feedback,
/// the four schemas of the service that sends a goal and the four of the service
/// that fetches a result, the feedback message and the action description.
pub fn parsed_action_to_wire_schemas<R: Fn(&str) -> Option<Arc<MessageSchema>>>(
    action: &ParsedAction,
    resolver: &R,
) -> (built: Result<Vec<Arc<MessageSchema>>, DynamicError>)
    requires
        total(*resolver),
    ensures
        action_wire_outcome(answers(*resolver), action@, outcome(built)),
{
    let ghost may_answer = answers(*resolver);
    let prefix: String = join_name(action.package.as_str(), "action", action.name.as_str());
    let converted: Result<Vec<Arc<MessageSchema>>, DynamicError> = parsed_action_to_schemas(
        action,
        resolver,
    );
    let ghost parts_outcome = choose|parts: Result<ActionParts, ErrorModel>|
        {
            &&& #[trigger] action_parts_outcome(may_answer, action@, parts)
            &&& outcome(converted) == match parts {
                Err(error) => Err::<Seq<SchemaModel>, ErrorModel>(error),
                Ok(parts) => Ok(present_parts(parts)),
            }
        };
    let mut schemas: Vec<Arc<MessageSchema>> = match converted {
        Ok(schemas) => schemas,
        Err(error) => {
            return Err(error);
        },
    };
    let ghost parts = parts_outcome->Ok_0;
    proof {
        lemma_parts_by_name(may_answer, action@, parts);
        lemma_derived_names(prefix@);
    }
    let goal: Arc<MessageSchema> = match schema_named(
        &schemas,
        with_suffix(prefix.as_str(), "_Goal").as_str(),
    ) {
        Ok(goal) => goal,
        Err(error) => {
            return Err(error);
        },
    };
    let result: Arc<MessageSchema> = match schema_named(
        &schemas,
        with_suffix(prefix.as_str(), "_Result").as_str(),
    ) {
        Ok(result) => result,
        Err(error) => {
            return Err(error);
        },
    };
    let feedback: Arc<MessageSchema> = match schema_named(
        &schemas,
        with_suffix(prefix.as_str(), "_Feedback").as_str(),
    ) {
        Ok(feedback) => feedback,
        Err(error) => {
            return Err(error);
        },
    };
    assert(schemas.deep_view() =~= seq![goal@, result@, feedback@]);
    let uuid: Arc<MessageSchema> = match resolve_required(
        "unique_identifier_msgs/msg/UUID",
        resolver,
    ) {
        Ok(uuid) => uuid,
        Err(error) => {
            return Err(error);
        },
    };
    assert(may_answer(uuid_name(), Some(uuid@)));
    let time: Arc<MessageSchema> = match resolve_required("builtin_interfaces/msg/Time", resolver) {
        Ok(time) => time,
        Err(error) => {
            return Err(error);
        },
    };
    assert(may_answer(time_name(), Some(time@)));
    let ghost inputs = ActionInputs {
        goal: goal@,
        result: result@,
        feedback: feedback@,
        uuid: uuid@,
        time: time@,
        send_goal_info: arbitrary(),
        get_result_info: arbitrary(),
    };

    let request_fields: Vec<FieldSchema> =
        vec![FieldSchema::message("goal_id", &uuid), FieldSchema::message("goal", &goal)];
    assert(request_fields.deep_view() =~= seq![
        message_field("goal_id"@, uuid@),
        message_field("goal"@, goal@),
    ]);
    let request: Arc<MessageSchema> = match synthetic_schema(
        with_suffix(prefix.as_str(), "_SendGoal_Request").as_str(),
        request_fields,
    ) {
        Ok(request) => request,
        Err(error) => {
            return Err(error);
        },
    };
    let response_fields: Vec<FieldSchema> =
        vec![FieldSchema::new("accepted", FieldType::Bool), FieldSchema::message("stamp", &time)];
    assert(response_fields.deep_view() =~= seq![
        FieldModel { name: "accepted"@, field_type: TypeModel::Bool },
        message_field("stamp"@, time@),
    ]);
    let response: Arc<MessageSchema> = match synthetic_schema(
        with_suffix(prefix.as_str(), "_SendGoal_Response").as_str(),
        response_fields,
    ) {
        Ok(response) => response,
        Err(error) => {
            return Err(error);
        },
    };
    assert(request@ == send_goal_request(prefix@, inputs));
    assert(response@ == send_goal_response(prefix@, inputs));
    let send_goal: Result<Vec<Arc<MessageSchema>>, DynamicError> = service_schema_set(
        with_suffix(prefix.as_str(), "_SendGoal").as_str(),
        request,
        response,
        resolver,
    );
    let ghost send_goal_info = choose|info: Result<SchemaModel, ErrorModel>|
        {
            &&& #[trigger] required_outcome(may_answer, event_info_name(), info)
            &&& outcome(send_goal) == match info {
                Err(error) => Err::<Seq<SchemaModel>, ErrorModel>(error),
                Ok(info) => Ok(
                    service_set(prefix@ + "_SendGoal"@, request@, response@, info),
                ),
            }
        };
    let mut send_goal: Vec<Arc<MessageSchema>> = match send_goal {
        Ok(send_goal) => send_goal,
        Err(error) => {
            return Err(error);
        },
    };
    let ghost inputs = ActionInputs { send_goal_info: send_goal_info->Ok_0, ..inputs };
    assert(send_goal.deep_view() == send_goal_set(prefix@, inputs));
    assert(send_goal.deep_view().len() == 4);
    let send_goal_service: Arc<MessageSchema> = send_goal[send_goal.len() - 1].clone();
    assert(send_goal_service@ == send_goal_set(prefix@, inputs).last());

    let request_fields: Vec<FieldSchema> = vec![FieldSchema::message("goal_id", &uuid)];
    assert(request_fields.deep_view() =~= seq![message_field("goal_id"@, uuid@)]);
    let request: Arc<MessageSchema> = match synthetic_schema(
        with_suffix(prefix.as_str(), "_GetResult_Request").as_str(),
        request_fields,
    ) {
        Ok(request) => request,
        Err(error) => {
            return Err(error);
        },
    };
    let response_fields: Vec<FieldSchema> =
        vec![FieldSchema::new("status", FieldType::Int8), FieldSchema::message("result", &result)];
    assert(response_fields.deep_view() =~= seq![
        FieldModel { name: "status"@, field_type: TypeModel::Int8 },
        message_field("result"@, result@),
    ]);
    let response: Arc<MessageSchema> = match synthetic_schema(
        with_suffix(prefix.as_str(), "_GetResult_Response").as_str(),
        response_fields,
    ) {
        Ok(response) => response,
        Err(error) => {
            return Err(error);
        },
    };
    assert(request@ == get_result_request(prefix@, inputs));
    assert(response@ == get_result_response(prefix@, inputs));
    let get_result: Result<Vec<Arc<MessageSchema>>, DynamicError> = service_schema_set(
        with_suffix(prefix.as_str(), "_GetResult").as_str(),
        request,
        response,
        resolver,
    );
    let ghost get_result_info = choose|info: Result<SchemaModel, ErrorModel>|
        {
            &&& #[trigger] required_outcome(may_answer, event_info_name(), info)
            &&& outcome(get_result) == match info {
                Err(error) => Err::<Seq<SchemaModel>, ErrorModel>(error),
                Ok(info) => Ok(
                    service_set(prefix@ + "_GetResult"@, request@, response@, info),
                ),
            }
        };
    let mut get_result: Vec<Arc<MessageSchema>> = match get_result {
        Ok(get_result) => get_result,
        Err(error) => {
            return Err(error);
        },
    };
    let ghost inputs = ActionInputs { get_result_info: get_result_info->Ok_0, ..inputs };
    assert(get_result.deep_view() == get_result_set(prefix@, inputs));
    assert(get_result.deep_view().len() == 4);
    let get_result_service: Arc<MessageSchema> = get_result[get_result.len() - 1].clone();
    assert(get_result_service@ == get_result_set(prefix@, inputs).last());

    let feedback_fields: Vec<FieldSchema> =
        vec![FieldSchema::message("goal_id", &uuid), FieldSchema::message("feedback", &feedback)];
    assert(feedback_fields.deep_view() =~= seq![
        message_field("goal_id"@, uuid@),
        message_field("feedback"@, feedback@),
    ]);
    let feedback_message: Arc<MessageSchema> = match synthetic_schema(
        with_suffix(prefix.as_str(), "_FeedbackMessage").as_str(),
        feedback_fields,
    ) {
        Ok(feedback_message) => feedback_message,
        Err(error) => {
            return Err(error);
        },
    };
    let action_fields: Vec<FieldSchema> =
        vec![
        FieldSchema::message("goal", &goal),
        FieldSchema::message("result", &result),
        FieldSchema::message("feedback", &feedback),
        FieldSchema::message("send_goal_service", &send_goal_service),
        FieldSchema::message("get_result_service", &get_result_service),
        FieldSchema::message("feedback_message", &feedback_message),
    ];
    assert(action_fields.deep_view() =~= seq![
        message_field("goal"@, goal@),
        message_field("result"@, result@),
        message_field("feedback"@, feedback@),
        message_field("send_goal_service"@, send_goal_service@),
        message_field("get_result_service"@, get_result_service@),
        message_field("feedback_message"@, feedback_message@),
    ]);
    let action_schema: Arc<MessageSchema> = match synthetic_schema(prefix.as_str(), action_fields) {
        Ok(action_schema) => action_schema,
        Err(error) => {
            return Err(error);
        },
    };
    let ghost tail = seq![feedback_message@, action_schema@];
    schemas.append(&mut send_goal);
    schemas.append(&mut get_result);
    schemas.push(feedback_message);
    schemas.push(action_schema);
    proof {
        assert(tail =~= seq![
            self::feedback_message(prefix@, inputs),
            self::action_schema(prefix@, inputs),
        ]);
        assert(schemas.deep_view() =~= action_set(prefix@, inputs));
    }
    Ok(schemas)
}

/// The schemas of an action bear the ROS names of its parts, of its two services, of its
/// feedback message and of the action itself.
pub proof fn law_action_wire_names(
    may_answer: Answers,
    action: ActionDef,
    schemas: Seq<SchemaModel>,
)
    requires
        action_wire_outcome(may_answer, action, Ok(schemas)),
    ensures
        schemas.map_values(|schema: SchemaModel| schema.full_name) == seq![
            action_name(action) + "_Goal"@,
            action_name(action) + "_Result"@,
            action_name(action) + "_Feedback"@,
            action_name(action) + "_SendGoal_Request"@,
            action_name(action) + "_SendGoal_Response"@,
            action_name(action) + "_SendGoal"@ + "_Event"@,
            action_name(action) + "_SendGoal"@,
            action_name(action) + "_GetResult_Request"@,
            action_name(action) + "_GetResult_Response"@,
            action_name(action) + "_GetResult"@ + "_Event"@,
            action_name(action) + "_GetResult"@,
            action_name(action) + "_FeedbackMessage"@,
            action_name(action),
        ],
{
    assert(schemas.map_values(|schema: SchemaModel| schema.full_name) =~= seq![
        action_name(action) + "_Goal"@,
        action_name(action) + "_Result"@,
        action_name(action) + "_Feedback"@,
        action_name(action) + "_SendGoal_Request"@,
        action_name(action) + "_SendGoal_Response"@,
        action_name(action) + "_SendGoal"@ + "_Event"@,
        action_name(action) + "_SendGoal"@,
        action_name(action) + "_GetResult_Request"@,
        action_name(action) + "_GetResult_Response"@,
        action_name(action) + "_GetResult"@ + "_Event"@,
        action_name(action) + "_GetResult"@,
        action_name(action) + "_FeedbackMessage"@,
        action_name(action),
    ]);
}

/// The schemas of an action begin with its converted goal, result and feedback.
pub proof fn law_action_wire_begins_with_the_parts(
    may_answer: Answers,
    action: ActionDef,
    schemas: Seq<SchemaModel>,
)
    requires
        action_wire_outcome(may_answer, action, Ok(schemas)),
    ensures
        action_outcome(may_answer, action, Ok(schemas.take(3))),
{
    let parts = choose|parts: Result<ActionParts, ErrorModel>|
        {
            &&& #[trigger] action_parts_outcome(may_answer, action, parts)
            &&& parts is Ok
            &&& parts->Ok_0.result is Some
            &&& parts->Ok_0.feedback is Some
            &&& completed_outcome(
                may_answer,
                action_name(action),
                parts->Ok_0.goal,
                parts->Ok_0.result->0,
                parts->Ok_0.feedback->0,
                Ok(schemas),
            )
        };
    assert(schemas.take(3) =~= present_parts(parts->Ok_0));
}

/// An action without a result or without feedback has no complete set of schemas.
pub proof fn law_action_wire_needs_all_parts(
    may_answer: Answers,
    action: ActionDef,
    out: Result<Seq<SchemaModel>, ErrorModel>,
)
    requires
        action.result is None || action.feedback is None,
        action_wire_outcome(may_answer, action, out),
    ensures
        out is Err,
{
}

/// With a resolver that answers always alike, the parts of an action have one outcome.
proof fn lemma_action_parts_are_determined(
    may_answer: Answers,
    action: ActionDef,
    a: Result<ActionParts, ErrorModel>,
    b: Result<ActionParts, ErrorModel>,
)
    requires
        consistent(may_answer),
        action_parts_outcome(may_answer, action, a),
        action_parts_outcome(may_answer, action, b),
    ensures
        a == b,
{
    assert forall|
        msg: MessageDef,
        name: Seq<char>,
        x: Result<SchemaModel, ErrorModel>,
        y: Result<SchemaModel, ErrorModel>,
    | #[trigger]
        message_outcome(may_answer, no_hints(), msg, name, x) && #[trigger] message_outcome(
            may_answer,
            no_hints(),
            msg,
            name,
            y,
        ) implies x == y by {
        law_conversion_is_determined(may_answer, no_hints(), msg, name, x, y);
    }
    assert forall|
        msg: Option<MessageDef>,
        name: Seq<char>,
        x: Result<Option<SchemaModel>, ErrorModel>,
        y: Result<Option<SchemaModel>, ErrorModel>,
    | #[trigger]
        optional_outcome(may_answer, msg, name, x) && #[trigger] optional_outcome(
            may_answer,
            msg,
            name,
            y,
        ) implies x == y by {}
}

/// With a resolver that answers always alike, an action has one outcome.
pub proof fn law_action_wire_is_determined(
    may_answer: Answers,
    action: ActionDef,
    a: Result<Seq<SchemaModel>, ErrorModel>,
    b: Result<Seq<SchemaModel>, ErrorModel>,
)
    requires
        consistent(may_answer),
        action_wire_outcome(may_answer, action, a),
        action_wire_outcome(may_answer, action, b),
    ensures
        a == b,
{
    assert forall|x: Result<ActionParts, ErrorModel>, y: Result<ActionParts, ErrorModel>|
        #[trigger] action_parts_outcome(may_answer, action, x) && #[trigger] action_parts_outcome(
            may_answer,
            action,
            y,
        ) implies x == y by {
        lemma_action_parts_are_determined(may_answer, action, x, y);
    }
}

/// An action whose package or name holds a slash has no schemas. The name of its goal is
/// what is wrong.
pub proof fn law_action_name_is_checked(
    may_answer: Answers,
    action: ActionDef,
    out: Result<Seq<SchemaModel>, ErrorModel>,
)
    requires
        !slash_free(action.package) || !slash_free(action.name),
        action_wire_outcome(may_answer, action, out),
    ensures
        out == Err::<Seq<SchemaModel>, ErrorModel>(
            ErrorModel::InvalidTypeName(action_name(action) + "_Goal"@),
        ),
{
    reveal_strlit("action");
    reveal_strlit("_Goal");
    law_slashes_spoil_a_name(action.package, "action"@, action.name);
    lemma_canonical_suffix(action_name(action), "_Goal"@);
}

/// The schemas of a parsed action, field by field: the converted goal, result and feedback,
/// and the services and messages made of them, whatever their fields.
pub proof fn law_action_wire_field_by_field(
    may_answer: Answers,
    action: ActionDef,
    schemas: Seq<SchemaModel>,
)
    requires
        action_wire_outcome(may_answer, action, Ok(schemas)),
    ensures
        schemas.len() == 13,
        action.result is Some,
        action.feedback is Some,
        ({
            let prefix = action.package + "/action/"@ + action.name;
            &&& message_outcome(
                may_answer,
                no_hints(),
                action.goal,
                prefix + "_Goal"@,
                Ok(schemas[0]),
            )
            &&& message_outcome(
                may_answer,
                no_hints(),
                action.result->0,
                prefix + "_Result"@,
                Ok(schemas[1]),
            )
            &&& message_outcome(
                may_answer,
                no_hints(),
                action.feedback->0,
                prefix + "_Feedback"@,
                Ok(schemas[2]),
            )
        }),
        ({
            let prefix = action.package + "/action/"@ + action.name;
            &&& schemas[3].full_name == prefix + "_SendGoal_Request"@
            &&& schemas[3].package == action.package
            &&& schemas[3].name == action.name + "_SendGoal_Request"@
            &&& schemas[3].type_hash is None
            &&& schemas[4].full_name == prefix + "_SendGoal_Response"@
            &&& schemas[4].package == action.package
            &&& schemas[4].name == action.name + "_SendGoal_Response"@
            &&& schemas[4].type_hash is None
            &&& schemas[5].full_name == prefix + "_SendGoal_Event"@
            &&& schemas[5].package == action.package
            &&& schemas[5].name == action.name + "_SendGoal_Event"@
            &&& schemas[5].type_hash is None
            &&& schemas[6].full_name == prefix + "_SendGoal"@
            &&& schemas[6].package == action.package
            &&& schemas[6].name == action.name + "_SendGoal"@
            &&& schemas[6].type_hash is None
            &&& schemas[7].full_name == prefix + "_GetResult_Request"@
            &&& schemas[7].package == action.package
            &&& schemas[7].name == action.name + "_GetResult_Request"@
            &&& schemas[7].type_hash is None
            &&& schemas[8].full_name == prefix + "_GetResult_Response"@
            &&& schemas[8].package == action.package
            &&& schemas[8].name == action.name + "_GetResult_Response"@
            &&& schemas[8].type_hash is None
            &&& schemas[9].full_name == prefix + "_GetResult_Event"@
            &&& schemas[9].package == action.package
            &&& schemas[9].name == action.name + "_GetResult_Event"@
            &&& schemas[9].type_hash is None
            &&& schemas[10].full_name == prefix + "_GetResult"@
            &&& schemas[10].package == action.package
            &&& schemas[10].name == action.name + "_GetResult"@
            &&& schemas[10].type_hash is None
            &&& schemas[11].full_name == prefix + "_FeedbackMessage"@
            &&& schemas[11].package == action.package
            &&& schemas[11].name == action.name + "_FeedbackMessage"@
            &&& schemas[11].type_hash is None
            &&& schemas[12].full_name == prefix
            &&& schemas[12].package == action.package
            &&& schemas[12].name == action.name
            &&& schemas[12].type_hash is None
        }),
        ({
            let uuid = *(schemas[3].fields[0].field_type->Message_0);
            let time = *(schemas[4].fields[1].field_type->Message_0);
            let sending = *(schemas[5].fields[0].field_type->Message_0);
            let fetching = *(schemas[9].fields[0].field_type->Message_0);
            &&& may_answer("unique_identifier_msgs/msg/UUID"@, Some(uuid))
            &&& may_answer("builtin_interfaces/msg/Time"@, Some(time))
            &&& may_answer("service_msgs/msg/ServiceEventInfo"@, Some(sending))
            &&& may_answer("service_msgs/msg/ServiceEventInfo"@, Some(fetching))
            &&& schemas[3].fields.len() == 2
            &&& schemas[3].fields[0].name == "goal_id"@
            &&& schemas[3].fields[0].field_type == TypeModel::Message(Box::new(uuid))
            &&& schemas[3].fields[1].name == "goal"@
            &&& schemas[3].fields[1].field_type == TypeModel::Message(Box::new(schemas[0]))
            &&& schemas[4].fields.len() == 2
            &&& schemas[4].fields[0].name == "accepted"@
            &&& schemas[4].fields[0].field_type == TypeModel::Bool
            &&& schemas[4].fields[1].name == "stamp"@
            &&& schemas[4].fields[1].field_type == TypeModel::Message(Box::new(time))
            &&& schemas[5].fields.len() == 3
            &&& schemas[5].fields[0].name == "info"@
            &&& schemas[5].fields[0].field_type == TypeModel::Message(Box::new(sending))
            &&& schemas[5].fields[1].name == "request"@
            &&& schemas[5].fields[1].field_type == TypeModel::BoundedSequence(
                Box::new(TypeModel::Message(Box::new(schemas[3]))),
                1,
            )
            &&& schemas[5].fields[2].name == "response"@
            &&& schemas[5].fields[2].field_type == TypeModel::BoundedSequence(
                Box::new(TypeModel::Message(Box::new(schemas[4]))),
                1,
            )
            &&& schemas[6].fields.len() == 3
            &&& schemas[6].fields[0].name == "request_message"@
            &&& schemas[6].fields[0].field_type == TypeModel::Message(Box::new(schemas[3]))
            &&& schemas[6].fields[1].name == "response_message"@
            &&& schemas[6].fields[1].field_type == TypeModel::Message(Box::new(schemas[4]))
            &&& schemas[6].fields[2].name == "event_message"@
            &&& schemas[6].fields[2].field_type == TypeModel::Message(Box::new(schemas[5]))
            &&& schemas[7].fields.len() == 1
            &&& schemas[7].fields[0].name == "goal_id"@
            &&& schemas[7].fields[0].field_type == TypeModel::Message(Box::new(uuid))
            &&& schemas[8].fields.len() == 2
            &&& schemas[8].fields[0].name == "status"@
            &&& schemas[8].fields[0].field_type == TypeModel::Int8
            &&& schemas[8].fields[1].name == "result"@
            &&& schemas[8].fields[1].field_type == TypeModel::Message(Box::new(schemas[1]))
            &&& schemas[9].fields.len() == 3
            &&& schemas[9].fields[0].name == "info"@
            &&& schemas[9].fields[0].field_type == TypeModel::Message(Box::new(fetching))
            &&& schemas[9].fields[1].name == "request"@
            &&& schemas[9].fields[1].field_type == TypeModel::BoundedSequence(
                Box::new(TypeModel::Message(Box::new(schemas[7]))),
                1,
            )
            &&& schemas[9].fields[2].name == "response"@
            &&& schemas[9].fields[2].field_type == TypeModel::BoundedSequence(
                Box::new(TypeModel::Message(Box::new(schemas[8]))),
                1,
            )
            &&& schemas[10].fields.len() == 3
            &&& schemas[10].fields[0].name == "request_message"@
            &&& schemas[10].fields[0].field_type == TypeModel::Message(Box::new(schemas[7]))
            &&& schemas[10].fields[1].name == "response_message"@
            &&& schemas[10].fields[1].field_type == TypeModel::Message(Box::new(schemas[8]))
            &&& schemas[10].fields[2].name == "event_message"@
            &&& schemas[10].fields[2].field_type == TypeModel::Message(Box::new(schemas[9]))
            &&& schemas[11].fields.len() == 2
            &&& schemas[11].fields[0].name == "goal_id"@
            &&& schemas[11].fields[0].field_type == TypeModel::Message(Box::new(uuid))
            &&& schemas[11].fields[1].name == "feedback"@
            &&& schemas[11].fields[1].field_type == TypeModel::Message(Box::new(schemas[2]))
            &&& schemas[12].fields.len() == 6
            &&& schemas[12].fields[0].name == "goal"@
            &&& schemas[12].fields[0].field_type == TypeModel::Message(Box::new(schemas[0]))
            &&& schemas[12].fields[1].name == "result"@
            &&& schemas[12].fields[1].field_type == TypeModel::Message(Box::new(schemas[1]))
            &&& schemas[12].fields[2].name == "feedback"@
            &&& schemas[12].fields[2].field_type == TypeModel::Message(Box::new(schemas[2]))
            &&& schemas[12].fields[3].name == "send_goal_service"@
            &&& schemas[12].fields[3].field_type == TypeModel::Message(Box::new(schemas[6]))
            &&& schemas[12].fields[4].name == "get_result_service"@
            &&& schemas[12].fields[4].field_type == TypeModel::Message(Box::new(schemas[10]))
            &&& schemas[12].fields[5].name == "feedback_message"@
            &&& schemas[12].fields[5].field_type == TypeModel::Message(Box::new(schemas[11]))
        }),
{
    let prefix = action_name(action);
    lemma_action_name(action);
    reveal_strlit("action");
    if !slash_free(action.package) || !slash_free(action.name) {
        law_action_name_is_checked(may_answer, action, Ok(schemas));
    }
    law_split_canonical_of_join(action.package, "action"@, action.name);
    let parts = choose|parts: Result<ActionParts, ErrorModel>|
        {
            &&& #[trigger] action_parts_outcome(may_answer, action, parts)
            &&& parts is Ok
            &&& parts->Ok_0.result is Some
            &&& parts->Ok_0.feedback is Some
            &&& completed_outcome(
                may_answer,
                prefix,
                parts->Ok_0.goal,
                parts->Ok_0.result->0,
                parts->Ok_0.feedback->0,
                Ok(schemas),
            )
        };
    let inputs = choose|inputs: ActionInputs|
        {
            &&& #[trigger] action_set(prefix, inputs) == schemas
            &&& inputs.goal == parts->Ok_0.goal
            &&& inputs.result == parts->Ok_0.result->0
            &&& inputs.feedback == parts->Ok_0.feedback->0
            &&& may_answer(uuid_name(), Some(inputs.uuid))
            &&& may_answer(time_name(), Some(inputs.time))
            &&& may_answer(event_info_name(), Some(inputs.send_goal_info))
            &&& may_answer(event_info_name(), Some(inputs.get_result_info))
        };
    assert(schemas =~= action_set(prefix, inputs));
    lemma_derived_parts(prefix);
}

/// The name of an action.
proof fn lemma_action_name(action: ActionDef)
    ensures
        action_name(action) == action.package + "/action/"@ + action.name,
{
    reveal_strlit("/action/");
    reveal_strlit("action");
    assert(action_name(action) =~= action.package + "/action/"@ + action.name);
}

/// The parts of the names that are derived from the name of an action.
proof fn lemma_derived_parts(prefix: Seq<char>)
    requires
        canonical_parts(prefix) is Some,
    ensures
        ({
            let (package, kind, name) = canonical_parts(prefix)->0;
            &&& canonical_parts(prefix + "_SendGoal_Request"@) == Some(
                (package, kind, name + "_SendGoal_Request"@),
            )
            &&& canonical_parts(prefix + "_SendGoal_Response"@) == Some(
                (package, kind, name + "_SendGoal_Response"@),
            )
            &&& canonical_parts(prefix + "_SendGoal_Event"@) == Some(
                (package, kind, name + "_SendGoal_Event"@),
            )
            &&& canonical_parts(prefix + "_SendGoal"@) == Some((package, kind, name + "_SendGoal"@))
            &&& canonical_parts(prefix + "_GetResult_Request"@) == Some(
                (package, kind, name + "_GetResult_Request"@),
            )
            &&& canonical_parts(prefix + "_GetResult_Response"@) == Some(
                (package, kind, name + "_GetResult_Response"@),
            )
            &&& canonical_parts(prefix + "_GetResult_Event"@) == Some(
                (package, kind, name + "_GetResult_Event"@),
            )
            &&& canonical_parts(prefix + "_GetResult"@) == Some(
                (package, kind, name + "_GetResult"@),
            )
            &&& canonical_parts(prefix + "_FeedbackMessage"@) == Some(
                (package, kind, name + "_FeedbackMessage"@),
            )
            &&& prefix + "_SendGoal"@ + "_Event"@ == prefix + "_SendGoal_Event"@
            &&& prefix + "_GetResult"@ + "_Event"@ == prefix + "_GetResult_Event"@
        }),
{
    reveal_strlit("_Event");
    reveal_strlit("_SendGoal_Request");
    lemma_canonical_suffix(prefix, "_SendGoal_Request"@);
    reveal_strlit("_SendGoal_Response");
    lemma_canonical_suffix(prefix, "_SendGoal_Response"@);
    reveal_strlit("_SendGoal_Event");
    lemma_canonical_suffix(prefix, "_SendGoal_Event"@);
    reveal_strlit("_SendGoal");
    lemma_canonical_suffix(prefix, "_SendGoal"@);
    reveal_strlit("_GetResult_Request");
    lemma_canonical_suffix(prefix, "_GetResult_Request"@);
    reveal_strlit("_GetResult_Response");
    lemma_canonical_suffix(prefix, "_GetResult_Response"@);
    reveal_strlit("_GetResult_Event");
    lemma_canonical_suffix(prefix, "_GetResult_Event"@);
    reveal_strlit("_GetResult");
    lemma_canonical_suffix(prefix, "_GetResult"@);
    reveal_strlit("_FeedbackMessage");
    lemma_canonical_suffix(prefix, "_FeedbackMessage"@);
    assert(prefix + "_SendGoal"@ + "_Event"@ =~= prefix + "_SendGoal_Event"@);
    assert(prefix + "_GetResult"@ + "_Event"@ =~= prefix + "_GetResult_Event"@);
}

/// The parts of an action are its goal, its result and its feedback, as far as it has them,
/// in order.
pub proof fn law_action_parts_in_order(
    may_answer: Answers,
    action: ActionDef,
    schemas: Seq<SchemaModel>,
)
    requires
        action_outcome(may_answer, action, Ok(schemas)),
    ensures
        ({
            let prefix = action.package + "/action/"@ + action.name;
            let before_feedback: int = if action.result is Some {
                2
            } else {
                1
            };
            &&& schemas.len() == if action.feedback is Some {
                before_feedback + 1
            } else {
                before_feedback
            }
            &&& message_outcome(
                may_answer,
                no_hints(),
                action.goal,
                prefix + "_Goal"@,
                Ok(schemas[0]),
            )
            &&& action.result matches Some(msg) ==> message_outcome(
                may_answer,
                no_hints(),
                msg,
                prefix + "_Result"@,
                Ok(schemas[1]),
            )
            &&& action.feedback matches Some(msg) ==> message_outcome(
                may_answer,
                no_hints(),
                msg,
                prefix + "_Feedback"@,
                Ok(schemas[before_feedback]),
            )
        }),
{
    lemma_action_name(action);
}

/// The parts of an action fail only as one of its messages does.
pub proof fn law_action_parts_fail_by_a_message(
    may_answer: Answers,
    action: ActionDef,
    error: ErrorModel,
)
    requires
        action_outcome(may_answer, action, Err(error)),
    ensures
        ({
            let prefix = action.package + "/action/"@ + action.name;
            ||| message_outcome(
                may_answer,
                no_hints(),
                action.goal,
                prefix + "_Goal"@,
                Err(error),
            )
            ||| action.result matches Some(msg) && message_outcome(
                may_answer,
                no_hints(),
                msg,
                prefix + "_Result"@,
                Err(error),
            )
            ||| action.feedback matches Some(msg) && message_outcome(
                may_answer,
                no_hints(),
                msg,
                prefix + "_Feedback"@,
                Err(error),
            )
        }),
{
    lemma_action_name(action);
}

/// The schemas of an action cannot be built only if one of its messages cannot be converted,
/// if it has no result or no feedback, or if one of the message types that every action uses
/// is not known. The result is missed before the feedback.
pub proof fn law_action_wire_fails_for_a_reason(
    may_answer: Answers,
    action: ActionDef,
    error: ErrorModel,
)
    requires
        action_wire_outcome(may_answer, action, Err(error)),
    ensures
        ({
            let prefix = action.package + "/action/"@ + action.name;
            ||| action_outcome(may_answer, action, Err(error))
            ||| {
                &&& action.result is None
                &&& error == ErrorModel::SchemaNotFound(prefix + "_Result"@)
            }
            ||| {
                &&& action.result is Some
                &&& action.feedback is None
                &&& error == ErrorModel::SchemaNotFound(prefix + "_Feedback"@)
            }
            ||| {
                &&& action.result is Some
                &&& action.feedback is Some
                &&& exists|name: Seq<char>|
                    {
                        &&& #[trigger] may_answer(name, None)
                        &&& error == ErrorModel::SchemaNotFound(name)
                        &&& {
                            ||| name == "unique_identifier_msgs/msg/UUID"@
                            ||| name == "builtin_interfaces/msg/Time"@
                            ||| name == "service_msgs/msg/ServiceEventInfo"@
                        }
                    }
            }
        }),
{
    lemma_action_name(action);
    let parts = choose|parts: Result<ActionParts, ErrorModel>|
        {
            &&& #[trigger] action_parts_outcome(may_answer, action, parts)
            &&& parts is Err ==> parts->Err_0 == error
            &&& parts is Ok ==> match (parts->Ok_0.result, parts->Ok_0.feedback) {
                (None, _) => error == ErrorModel::SchemaNotFound(
                    action_name(action) + "_Result"@,
                ),
                (Some(_), None) => error == ErrorModel::SchemaNotFound(
                    action_name(action) + "_Feedback"@,
                ),
                (Some(result), Some(feedback)) => completed_outcome(
                    may_answer,
                    action_name(action),
                    parts->Ok_0.goal,
                    result,
                    feedback,
                    Err(error),
                ),
            }
        };
    if parts is Err {
        assert(action_outcome(may_answer, action, Err(error)));
    } else if action.result is Some && action.feedback is Some {
        let name = error->SchemaNotFound_0;
        assert(may_answer(name, None));
    }
}

/// The schema of a name is the first of that name, and none is found only if there is none.
pub proof fn law_first_schema_of_a_name(schemas: Seq<SchemaModel>, full_name: Seq<char>)
    ensures
        match first_named(schemas, full_name) {
            Some(schema) => exists|i: int|
                {
                    &&& 0 <= i < schemas.len()
                    &&& #[trigger] schemas[i] == schema
                    &&& schema.full_name == full_name
                    &&& forall|j: int| 0 <= j < i ==> (#[trigger] schemas[j]).full_name != full_name
                },
            None => forall|i: int|
                0 <= i < schemas.len() ==> (#[trigger] schemas[i]).full_name != full_name,
        },
    decreases schemas.len(),
{
    if schemas.len() > 0 && schemas.first().full_name != full_name {
        let rest = schemas.drop_first();
        law_first_schema_of_a_name(rest, full_name);
        match first_named(rest, full_name) {
            Some(schema) => {
                let i = choose|i: int|
                    {
                        &&& 0 <= i < rest.len()
                        &&& #[trigger] rest[i] == schema
                        &&& schema.full_name == full_name
                        &&& forall|j: int|
                            0 <= j < i ==> (#[trigger] rest[j]).full_name != full_name
                    };
                assert(schemas[i + 1] == schema);
                assert forall|j: int| 0 <= j < i + 1 implies (#[trigger] schemas[j]).full_name
                    != full_name by {
                    if j > 0 {
                        assert(rest[j - 1] == schemas[j]);
                    }
                }
            },
            None => {
                assert forall|i: int| 0 <= i < schemas.len() implies (#[trigger] schemas[i]).full_name
                    != full_name by {
                    if i > 0 {
                        assert(rest[i - 1] == schemas[i]);
                    }
                }
            },
        }
    } else if schemas.len() > 0 {
        assert(schemas[0].full_name == full_name);
    }
}

} // verus!
