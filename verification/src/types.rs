//! Parsed interface definitions: what a `.msg`, `.srv` or `.action` file says of
//! its fields, before the types that it names are resolved.

use vstd::prelude::*;
use vstd::string::*;

verus! {

/// How many items a field holds.
#[derive(Clone, Copy, Debug, PartialEq, Eq)]
pub enum ArrayType {
    /// One item.
    Single,
    /// `type[n]`
    Fixed(usize),
    /// `type[<=n]`
    Bounded(usize),
    /// `type[]`
    Unbounded,
}

/// The type of a field as it is written.
#[derive(Clone, Debug, PartialEq, Eq)]
pub struct FieldType {
    /// The primitive type, or the name of a message type.
    pub base_type: String,
    /// The package of the message type, if the definition gives one.
    pub package: Option<String>,
    pub array: ArrayType,
    /// The bound of a bounded string.
    pub string_bound: Option<usize>,
}

/// A field of a definition.
#[derive(Clone, Debug, PartialEq, Eq)]
pub struct Field {
    pub name: String,
    pub field_type: FieldType,
}

/// A parsed message definition.
#[derive(Clone, Debug, PartialEq, Eq)]
pub struct ParsedMessage {
    pub name: String,
    pub package: String,
    pub fields: Vec<Field>,
}

/// A parsed service definition.
#[derive(Clone, Debug, PartialEq, Eq)]
pub struct ParsedService {
    pub name: String,
    pub package: String,
    pub request: ParsedMessage,
    pub response: ParsedMessage,
}

/// A parsed action definition.
#[derive(Clone, Debug, PartialEq, Eq)]
pub struct ParsedAction {
    pub name: String,
    pub package: String,
    pub goal: ParsedMessage,
    pub result: Option<ParsedMessage>,
    pub feedback: Option<ParsedMessage>,
}

/// The model of a [`Field`].
pub struct FieldDef {
    pub name: Seq<char>,
    pub base_type: Seq<char>,
    pub package: Option<Seq<char>>,
    pub array: ArrayType,
    pub string_bound: Option<usize>,
}

/// The model of a [`ParsedMessage`].
pub struct MessageDef {
    pub name: Seq<char>,
    pub package: Seq<char>,
    pub fields: Seq<FieldDef>,
}

/// The model of a [`ParsedService`].
pub struct ServiceDef {
    pub name: Seq<char>,
    pub package: Seq<char>,
    pub request: MessageDef,
    pub response: MessageDef,
}

/// The model of a [`ParsedAction`].
pub struct ActionDef {
    pub name: Seq<char>,
    pub package: Seq<char>,
    pub goal: MessageDef,
    pub result: Option<MessageDef>,
    pub feedback: Option<MessageDef>,
}

impl DeepView for Field {
    type V = FieldDef;

    open spec fn deep_view(&self) -> FieldDef {
        FieldDef {
            name: self.name@,
            base_type: self.field_type.base_type@,
            package: self.field_type.package.deep_view(),
            array: self.field_type.array,
            string_bound: self.field_type.string_bound,
        }
    }
}

impl DeepView for ParsedMessage {
    type V = MessageDef;

    open spec fn deep_view(&self) -> MessageDef {
        MessageDef {
            name: self.name@,
            package: self.package@,
            fields: self.fields.deep_view(),
        }
    }
}

impl View for Field {
    type V = FieldDef;

    open spec fn view(&self) -> FieldDef {
        self.deep_view()
    }
}

impl View for ParsedMessage {
    type V = MessageDef;

    open spec fn view(&self) -> MessageDef {
        self.deep_view()
    }
}

impl View for ParsedService {
    type V = ServiceDef;

    open spec fn view(&self) -> ServiceDef {
        ServiceDef {
            name: self.name@,
            package: self.package@,
            request: self.request@,
            response: self.response@,
        }
    }
}

impl View for ParsedAction {
    type V = ActionDef;

    open spec fn view(&self) -> ActionDef {
        ActionDef {
            name: self.name@,
            package: self.package@,
            goal: self.goal@,
            result: self.result.deep_view(),
            feedback: self.feedback.deep_view(),
        }
    }
}

/// The model of a definition has the names, the packages and the types of its fields, in
/// order.
pub proof fn law_definition_model(msg: ParsedMessage)
    ensures
        msg@.name == msg.name@,
        msg@.package == msg.package@,
        msg@.fields.len() == msg.fields@.len(),
        forall|i: int| #![trigger msg@.fields[i]] #![trigger msg.fields@[i]]
            0 <= i < msg.fields@.len() ==> {
                let field = msg.fields@[i];
                let model = msg@.fields[i];
                &&& field@ == model
                &&& model.name == field.name@
                &&& model.base_type == field.field_type.base_type@
                &&& model.array == field.field_type.array
                &&& model.string_bound == field.field_type.string_bound
                &&& match field.field_type.package {
                    Some(package) => model.package == Some(package@),
                    None => model.package is None,
                }
            },
{
}

/// The model of a service has its names and its messages.
pub proof fn law_service_model(service: ParsedService)
    ensures
        service@.name == service.name@,
        service@.package == service.package@,
        service@.request == service.request@,
        service@.response == service.response@,
{
}

/// The model of an action has its names and its messages, as far as it has them.
pub proof fn law_action_model(action: ParsedAction)
    ensures
        action@.name == action.name@,
        action@.package == action.package@,
        action@.goal == action.goal@,
        match action.result {
            Some(msg) => action@.result == Some(msg@),
            None => action@.result is None,
        },
        match action.feedback {
            Some(msg) => action@.feedback == Some(msg@),
            None => action@.feedback is None,
        },
{
}

} // verus!
