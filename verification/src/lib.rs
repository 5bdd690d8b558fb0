//! Message schemas known at run time, for tools that work with any ROS message type.
//!
//! A schema says which fields a message type has. Schemas are built from parsed interface
//! definitions, kept in a registry, and loaded together with the schemas of the messages
//! nested in them.

pub mod action;
pub mod convert;
pub mod embedded;
pub mod error;
pub mod failure;
pub mod load;
pub mod msg_path;
pub mod names;
pub mod registry;
pub mod schema;
pub mod service;
pub mod text;
pub mod types;

pub use action::{parsed_action_to_schemas, parsed_action_to_wire_schemas, schema_named};
pub use convert::{
    parsed_message_to_schema, parsed_message_to_schema_named,
    parsed_message_to_schema_named_with_references, resolve_required,
};
pub use embedded::{embedded_msg_source, msg_source_in, EMBEDDED_MSGS};
pub use error::DynamicError;
pub use failure::LoadFailure;
pub use load::{load_schema, load_schema_from, load_schema_inner, MsgSource};
pub use msg_path::{find_msg_file, MsgPath};
pub use names::{split_canonical, split_msg_type};
pub use registry::{get_schema, has_schema, register_schema, SchemaRegistry};
pub use schema::{FieldSchema, FieldType, MessageSchema, TypeHash};
pub use service::{parsed_service_to_schemas, parsed_service_to_wire_schemas};
