//! Definitions converted to schemas, up to the type hashes that ROS computes for them.

use hiroz_dynamic::{
    embedded_msg_source, load_schema, load_schema_from, load_schema_inner, msg_source_in,
    parsed_action_to_schemas, parsed_action_to_wire_schemas,
    parsed_message_to_schema, parsed_message_to_schema_named,
    parsed_message_to_schema_named_with_references, parsed_service_to_schemas,
    parsed_service_to_wire_schemas, types, DynamicError, FieldType, LoadFailure, MessageSchema,
    MsgPath, MsgSource, SchemaRegistry, EMBEDDED_MSGS,
};
use std::cell::{Cell, RefCell};
use std::collections::{BTreeMap, HashMap};
use std::sync::Arc;

// A reader for the definitions in this file: one field a line, no comments.

fn read_type(text: &str) -> types::FieldType {
    let (text, array) = if let Some(item) = text.strip_suffix("[]") {
        (item, types::ArrayType::Unbounded)
    } else if let Some(rest) = text.strip_suffix(']') {
        let (item, size) = rest.split_once('[').unwrap();
        match size.strip_prefix("<=") {
            Some(bound) => (item, types::ArrayType::Bounded(bound.parse().unwrap())),
            None => (item, types::ArrayType::Fixed(size.parse().unwrap())),
        }
    } else {
        (text, types::ArrayType::Single)
    };
    let (text, string_bound) = match text.split_once("<=") {
        Some((item, bound)) => (item, Some(bound.parse().unwrap())),
        None => (text, None),
    };
    let (package, base_type) = match text.split_once('/') {
        Some((package, name)) => (Some(package.to_string()), name),
        None => (None, text),
    };
    types::FieldType {
        base_type: base_type.to_string(),
        package,
        array,
        string_bound,
    }
}

fn read_msg(text: &str, package: &str, name: &str) -> types::ParsedMessage {
    let fields = text
        .lines()
        .filter(|line| !line.is_empty() && !line.contains(" = "))
        .map(|line| {
            let (written, name) = line.split_once(' ').unwrap();
            types::Field {
                name: name.to_string(),
                field_type: read_type(written),
            }
        })
        .collect();
    types::ParsedMessage {
        name: name.to_string(),
        package: package.to_string(),
        fields,
    }
}

fn read_srv(text: &str, package: &str, name: &str) -> types::ParsedService {
    let (request, response) = text.split_once("---\n").unwrap();
    types::ParsedService {
        name: name.to_string(),
        package: package.to_string(),
        request: read_msg(request, package, &format!("{name}_Request")),
        response: read_msg(response, package, &format!("{name}_Response")),
    }
}

fn read_action(text: &str, package: &str, name: &str) -> types::ParsedAction {
    let mut parts = text.split("---\n");
    let mut next = |part: &str| {
        parts
            .next()
            .map(|text| read_msg(text, package, &format!("{name}_{part}")))
    };
    types::ParsedAction {
        name: name.to_string(),
        package: package.to_string(),
        goal: next("Goal").unwrap(),
        result: next("Result"),
        feedback: next("Feedback"),
    }
}

fn empty_schema(package: &str, kind: &str, name: &str) -> Arc<MessageSchema> {
    Arc::new(MessageSchema {
        full_name: format!("{package}/{kind}/{name}"),
        package: package.to_string(),
        name: name.to_string(),
        fields: Vec::new(),
        type_hash: None,
    })
}

// The hash that ROS gives a type: SHA-256 of its description and of the descriptions of all
// types that it refers to.

fn sha256(message: &[u8]) -> Vec<u8> {
    const K: [u32; 64] = [
        0x428a2f98, 0x71374491, 0xb5c0fbcf, 0xe9b5dba5, 0x3956c25b, 0x59f111f1, 0x923f82a4,
        0xab1c5ed5, 0xd807aa98, 0x12835b01, 0x243185be, 0x550c7dc3, 0x72be5d74, 0x80deb1fe,
        0x9bdc06a7, 0xc19bf174, 0xe49b69c1, 0xefbe4786, 0x0fc19dc6, 0x240ca1cc, 0x2de92c6f,
        0x4a7484aa, 0x5cb0a9dc, 0x76f988da, 0x983e5152, 0xa831c66d, 0xb00327c8, 0xbf597fc7,
        0xc6e00bf3, 0xd5a79147, 0x06ca6351, 0x14292967, 0x27b70a85, 0x2e1b2138, 0x4d2c6dfc,
        0x53380d13, 0x650a7354, 0x766a0abb, 0x81c2c92e, 0x92722c85, 0xa2bfe8a1, 0xa81a664b,
        0xc24b8b70, 0xc76c51a3, 0xd192e819, 0xd6990624, 0xf40e3585, 0x106aa070, 0x19a4c116,
        0x1e376c08, 0x2748774c, 0x34b0bcb5, 0x391c0cb3, 0x4ed8aa4a, 0x5b9cca4f, 0x682e6ff3,
        0x748f82ee, 0x78a5636f, 0x84c87814, 0x8cc70208, 0x90befffa, 0xa4506ceb, 0xbef9a3f7,
        0xc67178f2,
    ];
    let mut state: [u32; 8] = [
        0x6a09e667, 0xbb67ae85, 0x3c6ef372, 0xa54ff53a, 0x510e527f, 0x9b05688c, 0x1f83d9ab,
        0x5be0cd19,
    ];
    let mut data = message.to_vec();
    data.push(0x80);
    while data.len() % 64 != 56 {
        data.push(0);
    }
    data.extend_from_slice(&((message.len() as u64) * 8).to_be_bytes());
    for block in data.chunks(64) {
        let mut w = [0u32; 64];
        for i in 0..16 {
            w[i] = u32::from_be_bytes([
                block[4 * i],
                block[4 * i + 1],
                block[4 * i + 2],
                block[4 * i + 3],
            ]);
        }
        for i in 16..64 {
            let a = w[i - 15];
            let b = w[i - 2];
            let s0 = a.rotate_right(7) ^ a.rotate_right(18) ^ (a >> 3);
            let s1 = b.rotate_right(17) ^ b.rotate_right(19) ^ (b >> 10);
            w[i] = w[i - 16]
                .wrapping_add(s0)
                .wrapping_add(w[i - 7])
                .wrapping_add(s1);
        }
        let mut v = state;
        for i in 0..64 {
            let s1 = v[4].rotate_right(6) ^ v[4].rotate_right(11) ^ v[4].rotate_right(25);
            let ch = (v[4] & v[5]) ^ (!v[4] & v[6]);
            let t1 = v[7]
                .wrapping_add(s1)
                .wrapping_add(ch)
                .wrapping_add(K[i])
                .wrapping_add(w[i]);
            let s0 = v[0].rotate_right(2) ^ v[0].rotate_right(13) ^ v[0].rotate_right(22);
            let maj = (v[0] & v[1]) ^ (v[0] & v[2]) ^ (v[1] & v[2]);
            let t2 = s0.wrapping_add(maj);
            v = [
                t1.wrapping_add(t2),
                v[0],
                v[1],
                v[2],
                v[3].wrapping_add(t1),
                v[4],
                v[5],
                v[6],
            ];
        }
        for i in 0..8 {
            state[i] = state[i].wrapping_add(v[i]);
        }
    }
    state.iter().flat_map(|word| word.to_be_bytes()).collect()
}

fn describe_type(field_type: &FieldType) -> (u32, usize, usize, String) {
    let plain = |id: u32| (id, 0, 0, String::new());
    match field_type {
        FieldType::Message(schema) => (1, 0, 0, schema.full_name.clone()),
        FieldType::Int8 => plain(2),
        FieldType::Uint8 => plain(3),
        FieldType::Int16 => plain(4),
        FieldType::Uint16 => plain(5),
        FieldType::Int32 => plain(6),
        FieldType::Uint32 => plain(7),
        FieldType::Int64 => plain(8),
        FieldType::Uint64 => plain(9),
        FieldType::Float32 => plain(10),
        FieldType::Float64 => plain(11),
        FieldType::Char => plain(13),
        FieldType::WChar => plain(14),
        FieldType::Bool => plain(15),
        FieldType::Byte => plain(16),
        FieldType::String => plain(17),
        FieldType::WString => plain(18),
        FieldType::BoundedString(n) => (21, 0, *n, String::new()),
        FieldType::BoundedWString(n) => (22, 0, *n, String::new()),
        FieldType::Array(item, n) => {
            let (id, _, string_capacity, nested) = describe_type(item);
            (id + 48, *n, string_capacity, nested)
        }
        FieldType::BoundedSequence(item, n) => {
            let (id, _, string_capacity, nested) = describe_type(item);
            (id + 96, *n, string_capacity, nested)
        }
        FieldType::Sequence(item) => {
            let (id, _, string_capacity, nested) = describe_type(item);
            (id + 144, 0, string_capacity, nested)
        }
    }
}

fn describe(schema: &MessageSchema) -> String {
    let mut fields: Vec<String> = schema
        .fields
        .iter()
        .map(|field| {
            let (id, capacity, string_capacity, nested) = describe_type(&field.field_type);
            format!(
                "{{\"name\": \"{}\", \"type\": {{\"type_id\": {id}, \"capacity\": {capacity}, \
                 \"string_capacity\": {string_capacity}, \"nested_type_name\": \"{nested}\"}}}}",
                field.name
            )
        })
        .collect();
    if fields.is_empty() {
        fields.push(
            "{\"name\": \"structure_needs_at_least_one_member\", \"type\": {\"type_id\": 3, \
             \"capacity\": 0, \"string_capacity\": 0, \"nested_type_name\": \"\"}}"
                .to_string(),
        );
    }
    format!(
        "{{\"type_name\": \"{}\", \"fields\": [{}]}}",
        schema.full_name,
        fields.join(", ")
    )
}

fn collect_references(field_type: &FieldType, found: &mut BTreeMap<String, String>) {
    match field_type {
        FieldType::Message(schema) => {
            found.insert(schema.full_name.clone(), describe(schema));
            for field in &schema.fields {
                collect_references(&field.field_type, found);
            }
        }
        FieldType::Array(item, _)
        | FieldType::Sequence(item)
        | FieldType::BoundedSequence(item, _) => collect_references(item, found),
        _ => {}
    }
}

fn rihs(schema: &MessageSchema) -> String {
    let mut found = BTreeMap::new();
    for field in &schema.fields {
        collect_references(&field.field_type, &mut found);
    }
    let references: Vec<String> = found.into_values().collect();
    let text = format!(
        "{{\"type_description\": {}, \"referenced_type_descriptions\": [{}]}}",
        describe(schema),
        references.join(", ")
    );
    let digest: String = sha256(text.as_bytes())
        .iter()
        .map(|byte| format!("{byte:02x}"))
        .collect();
    format!("RIHS01_{digest}")
}

fn protocol_dependencies() -> HashMap<String, Arc<MessageSchema>> {
    let mut schemas: HashMap<String, Arc<MessageSchema>> = HashMap::new();
    for (package, name) in [
        ("builtin_interfaces", "Time"),
        ("unique_identifier_msgs", "UUID"),
        ("service_msgs", "ServiceEventInfo"),
    ] {
        let full_name = format!("{package}/msg/{name}");
        let parsed = read_msg(embedded_msg_source(package, name).unwrap(), package, name);
        let schema = parsed_message_to_schema_named(&parsed, &full_name, &|dependency: &str| {
            schemas.get(dependency).cloned()
        })
        .unwrap();
        schemas.insert(full_name, schema);
    }
    schemas
}

#[test]
fn parsed_bounded_strings_preserve_bounds_in_all_collection_forms() {
    let parsed = read_msg(
        "string<=5 narrow\n\
         wstring<=6 wide\n\
         wstring<=6[2] fixed\n\
         wstring<=6[<=3] bounded\n\
         wstring<=6[] unbounded\n",
        "test_msgs",
        "Wide",
    );
    let schema = parsed_message_to_schema(&parsed, &|_: &str, _: &str| None).unwrap();

    assert_eq!(
        schema.field("narrow").unwrap().field_type,
        FieldType::BoundedString(5)
    );
    assert_eq!(
        schema.field("wide").unwrap().field_type,
        FieldType::BoundedWString(6)
    );
    assert_eq!(
        schema.field("fixed").unwrap().field_type,
        FieldType::Array(Box::new(FieldType::BoundedWString(6)), 2)
    );
    assert_eq!(
        schema.field("bounded").unwrap().field_type,
        FieldType::BoundedSequence(Box::new(FieldType::BoundedWString(6)), 3)
    );
    assert_eq!(
        schema.field("unbounded").unwrap().field_type,
        FieldType::Sequence(Box::new(FieldType::BoundedWString(6)))
    );
}

#[test]
fn named_conversion_keeps_wire_identity_and_uses_the_parent_package() {
    let parsed = read_msg("Nested child\n", "demo_interfaces", "Container");
    let nested = empty_schema("demo_interfaces", "msg", "Nested");
    let schema = parsed_message_to_schema_named(
        &parsed,
        "demo_interfaces/srv/DoThing_Request",
        &|canonical: &str| (canonical == "demo_interfaces/msg/Nested").then(|| nested.clone()),
    )
    .unwrap();

    assert_eq!(schema.full_name, "demo_interfaces/srv/DoThing_Request");
    assert_eq!(schema.package, "demo_interfaces");
    assert_eq!(schema.name, "DoThing_Request");
    assert!(matches!(
        &schema.field("child").unwrap().field_type,
        FieldType::Message(child) if child.full_name == "demo_interfaces/msg/Nested"
    ));
}

#[test]
fn service_and_action_helpers_use_ros_wire_names() {
    let service = read_srv("int64 a\n---\nint64 sum\n", "demo_interfaces", "Add");
    let (request, response) = parsed_service_to_schemas(&service, &|_: &str| None).unwrap();
    assert_eq!(request.full_name, "demo_interfaces/srv/Add_Request");
    assert_eq!(response.full_name, "demo_interfaces/srv/Add_Response");

    let action = read_action(
        "int32 order\n---\nint32 result\n---\nint32 progress\n",
        "demo_interfaces",
        "Count",
    );
    let names = parsed_action_to_schemas(&action, &|_: &str| None)
        .unwrap()
        .into_iter()
        .map(|schema| schema.full_name.clone())
        .collect::<Vec<_>>();
    assert_eq!(
        names,
        [
            "demo_interfaces/action/Count_Goal",
            "demo_interfaces/action/Count_Result",
            "demo_interfaces/action/Count_Feedback",
        ]
    );
}

#[test]
fn complete_service_schemas_match_ros_hashes() {
    let dependencies = protocol_dependencies();
    let service = read_srv(
        "---\nbool success\nstring message\n",
        "std_srvs",
        "Trigger",
    );
    let schemas =
        parsed_service_to_wire_schemas(&service, &|name: &str| dependencies.get(name).cloned())
            .unwrap();
    let expected = [
        (
            "std_srvs/srv/Trigger_Request",
            "RIHS01_d010825374ce8918e72bfd826c82603e60f45419e932ea976f807b74a863a199",
        ),
        (
            "std_srvs/srv/Trigger_Response",
            "RIHS01_2d946c21e2fc3f1e9ca6986a8191d85fcc70097a8bb7771a053564bc47009cdf",
        ),
        (
            "std_srvs/srv/Trigger_Event",
            "RIHS01_ec4a1d26b0575e61906890342aba9523a2360e9845857c5590fa6e23bc39e1c2",
        ),
        (
            "std_srvs/srv/Trigger",
            "RIHS01_eeff2cd6fa5ad9d27cdf4dec64818317839b62f212a91e6b5304b634b2062c5f",
        ),
    ];
    assert_eq!(schemas.len(), expected.len());
    for (schema, (name, hash)) in schemas.iter().zip(expected) {
        assert_eq!(schema.full_name, name);
        assert_eq!(rihs(schema), hash);
    }
}

#[test]
fn complete_action_schemas_match_ros_hashes() {
    let dependencies = protocol_dependencies();
    let action = read_action(
        "int32 order\n---\nint32[] sequence\n---\nint32[] sequence\n",
        "example_interfaces",
        "Fibonacci",
    );
    let schemas =
        parsed_action_to_wire_schemas(&action, &|name: &str| dependencies.get(name).cloned())
            .unwrap();
    let expected = HashMap::from([
        (
            "example_interfaces/action/Fibonacci_FeedbackMessage",
            "RIHS01_c1de71afd52e49a89c53d8262366884185bc0a02f78ce051c4e46b0a7fe59bb2",
        ),
        (
            "example_interfaces/action/Fibonacci_SendGoal",
            "RIHS01_d1a57fb2a4afe8c21e34fb10db206f16ce6729b28531141472df92277c55b557",
        ),
        (
            "example_interfaces/action/Fibonacci_GetResult",
            "RIHS01_1b0de0d5d29dc955d92f546706568428632771db13ec84c15ec1c1a59f424a57",
        ),
        (
            "example_interfaces/action/Fibonacci",
            "RIHS01_9508051da1ea4658de144b09bd0690ff3de52104683d847aed764d2915906f51",
        ),
    ]);
    assert_eq!(schemas.len(), 13);
    for (name, hash) in expected {
        let schema = schemas
            .iter()
            .find(|schema| schema.full_name == name)
            .unwrap();
        assert_eq!(rihs(schema), hash);
    }
}

#[test]
fn reference_aware_conversion_retains_explicit_namespaces() {
    let parsed = types::ParsedMessage {
        name: "Count_SendGoal_Request".to_string(),
        package: "demo_interfaces".to_string(),
        fields: vec![
            types::Field {
                name: "goal".to_string(),
                field_type: types::FieldType {
                    base_type: "Count_Goal".to_string(),
                    package: None,
                    array: types::ArrayType::Single,
                    string_bound: None,
                },
            },
            types::Field {
                name: "control".to_string(),
                field_type: types::FieldType {
                    base_type: "Control_Request".to_string(),
                    package: Some("demo_interfaces".to_string()),
                    array: types::ArrayType::Single,
                    string_bound: None,
                },
            },
        ],
    };
    let goal = empty_schema("demo_interfaces", "action", "Count_Goal");
    let control = empty_schema("demo_interfaces", "srv", "Control_Request");
    let request = parsed_message_to_schema_named_with_references(
        &parsed,
        "demo_interfaces/action/Count_SendGoal_Request",
        &|canonical: &str| match canonical {
            "demo_interfaces/action/Count_Goal" => Some(goal.clone()),
            "demo_interfaces/srv/Control_Request" => Some(control.clone()),
            _ => None,
        },
        &|field: &str| match field {
            "goal" => Some("demo_interfaces/action/Count_Goal"),
            "control" => Some("demo_interfaces/srv/Control_Request"),
            _ => None,
        },
    )
    .unwrap();

    assert!(matches!(
        &request.field("goal").unwrap().field_type,
        FieldType::Message(schema)
            if schema.full_name == "demo_interfaces/action/Count_Goal"
    ));
    assert!(matches!(
        &request.field("control").unwrap().field_type,
        FieldType::Message(schema)
            if schema.full_name == "demo_interfaces/srv/Control_Request"
    ));
}

// Loading.

fn no_file(_package: &str, _name: &str) -> Option<MsgPath> {
    None
}

fn read_embedded(
    source: &MsgSource,
    package: &str,
    name: &str,
) -> Result<types::ParsedMessage, String> {
    match source {
        MsgSource::Embedded(text) => Ok(read_msg(text, package, name)),
        MsgSource::File(_) => Err("no disk".to_string()),
    }
}

/// A disk that holds the given definitions, by package and message name.
fn disk(
    definitions: &'static [(&'static str, &'static str, &'static str)],
) -> (
    impl Fn(&str, &str) -> Option<MsgPath>,
    impl Fn(&MsgSource, &str, &str) -> Result<types::ParsedMessage, String>,
) {
    let find = move |package: &str, name: &str| {
        definitions
            .iter()
            .find(|(p, n, _)| *p == package && *n == name)
            .map(|(p, n, _)| MsgPath {
                parts: vec![p.to_string(), n.to_string()],
            })
    };
    let parse = move |source: &MsgSource, package: &str, name: &str| match source {
        MsgSource::File(path) => definitions
            .iter()
            .find(|(p, n, _)| *p == path.parts[0] && *n == path.parts[1])
            .filter(|(_, _, text)| *text != "broken")
            .map(|(_, _, text)| read_msg(text, package, name))
            .ok_or("not a definition".to_string()),
        MsgSource::Embedded(text) => Ok(read_msg(text, package, name)),
    };
    (find, parse)
}

#[test]
fn legacy_char_loads_as_uint8_schema() {
    let mut registry = SchemaRegistry::new();
    let schema = load_schema("std_msgs/msg/Char", &mut registry, &no_file, &read_embedded)
        .expect("std_msgs/msg/Char must resolve");
    assert!(matches!(
        schema.field("data").expect("Char.data").field_type,
        FieldType::Uint8
    ));
}

#[test]
fn nested_messages_are_loaded_and_registered() {
    let mut registry = SchemaRegistry::new();
    let twist = load_schema(
        "geometry_msgs/msg/Twist",
        &mut registry,
        &no_file,
        &read_embedded,
    )
    .unwrap();
    assert_eq!(registry.len(), 2);
    let vector = registry.get("geometry_msgs/msg/Vector3").unwrap();
    assert_eq!(vector.fields.len(), 3);
    assert_eq!(vector.fields[0].field_type, FieldType::Float64);
    for part in ["linear", "angular"] {
        assert!(matches!(
            &twist.field(part).unwrap().field_type,
            FieldType::Message(nested) if Arc::ptr_eq(nested, &vector)
        ));
    }
    // A second load is answered from the registry.
    let again = load_schema(
        "geometry_msgs/msg/Twist",
        &mut registry,
        &no_file,
        &|_: &MsgSource, _: &str, _: &str| panic!("nothing is to be read"),
    )
    .unwrap();
    assert!(Arc::ptr_eq(&twist, &again));
}

#[test]
fn shorthand_loads_the_message_under_its_full_name() {
    let mut registry = SchemaRegistry::new();
    let schema = load_schema("std_msgs/String", &mut registry, &no_file, &read_embedded).unwrap();
    assert_eq!(schema.full_name, "std_msgs/msg/String");
    assert!(registry.contains("std_msgs/msg/String"));
    assert!(!registry.contains("std_msgs/String"));
}

#[test]
fn loads_that_find_nothing() {
    let mut registry = SchemaRegistry::new();
    for name in [
        "std_msgs/msg/Nope",
        "no_such_pkg/msg/String",
        "std_msgs/srv/String",
        "String",
        "a/b/c/d",
        "",
    ] {
        assert!(load_schema(name, &mut registry, &no_file, &read_embedded).is_none());
    }
    assert!(registry.is_empty());
}

#[test]
fn disk_definition_is_loaded_before_the_embedded_one() {
    let (find, parse) = disk(&[("std_msgs", "String", "string data\nint32 sentinel_field\n")]);
    let mut registry = SchemaRegistry::new();
    let schema = load_schema("std_msgs/msg/String", &mut registry, &find, &parse).unwrap();
    assert!(schema.field("sentinel_field").is_some());

    let (find, parse) = disk(&[("std_msgs", "String", "broken")]);
    let mut registry = SchemaRegistry::new();
    assert!(load_schema("std_msgs/msg/String", &mut registry, &find, &parse).is_none());
}

#[test]
fn cyclic_definitions_are_not_loaded() {
    let (find, parse) = disk(&[
        ("demo", "Loop", "Loop again\n"),
        ("demo", "Ping", "Leaf leaf\nPong pong\n"),
        ("demo", "Pong", "demo/Ping ping\n"),
        ("demo", "Leaf", "int32 x\n"),
        ("demo", "Root", "Leaf first\nPing second\nLeaf third\n"),
    ]);
    let mut registry = SchemaRegistry::new();
    assert!(load_schema("demo/msg/Loop", &mut registry, &find, &parse).is_none());
    assert!(load_schema("demo/Loop", &mut registry, &find, &parse).is_none());
    assert!(load_schema("demo/msg/Ping", &mut registry, &find, &parse).is_none());
    assert!(load_schema("demo/msg/Pong", &mut registry, &find, &parse).is_none());
    assert!(load_schema("demo/msg/Root", &mut registry, &find, &parse).is_none());
    // What was loaded before the cycle was met stays.
    assert_eq!(registry.type_names(), ["demo/msg/Leaf"]);
}

#[test]
fn missing_nested_message_ends_the_load() {
    let (find, parse) = disk(&[
        ("demo", "Half", "Leaf first\nMissing second\nOther third\n"),
        ("demo", "Leaf", "int32 x\n"),
        ("demo", "Other", "int32 y\n"),
    ]);
    let mut registry = SchemaRegistry::new();
    assert!(load_schema("demo/msg/Half", &mut registry, &find, &parse).is_none());
    assert!(registry.contains("demo/msg/Leaf"));
    assert!(!registry.contains("demo/msg/Other"));
    assert!(!registry.contains("demo/msg/Half"));
}

#[test]
fn a_definition_loads_as_it_converts() {
    let mut registry = SchemaRegistry::new();
    let loaded = load_schema(
        "service_msgs/msg/ServiceEventInfo",
        &mut registry,
        &no_file,
        &read_embedded,
    )
    .unwrap();
    let text = embedded_msg_source("service_msgs", "ServiceEventInfo").unwrap();
    let parsed = read_msg(text, "service_msgs", "ServiceEventInfo");
    let converted = parsed_message_to_schema(&parsed, &|package: &str, name: &str| {
        registry.get(&format!("{package}/msg/{name}"))
    })
    .unwrap();
    assert_eq!(loaded, converted);
    assert_eq!(
        loaded.field("client_gid").unwrap().field_type,
        FieldType::Array(Box::new(FieldType::Uint8), 16)
    );
}

#[test]
fn a_load_makes_its_calls_in_order() {
    let (find, parse) = disk(&[
        ("demo", "Root", "Leaf first\nint32 second\nInner third\nLeaf fourth\n"),
        ("demo", "Inner", "Leaf leaf\n"),
        ("demo", "Leaf", "int32 x\n"),
    ]);
    let calls: RefCell<Vec<String>> = RefCell::new(Vec::new());
    let find = |package: &str, name: &str| {
        calls.borrow_mut().push(format!("find {package}/{name}"));
        find(package, name)
    };
    let parse = |source: &MsgSource, package: &str, name: &str| {
        calls.borrow_mut().push(format!("parse {package}/{name}"));
        parse(source, package, name)
    };
    let mut registry = SchemaRegistry::new();
    assert!(load_schema("demo/msg/Root", &mut registry, &find, &parse).is_some());
    assert_eq!(
        *calls.borrow(),
        [
            "find demo/Root",
            "parse demo/Root",
            "find demo/Leaf",
            "parse demo/Leaf",
            "find demo/Inner",
            "parse demo/Inner",
        ]
    );
    // A load that fails on a cycle has looked for the type again, and not read it again.
    let (find, parse) = disk(&[("demo", "Loop", "Loop again\n")]);
    let calls: RefCell<Vec<String>> = RefCell::new(Vec::new());
    let find = |package: &str, name: &str| {
        calls.borrow_mut().push(format!("find {package}/{name}"));
        find(package, name)
    };
    let parse = |source: &MsgSource, package: &str, name: &str| {
        calls.borrow_mut().push(format!("parse {package}/{name}"));
        parse(source, package, name)
    };
    assert!(load_schema("demo/msg/Loop", &mut registry, &find, &parse).is_none());
    assert_eq!(
        *calls.borrow(),
        ["find demo/Loop", "parse demo/Loop", "find demo/Loop"]
    );
}

#[test]
fn a_load_goes_by_the_answers_that_it_gets() {
    // The nested type changes between the first look and the second.
    let reads: Cell<u32> = Cell::new(0);
    let find = |package: &str, name: &str| {
        Some(MsgPath {
            parts: vec![package.to_string(), name.to_string()],
        })
    };
    let parse = |_: &MsgSource, package: &str, name: &str| {
        reads.set(reads.get() + 1);
        match reads.get() {
            1 => Ok(read_msg("Leaf leaf\n", package, name)),
            2 => Err("cut short".to_string()),
            3 => Ok(read_msg("int32 x\n", package, name)),
            _ => panic!("nothing more is to be read"),
        }
    };
    let mut registry = SchemaRegistry::new();
    assert!(load_schema("demo/msg/Root", &mut registry, &find, &parse).is_none());
    assert!(registry.is_empty());
    let root = load_schema("demo/msg/Root", &mut registry, &find, &parse).unwrap();
    assert_eq!(root.field("x").unwrap().field_type, FieldType::Int32);
    assert_eq!(registry.type_names(), ["demo/msg/Root"]);
}

#[test]
fn a_table_of_more_definitions_is_used() {
    let table = [
        ("demo/msg/Leaf", "int32 x\n"),
        ("demo/msg/Root", "Leaf leaf\nstd_msgs/String text\n"),
        ("std_msgs/msg/String", "string data\n"),
    ];
    assert_eq!(msg_source_in(&table, "demo", "Leaf"), Some("int32 x\n"));
    assert_eq!(msg_source_in(&table, "demo", "Other"), None);
    assert_eq!(msg_source_in(&[], "demo", "Leaf"), None);

    let mut registry = SchemaRegistry::new();
    let root = load_schema_from(
        &table,
        "demo/msg/Root",
        &mut registry,
        &no_file,
        &read_embedded,
    )
    .unwrap();
    assert_eq!(root.fields.len(), 2);
    assert_eq!(registry.len(), 3);
    // The type is not among the definitions of the library itself.
    let mut registry = SchemaRegistry::new();
    assert!(load_schema("demo/msg/Root", &mut registry, &no_file, &read_embedded).is_none());
}

fn not_built(full_name: &str, error: DynamicError) -> LoadFailure {
    LoadFailure::Unbuildable {
        full_name: full_name.to_string(),
        error,
    }
}

#[test]
fn a_failed_load_says_why() {
    let (find, parse) = disk(&[
        ("demo", "Broken", "broken"),
        ("demo", "Half", "int32 x\nBroken second\n"),
        ("demo", "Outer", "Half half\n"),
        ("demo", "Ping", "Pong pong\n"),
        ("demo", "Pong", "Ping ping\n"),
        ("demo", "Lost", "Missing missing\n"),
    ]);
    let failures = |name: &str| {
        let mut registry = SchemaRegistry::new();
        load_schema_from(&EMBEDDED_MSGS, name, &mut registry, &find, &parse).unwrap_err()
    };
    let missing = |name: &str| DynamicError::SchemaNotFound(name.to_string());
    let broken = LoadFailure::Unreadable {
        full_name: "demo/msg/Broken".to_string(),
        source: MsgSource::File(MsgPath {
            parts: vec!["demo".to_string(), "Broken".to_string()],
        }),
        reason: "not a definition".to_string(),
    };

    assert_eq!(
        failures("demo/srv/Name"),
        [LoadFailure::NotAMessage("demo/srv/Name".to_string())]
    );
    assert_eq!(
        failures("demo/Nope"),
        [LoadFailure::NotFound("demo/Nope".to_string())]
    );
    assert_eq!(failures("demo/msg/Broken"), [broken.clone()]);
    assert_eq!(
        failures("demo/msg/Outer"),
        [
            broken,
            not_built("demo/msg/Half", missing("demo/msg/Broken")),
            not_built("demo/msg/Outer", missing("demo/msg/Half")),
        ]
    );
    assert_eq!(
        failures("demo/msg/Ping"),
        [
            LoadFailure::Cyclic("demo/msg/Ping".to_string()),
            not_built("demo/msg/Pong", missing("demo/msg/Ping")),
            not_built("demo/msg/Ping", missing("demo/msg/Pong")),
        ]
    );
    assert_eq!(
        failures("demo/Lost"),
        [
            LoadFailure::NotFound("demo/msg/Missing".to_string()),
            not_built("demo/Lost", missing("demo/msg/Missing")),
        ]
    );

    // A definition that gives itself a name that is none.
    let renamed = |_: &MsgSource, package: &str, _: &str| Ok(read_msg("", package, "a/b"));
    let mut registry = SchemaRegistry::new();
    assert_eq!(
        load_schema_from(&EMBEDDED_MSGS, "demo/Ping", &mut registry, &find, &renamed).unwrap_err(),
        [not_built(
            "demo/Ping",
            DynamicError::InvalidTypeName("demo/msg/a/b".to_string())
        )]
    );
}

#[test]
fn types_in_progress_are_as_before_after_a_load() {
    let (find, parse) = disk(&[
        ("demo", "Leaf", "int32 x\n"),
        ("demo", "Root", "Leaf leaf\n"),
        ("demo", "Lost", "Missing missing\n"),
        ("demo", "Broken", "broken"),
    ]);
    let start = vec!["demo/msg/Outer".to_string(), "demo/msg/Leaf".to_string()];
    let mut in_progress = start.clone();
    let mut registry = SchemaRegistry::new();
    for name in ["demo/msg/Root", "demo/msg/Lost", "demo/msg/Broken", "demo/Nope", "x"] {
        let result = load_schema_inner(
            &EMBEDDED_MSGS,
            name,
            &mut in_progress,
            &mut registry,
            &find,
            &parse,
        );
        assert!(result.is_err());
        assert_eq!(in_progress, start);
    }
    in_progress.pop();
    let result = load_schema_inner(
        &EMBEDDED_MSGS,
        "demo/msg/Root",
        &mut in_progress,
        &mut registry,
        &find,
        &parse,
    );
    assert!(result.is_ok());
    assert_eq!(in_progress, ["demo/msg/Outer"]);
}

#[test]
fn a_load_by_the_short_name_replaces_the_registered_schema() {
    let (find, parse) = disk(&[("demo", "Node", "Node inner\n"), ("demo", "Leaf", "int32 x\n")]);
    let mut registry = SchemaRegistry::new();
    let leaf = load_schema("demo/Leaf", &mut registry, &find, &parse).unwrap();
    let stub = Arc::new(MessageSchema {
        full_name: "demo/msg/Node".to_string(),
        package: "demo".to_string(),
        name: "Node".to_string(),
        fields: vec![],
        type_hash: None,
    });
    registry.register(stub.clone());

    let found = load_schema("demo/msg/Node", &mut registry, &find, &parse).unwrap();
    assert!(Arc::ptr_eq(&found, &stub));

    let loaded = load_schema("demo/Node", &mut registry, &find, &parse).unwrap();
    assert_eq!(loaded.full_name, "demo/msg/Node");
    assert!(matches!(
        &loaded.field("inner").unwrap().field_type,
        FieldType::Message(inner) if Arc::ptr_eq(inner, &stub)
    ));
    assert!(Arc::ptr_eq(&registry.get("demo/msg/Node").unwrap(), &loaded));
    assert!(Arc::ptr_eq(&registry.get("demo/msg/Leaf").unwrap(), &leaf));
}

// Errors.

#[test]
fn conversion_errors() {
    let parsed = read_msg("int32 x\nUnknown y\nOther z\n", "demo", "Bad");
    assert_eq!(
        parsed_message_to_schema_named(&parsed, "demo/Bad", &|_: &str| None).unwrap_err(),
        DynamicError::InvalidTypeName("demo/Bad".to_string())
    );
    assert_eq!(
        parsed_message_to_schema_named(&parsed, "demo/msg/sub/Bad", &|_: &str| None).unwrap_err(),
        DynamicError::InvalidTypeName("demo/msg/sub/Bad".to_string())
    );
    assert_eq!(
        parsed_message_to_schema_named(&parsed, "demo/msg/Bad", &|_: &str| None).unwrap_err(),
        DynamicError::SchemaNotFound("demo/msg/Unknown".to_string())
    );
    assert_eq!(
        parsed_message_to_schema_named(&parsed, "demo/msg/Bad", &|name: &str| {
            (name == "demo/msg/Unknown").then(|| empty_schema("demo", "msg", "Unknown"))
        })
        .unwrap_err(),
        DynamicError::SchemaNotFound("demo/msg/Other".to_string())
    );
    // A package of the field's own is looked in, not the declaring one.
    let parsed = read_msg("std_msgs/Header header\n", "demo", "Stamped");
    assert_eq!(
        parsed_message_to_schema(&parsed, &|_: &str, _: &str| None).unwrap_err(),
        DynamicError::SchemaNotFound("std_msgs/msg/Header".to_string())
    );
}

#[test]
fn service_errors() {
    let service = read_srv("int64 a\n---\nMissing sum\n", "demo", "Add");
    assert_eq!(
        parsed_service_to_wire_schemas(&service, &|_: &str| None).unwrap_err(),
        DynamicError::SchemaNotFound("demo/msg/Missing".to_string())
    );
    let service = read_srv("int64 a\n---\nint64 sum\n", "demo", "Add");
    assert_eq!(
        parsed_service_to_wire_schemas(&service, &|_: &str| None).unwrap_err(),
        DynamicError::SchemaNotFound("service_msgs/msg/ServiceEventInfo".to_string())
    );
    let service = read_srv("int64 a\n---\nint64 sum\n", "demo/sub", "Add");
    assert_eq!(
        parsed_service_to_wire_schemas(&service, &|_: &str| None).unwrap_err(),
        DynamicError::InvalidTypeName("demo/sub/srv/Add_Request".to_string())
    );
}

#[test]
fn action_errors() {
    let dependencies = protocol_dependencies();
    let resolve = |name: &str| dependencies.get(name).cloned();
    let goal_only = read_action("int32 order\n", "demo", "Count");
    assert_eq!(
        parsed_action_to_schemas(&goal_only, &resolve).unwrap().len(),
        1
    );
    assert_eq!(
        parsed_action_to_wire_schemas(&goal_only, &resolve).unwrap_err(),
        DynamicError::SchemaNotFound("demo/action/Count_Result".to_string())
    );
    let no_feedback = read_action("int32 order\n---\nint32 r\n", "demo", "Count");
    assert_eq!(
        parsed_action_to_wire_schemas(&no_feedback, &resolve).unwrap_err(),
        DynamicError::SchemaNotFound("demo/action/Count_Feedback".to_string())
    );
    let whole = read_action("int32 order\n---\nint32 r\n---\nint32 f\n", "demo", "Count");
    for missing in [
        "unique_identifier_msgs/msg/UUID",
        "builtin_interfaces/msg/Time",
        "service_msgs/msg/ServiceEventInfo",
    ] {
        let partly = |name: &str| {
            if name == missing {
                None
            } else {
                dependencies.get(name).cloned()
            }
        };
        assert_eq!(
            parsed_action_to_wire_schemas(&whole, &partly).unwrap_err(),
            DynamicError::SchemaNotFound(missing.to_string())
        );
    }
    let misnamed = read_action("int32 order\n---\nint32 r\n---\nint32 f\n", "demo", "a/b");
    assert_eq!(
        parsed_action_to_wire_schemas(&misnamed, &resolve).unwrap_err(),
        DynamicError::InvalidTypeName("demo/action/a/b_Goal".to_string())
    );
}

#[test]
fn action_schemas_are_named_and_built_as_ros_does() {
    let dependencies = protocol_dependencies();
    let resolve = |name: &str| dependencies.get(name).cloned();
    let action = read_action("int32 order\n---\nint32 r\n---\nint32 f\n", "demo", "Count");
    let schemas = parsed_action_to_wire_schemas(&action, &resolve).unwrap();
    let names: Vec<&str> = schemas
        .iter()
        .map(|schema| schema.full_name.strip_prefix("demo/action/Count").unwrap())
        .collect();
    assert_eq!(
        names,
        [
            "_Goal",
            "_Result",
            "_Feedback",
            "_SendGoal_Request",
            "_SendGoal_Response",
            "_SendGoal_Event",
            "_SendGoal",
            "_GetResult_Request",
            "_GetResult_Response",
            "_GetResult_Event",
            "_GetResult",
            "_FeedbackMessage",
            "",
        ]
    );
    assert_eq!(schemas[4].fields[0].name, "accepted");
    assert_eq!(schemas[4].fields[0].field_type, FieldType::Bool);
    assert_eq!(schemas[8].fields[0].name, "status");
    assert_eq!(schemas[8].fields[0].field_type, FieldType::Int8);
    assert!(matches!(
        &schemas[5].field("request").unwrap().field_type,
        FieldType::BoundedSequence(item, 1)
            if matches!(&**item, FieldType::Message(request) if Arc::ptr_eq(request, &schemas[3]))
    ));
    assert_eq!(
        parsed_action_to_schemas(&action, &resolve).unwrap(),
        schemas[..3]
    );
}

#[test]
fn every_primitive_type_converts() {
    let expected = [
        ("bool", FieldType::Bool),
        ("int8", FieldType::Int8),
        ("byte", FieldType::Byte),
        ("int16", FieldType::Int16),
        ("int32", FieldType::Int32),
        ("int64", FieldType::Int64),
        ("uint8", FieldType::Uint8),
        ("char", FieldType::Uint8),
        ("idl_char", FieldType::Char),
        ("uint16", FieldType::Uint16),
        ("wchar", FieldType::WChar),
        ("uint32", FieldType::Uint32),
        ("uint64", FieldType::Uint64),
        ("float32", FieldType::Float32),
        ("float64", FieldType::Float64),
        ("string", FieldType::String),
        ("wstring", FieldType::WString),
    ];
    for (written, field_type) in expected {
        let parsed = read_msg(&format!("{written} x\n"), "demo", "One");
        let schema = parsed_message_to_schema(&parsed, &|_: &str, _: &str| None).unwrap();
        assert_eq!(schema.fields[0].field_type, field_type);
    }
}

fn unparsed_bound(base_type: &str) -> Result<Arc<MessageSchema>, DynamicError> {
    let parsed = types::ParsedMessage {
        name: "Text".to_string(),
        package: "demo".to_string(),
        fields: vec![types::Field {
            name: "text".to_string(),
            field_type: types::FieldType {
                base_type: base_type.to_string(),
                package: None,
                array: types::ArrayType::Single,
                string_bound: None,
            },
        }],
    };
    parsed_message_to_schema(&parsed, &|_: &str, _: &str| None)
}

#[test]
fn bounds_in_the_base_type_are_read() {
    let found = |base_type: &str| {
        let schema = unparsed_bound(base_type).unwrap();
        match &schema.fields[0].field_type {
            FieldType::BoundedString(n) => (false, *n),
            FieldType::BoundedWString(n) => (true, *n),
            other => panic!("{other:?}"),
        }
    };
    assert_eq!(found("string<=10"), (false, 10));
    assert_eq!(found("string<=+10"), (false, 10));
    assert_eq!(found("string<=007"), (false, 7));
    assert_eq!(found("wstring<=0"), (true, 0));
    assert_eq!(
        found(&format!("string<={}", usize::MAX)),
        (false, usize::MAX)
    );
    for wrong in [
        "string<=",
        "string<=+",
        "string<=-1",
        "string<= 1",
        "string<=1x",
        "string<=99999999999999999999999999",
        "wstring<=1_0",
    ] {
        assert_eq!(
            unparsed_bound(wrong).unwrap_err(),
            DynamicError::SchemaNotFound(format!("demo/msg/{wrong}"))
        );
    }
}

#[test]
fn only_messages_are_resolved_by_package_and_name() {
    // A base type with a slash makes a name of four parts, which is not asked for.
    let parsed = types::ParsedMessage {
        name: "Odd".to_string(),
        package: "demo".to_string(),
        fields: vec![types::Field {
            name: "x".to_string(),
            field_type: types::FieldType {
                base_type: "a/b".to_string(),
                package: None,
                array: types::ArrayType::Single,
                string_bound: None,
            },
        }],
    };
    assert_eq!(
        parsed_message_to_schema(&parsed, &|package: &str, name: &str| Some(empty_schema(
            package, "msg", name
        )))
        .unwrap_err(),
        DynamicError::SchemaNotFound("demo/msg/a/b".to_string())
    );
}
