//! The registry, the built-in definitions, the search path and the names.

use hiroz_dynamic::{
    embedded_msg_source, find_msg_file, get_schema, has_schema, register_schema, schema_named,
    split_canonical, split_msg_type, DynamicError, FieldSchema, FieldType, MessageSchema, MsgPath,
    SchemaRegistry, EMBEDDED_MSGS,
};
use std::sync::Arc;

fn schema(full_name: &str, fields: Vec<FieldSchema>) -> Arc<MessageSchema> {
    let (package, _, name) = split_canonical(full_name).unwrap();
    Arc::new(MessageSchema {
        full_name: full_name.to_string(),
        package: package.to_string(),
        name: name.to_string(),
        fields,
        type_hash: None,
    })
}

#[test]
fn the_embedded_table_is_not_empty_and_is_sorted() {
    assert!(
        !EMBEDDED_MSGS.is_empty(),
        "no bundled .msg definitions were embedded"
    );
    assert!(
        EMBEDDED_MSGS.windows(2).all(|w| w[0].0 < w[1].0),
        "the embedded table must be sorted and duplicate-free: binary_search relies on it"
    );
}

#[test]
fn a_common_type_resolves_from_the_embedded_definitions() {
    let src =
        embedded_msg_source("std_msgs", "String").expect("std_msgs/msg/String must be embedded");
    assert!(
        src.contains("string data"),
        "embedded source does not look like the real definition: {src:?}"
    );
}

#[test]
fn every_embedded_definition_is_found() {
    for (key, text) in EMBEDDED_MSGS {
        let (package, kind, name) = split_canonical(key).unwrap();
        assert_eq!(kind, "msg");
        assert_eq!(embedded_msg_source(package, name), Some(text));
    }
}

#[test]
fn an_unknown_type_is_a_miss_not_a_panic() {
    assert!(embedded_msg_source("no_such_pkg", "Nope").is_none());
}

#[test]
fn unknown_types_before_between_and_after_the_table_are_misses() {
    for (package, name) in [("", ""), ("aaa", "A"), ("std_msgs", "D"), ("zzz", "Z")] {
        assert!(embedded_msg_source(package, name).is_none());
    }
}

#[test]
fn a_definition_on_disk_wins_over_the_embedded_one() {
    let on_disk = |path: &MsgPath| path.parts == ["/defs", "std_msgs", "msg", "String.msg"];
    let base = |dir: &str| dir.rsplit('/').next().map(str::to_string);

    assert!(find_msg_file(None, "std_msgs", "String", &base, &on_disk).is_none());

    let path = find_msg_file(Some("/defs"), "std_msgs", "String", &base, &on_disk)
        .expect("the on-disk definition must be found first");
    assert!(
        path.parts == ["/defs", "std_msgs", "msg", "String.msg"],
        "the search path did not take precedence over the embedded table"
    );
}

#[test]
fn search_path_entries_are_tried_in_order() {
    let base = |dir: &str| dir.rsplit('/').next().map(str::to_string);
    let everything = |_: &MsgPath| true;
    let nothing = |_: &MsgPath| false;
    let found = |path: &str, is_file: &dyn Fn(&MsgPath) -> bool| {
        find_msg_file(Some(path), "pkg_a", "Status", &base, &|p: &MsgPath| {
            is_file(p)
        })
        .map(|path| path.parts.join("/"))
    };

    assert_eq!(
        found(" : /one :/two", &everything).as_deref(),
        Some("/one/pkg_a/msg/Status.msg")
    );
    assert_eq!(found("/one:/two", &nothing), None);
    assert_eq!(found("", &everything), None);
    assert_eq!(found(" \u{3000}: ", &everything), None);

    // The directory of another package is not searched for its own messages.
    let flat = |p: &MsgPath| p.parts.len() == 3;
    assert_eq!(found("/ws/pkg_b", &flat), None);
    assert_eq!(
        found("/ws/pkg_b:/ws/pkg_a", &flat).as_deref(),
        Some("/ws/pkg_a/msg/Status.msg")
    );
    // A directory of packages comes first, even if it is named like the package.
    assert_eq!(
        found("/ws/pkg_a", &everything).as_deref(),
        Some("/ws/pkg_a/pkg_a/msg/Status.msg")
    );
}

#[test]
fn registered_schemas_are_found_shared_and_counted() {
    let mut registry = SchemaRegistry::new();
    assert!(registry.is_empty());
    assert_eq!(registry.len(), 0);
    assert!(registry.get("a/msg/A").is_none());

    let a = schema("a/msg/A", vec![]);
    let shared = registry.register(a.clone());
    assert!(Arc::ptr_eq(&a, &shared));
    assert!(Arc::ptr_eq(&a, &registry.get("a/msg/A").unwrap()));
    assert!(registry.contains("a/msg/A"));
    assert!(!registry.contains("a/msg/B"));

    registry.register(schema("b/msg/B", vec![]));
    let mut names = registry.type_names();
    names.sort();
    assert_eq!(names, ["a/msg/A", "b/msg/B"]);

    // A second schema of a name takes the place of the first.
    let newer = schema("a/msg/A", vec![FieldSchema::new("x", FieldType::Bool)]);
    registry.register(newer.clone());
    assert_eq!(registry.len(), 2);
    assert_eq!(registry.type_names().len(), 2);
    assert!(Arc::ptr_eq(&newer, &registry.get("a/msg/A").unwrap()));
    assert!(registry.contains("b/msg/B"));

    registry.clear();
    assert!(registry.is_empty());
    assert!(registry.type_names().is_empty());
    assert!(SchemaRegistry::default().is_empty());
}

#[test]
fn a_registry_that_cannot_be_read_knows_nothing() {
    let mut registry = SchemaRegistry::new();
    let a = register_schema(&mut registry, schema("a/msg/A", vec![]));
    assert!(Arc::ptr_eq(&a, &get_schema(Some(&registry), "a/msg/A").unwrap()));
    assert!(has_schema(Some(&registry), "a/msg/A"));
    assert!(!has_schema(Some(&registry), "a/msg/B"));
    assert!(get_schema(Some(&registry), "a/msg/B").is_none());
    assert!(get_schema(None, "a/msg/A").is_none());
    assert!(!has_schema(None, "a/msg/A"));
}

#[test]
fn the_first_schema_of_a_name_is_picked() {
    let first = schema("a/msg/A", vec![]);
    let second = schema("a/msg/A", vec![FieldSchema::new("x", FieldType::Bool)]);
    let schemas = vec![schema("b/msg/B", vec![]), first.clone(), second];
    assert!(Arc::ptr_eq(&first, &schema_named(&schemas, "a/msg/A").unwrap()));
    assert_eq!(
        schema_named(&schemas, "c/msg/C").unwrap_err(),
        DynamicError::SchemaNotFound("c/msg/C".to_string())
    );
}

#[test]
fn fields_are_found_by_name() {
    let message = schema(
        "a/msg/A",
        vec![
            FieldSchema::new("x", FieldType::Bool),
            FieldSchema::new("y", FieldType::Int8),
            FieldSchema::new("x", FieldType::Int16),
        ],
    );
    assert_eq!(message.field("x").unwrap().field_type, FieldType::Bool);
    assert_eq!(message.field("y").unwrap().field_type, FieldType::Int8);
    assert!(message.field("z").is_none());
}

#[test]
fn type_names_are_split() {
    assert_eq!(split_canonical("a/srv/B"), Some(("a", "srv", "B")));
    assert_eq!(split_canonical("\u{e9}/msg/\u{4e16}"), Some(("\u{e9}", "msg", "\u{4e16}")));
    assert_eq!(split_canonical("a/B"), None);
    assert_eq!(split_canonical("a/b/c/d"), None);
    assert_eq!(split_canonical(""), None);

    let parts = Some(("a".to_string(), "B".to_string()));
    assert_eq!(split_msg_type("a/msg/B"), parts);
    assert_eq!(split_msg_type("a/B"), parts);
    assert_eq!(split_msg_type("a/srv/B"), None);
    assert_eq!(split_msg_type("a"), None);
    assert_eq!(split_msg_type("a/msg/B/c"), None);
}
