//! A registry of message schemas, each kept under its full type name.

use crate::schema::{MessageSchema, SchemaModel};
use crate::text::texts;
use std::sync::Arc;
use vstd::hash_map::StringHashMap;
use vstd::prelude::*;
use vstd::string::*;

verus! {

/// A registry of message schemas.
///
/// Lookups by type name take constant time, and a schema is shared, not copied, by
/// those who look it up. The model of a registry is the map from type names to
/// schemas.
pub struct SchemaRegistry {
    schemas: StringHashMap<Arc<MessageSchema>>,
    names: Vec<String>,
}

/// Whether every schema stands under its own type name.
pub open spec fn keyed_by_name(schemas: Map<Seq<char>, SchemaModel>) -> bool {
    forall|name: Seq<char>| #[trigger]
        schemas.contains_key(name) ==> schemas[name].full_name == name
}

/// The schema that stands under `name`, if there is one.
pub open spec fn known(schemas: Map<Seq<char>, SchemaModel>, name: Seq<char>) -> Option<
    SchemaModel,
> {
    if schemas.contains_key(name) {
        Some(schemas[name])
    } else {
        None
    }
}

/// The registered schemas after `schema` was registered.
pub open spec fn with_schema(
    schemas: Map<Seq<char>, SchemaModel>,
    schema: SchemaModel,
) -> Map<Seq<char>, SchemaModel> {
    schemas.insert(schema.full_name, schema)
}

impl View for SchemaRegistry {
    type V = Map<Seq<char>, SchemaModel>;

    closed spec fn view(&self) -> Map<Seq<char>, SchemaModel> {
        self.schemas@.map_values(|schema: Arc<MessageSchema>| schema@)
    }
}

impl SchemaRegistry {
    /// Whether the list of names holds the name of each schema once, and nothing
    /// else.
    pub closed spec fn names_listed(&self) -> bool {
        let listed = self.names@.map_values(|name: String| name@);
        &&& listed.no_duplicates()
        &&& listed.to_set() == self.schemas@.dom()
    }

    /// The invariant of a registry.
    pub open spec fn wf(&self) -> bool {
        &&& self.names_listed()
        &&& keyed_by_name(self@)
    }

    /// Creates an empty registry.
    pub fn new() -> (registry: SchemaRegistry)
        ensures
            registry.wf(),
            registry@ == Map::<Seq<char>, SchemaModel>::empty(),
    {
        let registry: SchemaRegistry = SchemaRegistry {
            schemas: StringHashMap::new(),
            names: Vec::new(),
        };
        assert(registry@ =~= Map::empty());
        assert(registry.names@.map_values(|name: String| name@).to_set()
            =~= registry.schemas@.dom());
        registry
    }

    /// The schema of the given full type name, such as `geometry_msgs/msg/Twist`.
    pub fn get(&self, full_name: &str) -> (schema: Option<Arc<MessageSchema>>)
        requires
            self.wf(),
        ensures
            schema.deep_view() == known(self@, full_name@),
    {
        match self.schemas.get(full_name) {
            Some(schema) => Some(schema.clone()),
            None => None,
        }
    }

    /// Registers a schema under its full type name, in place of one that stood there,
    /// and returns it for sharing.
    pub fn register(&mut self, schema: Arc<MessageSchema>) -> (shared: Arc<MessageSchema>)
        requires
            old(self).wf(),
        ensures
            final(self).wf(),
            final(self)@ == with_schema(old(self)@, schema@),
            shared@ == schema@,
    {
        let ghost listed = self.names@.map_values(|name: String| name@);
        let name: String = schema.full_name.clone();
        let ghost key = name@;
        if !self.schemas.contains_key(name.as_str()) {
            self.names.push(name.clone());
        }
        self.schemas.insert(name, schema.clone());
        proof {
            let now = self.names@.map_values(|name: String| name@);
            if old(self).schemas@.contains_key(key) {
                assert(now =~= listed);
                assert(self.schemas@.dom() =~= old(self).schemas@.dom());
            } else {
                assert(now =~= listed.push(key));
                assert(!listed.contains(key)) by {
                    assert(!listed.to_set().contains(key));
                }
                assert(now.to_set() =~= self.schemas@.dom()) by {
                    assert forall|n: Seq<char>| now.to_set().contains(n) == #[trigger]
                        self.schemas@.dom().contains(n) by {
                        assert(old(self).schemas@.dom().contains(n) == listed.contains(n));
                        if n == key {
                            assert(now[now.len() - 1] == key);
                        } else if listed.contains(n) {
                            let i = choose|i: int| 0 <= i < listed.len() && listed[i] == n;
                            assert(now[i] == n);
                        }
                    }
                }
            }
            assert(self@ =~= with_schema(old(self)@, schema@));
        }
        schema
    }

    /// Whether a type is registered.
    pub fn contains(&self, full_name: &str) -> (registered: bool)
        requires
            self.wf(),
        ensures
            registered == self@.contains_key(full_name@),
    {
        self.schemas.contains_key(full_name)
    }

    /// The names of all registered types, each once, in no particular order.
    pub fn type_names(&self) -> (names: Vec<&str>)
        requires
            self.wf(),
        ensures
            texts(names@).no_duplicates(),
            texts(names@).to_set() == self@.dom(),
            names@.len() == self@.len(),
    {
        let mut names: Vec<&str> = Vec::new();
        for i in 0..self.names.len()
            invariant
                names@.len() == i,
                forall|j: int| 0 <= j < i ==> #[trigger] names@[j]@ == self.names@[j]@,
        {
            names.push(self.names[i].as_str());
        }
        assert(texts(names@) =~= self.names@.map_values(|name: String| name@));
        assert(self@.dom() =~= self.schemas@.dom());
        proof {
            texts(names@).unique_seq_to_set();
        }
        names
    }

    /// The number of registered schemas.
    pub fn len(&self) -> (count: usize)
        requires
            self.wf(),
        ensures
            count == self@.len(),
    {
        assert(self@.dom() =~= self.schemas@.dom());
        self.schemas.len()
    }

    /// Whether no schema is registered.
    pub fn is_empty(&self) -> (empty: bool)
        requires
            self.wf(),
        ensures
            empty == (self@ == Map::<Seq<char>, SchemaModel>::empty()),
    {
        assert(self@.dom() =~= self.schemas@.dom());
        let empty: bool = self.schemas.is_empty();
        proof {
            if empty {
                assert(self@ =~= Map::empty());
            }
        }
        empty
    }

    /// Forgets all registered schemas.
    pub fn clear(&mut self)
        requires
            old(self).wf(),
        ensures
            final(self).wf(),
            final(self)@ == Map::<Seq<char>, SchemaModel>::empty(),
    {
        self.schemas.clear();
        self.names.clear();
        assert(self@ =~= Map::empty());
        assert(self.names@.map_values(|name: String| name@).to_set() =~= self.schemas@.dom());
    }
}

impl Default for SchemaRegistry {
    fn default() -> (registry: SchemaRegistry)
        ensures
            registry.wf(),
            registry@ == Map::<Seq<char>, SchemaModel>::empty(),
    {
        SchemaRegistry::new()
    }
}

/// The schema of the given name in a registry that can be read. Nothing is found
/// in one that cannot.
pub fn get_schema(registry: Option<&SchemaRegistry>, full_name: &str) -> (schema: Option<
    Arc<MessageSchema>,
>)
    requires
        registry is Some ==> registry->0.wf(),
    ensures
        schema.deep_view() == match registry {
            Some(registry) => known(registry@, full_name@),
            None => None,
        },
{
    match registry {
        Some(registry) => registry.get(full_name),
        None => None,
    }
}

/// Registers a schema and returns it for sharing.
pub fn register_schema(registry: &mut SchemaRegistry, schema: Arc<MessageSchema>) -> (shared: Arc<
    MessageSchema,
>)
    requires
        old(registry).wf(),
    ensures
        final(registry).wf(),
        final(registry)@ == with_schema(old(registry)@, schema@),
        shared@ == schema@,
{
    registry.register(schema)
}

/// Whether a type is registered in a registry that can be read. Nothing is in one
/// that cannot.
pub fn has_schema(registry: Option<&SchemaRegistry>, full_name: &str) -> (registered: bool)
    requires
        registry is Some ==> registry->0.wf(),
    ensures
        registered == match registry {
            Some(registry) => registry@.contains_key(full_name@),
            None => false,
        },
{
    match registry {
        Some(registry) => registry.contains(full_name),
        None => false,
    }
}

/// A registered schema is found under its name, and registering it changes nothing
/// for any other name.
pub proof fn law_register_then_get(
    schemas: Map<Seq<char>, SchemaModel>,
    schema: SchemaModel,
    name: Seq<char>,
)
    ensures
        known(with_schema(schemas, schema), name) == if name == schema.full_name {
            Some(schema)
        } else {
            known(schemas, name)
        },
{
}

/// A lookup gives a schema of the name that was asked for.
pub proof fn law_found_schema_has_the_name(registry: SchemaRegistry, name: Seq<char>)
    requires
        registry.wf(),
        known(registry@, name) is Some,
    ensures
        known(registry@, name)->0.full_name == name,
{
}

/// Registering a schema adds one to the number of schemas if its name is new, and
/// leaves the number as it is if not. Registering it a second time changes nothing.
pub proof fn law_register_counts_once(registry: SchemaRegistry, schema: SchemaModel)
    requires
        registry.wf(),
    ensures
        with_schema(registry@, schema).len() == if registry@.contains_key(schema.full_name) {
            registry@.len()
        } else {
            registry@.len() + 1
        },
        with_schema(with_schema(registry@, schema), schema) == with_schema(registry@, schema),
{
    let listed = registry.names@.map_values(|name: String| name@);
    assert(registry@.dom() =~= registry.schemas@.dom());
    assert(registry@.dom().finite());
    assert(with_schema(with_schema(registry@, schema), schema) =~= with_schema(registry@, schema));
    if registry@.contains_key(schema.full_name) {
        assert(with_schema(registry@, schema).dom() =~= registry@.dom());
    } else {
        assert(with_schema(registry@, schema).dom() =~= registry@.dom().insert(schema.full_name));
    }
}

/// A type is contained in a registry exactly if it is found there, and a registry is empty
/// exactly if it holds no schema.
pub proof fn law_contained_means_found(registry: SchemaRegistry, name: Seq<char>)
    requires
        registry.wf(),
    ensures
        registry@.contains_key(name) <==> known(registry@, name) is Some,
        registry@ == Map::<Seq<char>, SchemaModel>::empty() <==> registry@.len() == 0,
{
    assert(registry@.dom() =~= registry.schemas@.dom());
    if registry@.len() == 0 {
        assert(registry@.dom() =~= Set::empty());
        assert(registry@ =~= Map::empty());
    }
}

/// A lookup gives what stands under the name, and registering a schema puts it under its own
/// name and leaves every other name as it is.
pub proof fn law_registry_is_a_map_by_name(
    schemas: Map<Seq<char>, SchemaModel>,
    schema: SchemaModel,
    name: Seq<char>,
)
    ensures
        schemas.contains_key(name) ==> known(schemas, name) == Some(schemas[name]),
        !schemas.contains_key(name) ==> known(schemas, name) is None,
        with_schema(schemas, schema) == schemas.insert(schema.full_name, schema),
{
}

/// The invariant of a registry says that each schema stands under its own name.
pub proof fn law_schemas_stand_under_their_names(registry: SchemaRegistry, name: Seq<char>)
    requires
        registry.wf(),
        registry@.contains_key(name),
    ensures
        registry@[name].full_name == name,
{
}

} // verus!
