# hiroz_dynamic

Message schemas known at run time, for tools that work with any ROS 2 message type.

The library builds schemas from parsed interface definitions, completes the sets of
schemas that ROS derives for services and actions, keeps schemas in a registry, and loads
a message type from its definition together with the messages nested in it. It is written
in Verus: every function is verified against its contract, and nothing is taken on trust
but the specifications of the standard library that come with Verus.

| Module     | What it holds                                                        |
|------------|----------------------------------------------------------------------|
| `text`     | Splitting, trimming, ordering and reading text                        |
| `names`    | Type names, `package/kind/Name`                                      |
| `types`    | Parsed `.msg`, `.srv` and `.action` definitions                      |
| `schema`   | Schemas and their models                                             |
| `error`    | Why a schema could not be built                                      |
| `failure`  | Why a message type could not be loaded                               |
| `convert`  | From a parsed message to its schema                                  |
| `service`  | The four schemas of a service                                        |
| `action`   | The thirteen schemas of an action                                    |
| `registry` | The registry of schemas                                              |
| `embedded` | Built-in message definitions                                         |
| `msg_path` | Where definitions are looked for on disk                             |
| `load`     | Loading a message type with everything nested in it                  |

The library holds a few message definitions of its own. A program that is built with more
hands its table to `load_schema_from`.

Contracts speak of models: a schema is the tree of its fields and nested schemas, a
registry is a map from type names to schemas. Properties that relate several functions are
proof functions whose names begin with `law_`.

The library does no I/O. Callers answer its questions (which schema a name stands for,
whether a file exists, what a definition says) through closures, and a contract says what
comes of each answer; a load is described by the log of the calls it makes. `app/` answers them for a
process: it shares one registry, reads `HIROZ_MSG_PATH`, and parses with `hiroz_codegen`.
