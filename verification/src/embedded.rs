//! Message definitions that are built into the library, as `.msg` source text.
//!
//! They let a type be decoded where no definition of it is on disk.

use crate::names::{join_name, ros_name};
use crate::text::{
    lemma_before_at, lemma_before_irreflexive, lemma_before_transitive, order_texts, text_before,
    TextOrder,
};
use vstd::prelude::*;
use vstd::string::*;

verus! {

/// A table of message definitions: the type name and the source text of each.
pub type MsgTable = Seq<(&'static str, &'static str)>;

/// The definitions that are built into the library itself, sorted by type name.
///
/// A program that is built with more definitions hands in a table of its own.
pub const EMBEDDED_MSGS: [(&'static str, &'static str); 7] = [
    ("builtin_interfaces/msg/Time", "int32 sec\nuint32 nanosec\n"),
    ("geometry_msgs/msg/Twist", "Vector3 linear\nVector3 angular\n"),
    ("geometry_msgs/msg/Vector3", "float64 x\nfloat64 y\nfloat64 z\n"),
    (
        "service_msgs/msg/ServiceEventInfo",
        "uint8 REQUEST_SENT = 0\nuint8 REQUEST_RECEIVED = 1\nuint8 RESPONSE_SENT = 2\nuint8 RESPONSE_RECEIVED = 3\nuint8 event_type\nbuiltin_interfaces/Time stamp\nchar[16] client_gid\nint64 sequence_number\n",
    ),
    ("std_msgs/msg/Char", "char data\n"),
    ("std_msgs/msg/String", "string data\n"),
    ("unique_identifier_msgs/msg/UUID", "uint8[16] uuid\n"),
];

/// Whether a table is sorted by its keys, without a key that occurs twice.
pub open spec fn sorted_table(table: MsgTable) -> bool {
    forall|i: int, j: int|
        0 <= i < j < table.len() ==> text_before((#[trigger] table[i]).0@, (#[trigger] table[j]).0@)
}

/// The built-in definitions are sorted, so that a binary search finds them.
pub proof fn law_embedded_table_is_sorted()
    ensures
        EMBEDDED_MSGS@.len() > 0,
        sorted_table(EMBEDDED_MSGS@),
{
    let table = EMBEDDED_MSGS@;
    reveal_strlit("builtin_interfaces/msg/Time");
    reveal_strlit("geometry_msgs/msg/Twist");
    reveal_strlit("geometry_msgs/msg/Vector3");
    reveal_strlit("service_msgs/msg/ServiceEventInfo");
    reveal_strlit("std_msgs/msg/Char");
    reveal_strlit("std_msgs/msg/String");
    reveal_strlit("unique_identifier_msgs/msg/UUID");
    lemma_before_at(table[0].0@, table[1].0@, 0);
    lemma_before_at(table[1].0@, table[2].0@, 18);
    lemma_before_at(table[2].0@, table[3].0@, 0);
    lemma_before_at(table[3].0@, table[4].0@, 1);
    lemma_before_at(table[4].0@, table[5].0@, 13);
    lemma_before_at(table[5].0@, table[6].0@, 0);
    assert forall|i: int, j: int| 0 <= i < j < table.len() implies text_before(
        (#[trigger] table[i]).0@,
        (#[trigger] table[j]).0@,
    ) by {
        lemma_neighbours_sort(table, i, j);
    }
}

/// A table whose neighbours are in order is sorted.
proof fn lemma_neighbours_sort(table: MsgTable, i: int, j: int)
    requires
        0 <= i < j < table.len(),
        forall|k: int| #![trigger table[k]]
            0 <= k < table.len() - 1 ==> text_before(table[k].0@, table[k + 1].0@),
    ensures
        text_before(table[i].0@, table[j].0@),
    decreases j - i,
{
    assert(text_before(table[j - 1].0@, table[j].0@));
    if i < j - 1 {
        lemma_neighbours_sort(table, i, j - 1);
        lemma_before_transitive(table[i].0@, table[j - 1].0@, table[j].0@);
    }
}

/// Whether the definition of `key` stands at `i`.
pub open spec fn stands_at(
    table: MsgTable,
    key: Seq<char>,
    i: int,
) -> bool {
    0 <= i < table.len() && table[i].0@ == key
}

/// The source text that a table holds under a key.
pub open spec fn table_text(
    table: MsgTable,
    key: Seq<char>,
) -> Option<Seq<char>> {
    if exists|i: int| stands_at(table, key, i) {
        Some(table[choose|i: int| stands_at(table, key, i)].1@)
    } else {
        None
    }
}

/// The source text that a table holds for the message `package/msg/name`.
pub open spec fn msg_text(table: MsgTable, package: Seq<char>, name: Seq<char>) -> Option<
    Seq<char>,
> {
    table_text(table, ros_name(package, "msg"@, name))
}

/// A key stands at no more than one place of a sorted table.
proof fn lemma_key_is_unique(
    table: MsgTable,
    key: Seq<char>,
    i: int,
    j: int,
)
    requires
        sorted_table(table),
        stands_at(table, key, i),
        stands_at(table, key, j),
    ensures
        i == j,
{
    lemma_before_irreflexive(key);
}

/// Looks a key up in a sorted table.
pub fn search_table(table: &[(&'static str, &'static str)], key: &str) -> (found: Option<
    &'static str,
>)
    requires
        sorted_table(table@),
    ensures
        found.deep_view() == table_text(table@, key@),
{
    let mut low: usize = 0;
    let mut high: usize = table.len();
    while low < high
        invariant
            sorted_table(table@),
            low <= high <= table@.len(),
            forall|i: int| 0 <= i < low ==> (#[trigger] table@[i]).0@ != key@,
            forall|i: int| high <= i < table@.len() ==> (#[trigger] table@[i]).0@ != key@,
        decreases high - low,
    {
        let mid: usize = low + (high - low) / 2;
        match order_texts(table[mid].0, key) {
            TextOrder::Same => {
                proof {
                    assert(stands_at(table@, key@, mid as int));
                    let i = choose|i: int| stands_at(table@, key@, i);
                    lemma_key_is_unique(table@, key@, i, mid as int);
                }
                return Some(table[mid].1);
            },
            TextOrder::Before => {
                assert forall|i: int| 0 <= i <= mid implies (#[trigger] table@[i]).0@ != key@ by {
                    lemma_before_irreflexive(key@);
                    if i < mid {
                        lemma_before_transitive(table@[i].0@, table@[mid as int].0@, key@);
                    }
                }
                low = mid + 1;
            },
            TextOrder::After => {
                assert forall|i: int| mid <= i < table@.len() implies (#[trigger] table@[i]).0@
                    != key@ by {
                    lemma_before_irreflexive(key@);
                    if mid < i {
                        lemma_before_transitive(key@, table@[mid as int].0@, table@[i].0@);
                    }
                }
                high = mid;
            },
        }
    }
    assert(forall|i: int| !stands_at(table@, key@, i));
    None
}

/// The source text that a table holds for the message `package/msg/name`, if there is one.
pub fn msg_source_in(table: &[(&'static str, &'static str)], package: &str, name: &str) -> (source:
    Option<&'static str>)
    requires
        sorted_table(table@),
    ensures
        source.deep_view() == msg_text(table@, package@, name@),
{
    let key: String = join_name(package, "msg", name);
    search_table(table, key.as_str())
}

/// The built-in source text of the message `package/msg/name`, if there is one.
pub fn embedded_msg_source(package: &str, name: &str) -> (source: Option<&'static str>)
    ensures
        source.deep_view() == msg_text(EMBEDDED_MSGS@, package@, name@),
{
    proof {
        law_embedded_table_is_sorted();
    }
    msg_source_in(&EMBEDDED_MSGS, package, name)
}

/// A key of a sorted table is found with the text beside it, and no other key is
/// found.
pub proof fn law_table_lookup(table: MsgTable, key: Seq<char>, i: int)
    requires
        sorted_table(table),
    ensures
        stands_at(table, key, i) ==> table_text(table, key) == Some(table[i].1@),
        (forall|j: int| !stands_at(table, key, j)) ==> table_text(table, key) is None,
{
    if stands_at(table, key, i) {
        let j = choose|j: int| stands_at(table, key, j);
        lemma_key_is_unique(table, key, i, j);
    }
}

/// The text of a message is found exactly under `package/msg/Name`.
pub proof fn law_texts_stand_under_the_message_name(
    table: MsgTable,
    package: Seq<char>,
    name: Seq<char>,
    i: int,
)
    requires
        sorted_table(table),
    ensures
        0 <= i < table.len() && table[i].0@ == package + "/msg/"@ + name ==> msg_text(
            table,
            package,
            name,
        ) == Some(table[i].1@),
        (forall|j: int|
            0 <= j < table.len() ==> (#[trigger] table[j]).0@ != package + "/msg/"@ + name)
            ==> msg_text(table, package, name) is None,
{
    let key = ros_name(package, "msg"@, name);
    reveal_strlit("/msg/");
    reveal_strlit("msg");
    assert(key =~= package + "/msg/"@ + name);
    law_table_lookup(table, key, i);
}

/// A table is in order exactly if each key comes before the next, so that no key occurs twice.
pub proof fn law_tables_are_in_order(table: MsgTable)
    ensures
        sorted_table(table) <==> forall|k: int| #![trigger table[k]]
            0 <= k < table.len() - 1 ==> text_before(table[k].0@, table[k + 1].0@),
{
    if forall|k: int| #![trigger table[k]]
        0 <= k < table.len() - 1 ==> text_before(table[k].0@, table[k + 1].0@) {
        assert forall|i: int, j: int| 0 <= i < j < table.len() implies text_before(
            (#[trigger] table[i]).0@,
            (#[trigger] table[j]).0@,
        ) by {
            lemma_neighbours_sort(table, i, j);
        }
    }
}

} // verus!
