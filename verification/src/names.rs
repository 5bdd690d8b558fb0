//! ROS type names: `package/kind/Name`, and the shorthand `package/Name` that
//! message types may use.

use crate::text::{same_text, split_by, split_text, texts};
use vstd::prelude::*;
use vstd::string::*;

verus! {

/// Whether `s` holds no slash.
pub open spec fn slash_free(s: Seq<char>) -> bool {
    !s.contains('/')
}

/// The type name `package/kind/name`.
pub open spec fn ros_name(package: Seq<char>, kind: Seq<char>, name: Seq<char>) -> Seq<char> {
    package + seq!['/'] + kind + seq!['/'] + name
}

/// The package, kind and name of a canonical type name, which consists of
/// exactly three pieces between slashes.
pub open spec fn canonical_parts(s: Seq<char>) -> Option<(Seq<char>, Seq<char>, Seq<char>)> {
    let parts = split_by(s, '/');
    if parts.len() == 3 {
        Some((parts[0], parts[1], parts[2]))
    } else {
        None
    }
}

/// The package and name of a message type written `package/msg/Name` or
/// `package/Name`.
pub open spec fn msg_type_parts(s: Seq<char>) -> Option<(Seq<char>, Seq<char>)> {
    let parts = split_by(s, '/');
    if parts.len() == 3 && parts[1] == "msg"@ {
        Some((parts[0], parts[2]))
    } else if parts.len() == 2 {
        Some((parts[0], parts[1]))
    } else {
        None
    }
}

/// Joins a package, a kind and a name to a type name.
pub fn join_name(package: &str, kind: &str, name: &str) -> (joined: String)
    ensures
        joined@ == ros_name(package@, kind@, name@),
{
    proof {
        reveal_strlit("/");
        assert("/"@ =~= seq!['/']);
    }
    let mut joined: String = package.to_owned();
    joined.append("/");
    joined.append(kind);
    joined.append("/");
    joined.append(name);
    joined
}

/// Appends a suffix to a type name.
pub fn with_suffix(name: &str, suffix: &str) -> (joined: String)
    ensures
        joined@ == name@ + suffix@,
{
    let mut joined: String = name.to_owned();
    joined.append(suffix);
    joined
}

/// Splits a canonical type name (`package/kind/Name`) into its three parts.
pub fn split_canonical(full_name: &str) -> (parts: Option<(&str, &str, &str)>)
    ensures
        match parts {
            Some((package, kind, name)) => canonical_parts(full_name@) == Some(
                (package@, kind@, name@),
            ),
            None => canonical_parts(full_name@) is None,
        },
{
    let parts: Vec<&str> = split_text(full_name, '/');
    assert(texts(parts@).len() == parts@.len());
    if parts.len() == 3 {
        assert(texts(parts@)[0] == parts@[0]@);
        assert(texts(parts@)[1] == parts@[1]@);
        assert(texts(parts@)[2] == parts@[2]@);
        Some((parts[0], parts[1], parts[2]))
    } else {
        None
    }
}

/// Splits `package/msg/Name` (or the shorthand `package/Name`) into the package
/// and the name.
pub fn split_msg_type(full_name: &str) -> (parts: Option<(String, String)>)
    ensures
        match parts {
            Some((package, name)) => msg_type_parts(full_name@) == Some((package@, name@)),
            None => msg_type_parts(full_name@) is None,
        },
{
    let parts: Vec<&str> = split_text(full_name, '/');
    assert(texts(parts@).len() == parts@.len());
    assert(forall|i: int| 0 <= i < parts@.len() ==> texts(parts@)[i] == #[trigger] parts@[i]@);
    if parts.len() == 3 && same_text(parts[1], "msg") {
        Some((parts[0].to_owned(), parts[2].to_owned()))
    } else if parts.len() == 2 {
        Some((parts[0].to_owned(), parts[1].to_owned()))
    } else {
        None
    }
}

/// A piece without separators in front of a separator is the first piece.
proof fn lemma_split_first(a: Seq<char>, rest: Seq<char>, sep: char)
    requires
        !a.contains(sep),
    ensures
        split_by(a + seq![sep] + rest, sep) == seq![a] + split_by(rest, sep),
{
    let s = a + seq![sep] + rest;
    s.index_of_first_ensures(sep);
    assert(s[a.len() as int] == sep);
    assert(s.contains(sep));
    let i = s.index_of_first(sep)->0;
    if i < a.len() {
        assert(a[i] == sep);
    }
    assert(i == a.len());
    assert(s.take(i) =~= a);
    assert(s.skip(i + 1) =~= rest);
}

/// Text without separators at the end lengthens the last piece and nothing else.
proof fn lemma_split_suffix(s: Seq<char>, suffix: Seq<char>, sep: char)
    requires
        !suffix.contains(sep),
    ensures
        split_by(s, sep).len() > 0,
        split_by(s + suffix, sep) == split_by(s, sep).drop_last().push(
            split_by(s, sep).last() + suffix,
        ),
    decreases s.len(),
{
    let t = s + suffix;
    s.index_of_first_ensures(sep);
    t.index_of_first_ensures(sep);
    if s.contains(sep) {
        let i = s.index_of_first(sep)->0;
        assert(t[i] == sep);
        assert(t.contains(sep));
        let k = t.index_of_first(sep)->0;
        assert(k == i) by {
            if k < i {
                assert(s[k] == sep);
            }
        }
        assert(t.take(i) =~= s.take(i));
        assert(t.skip(i + 1) =~= s.skip(i + 1) + suffix);
        lemma_split_suffix(s.skip(i + 1), suffix, sep);
        assert(split_by(t, sep) =~= split_by(s, sep).drop_last().push(
            split_by(s, sep).last() + suffix,
        ));
    } else {
        assert(!t.contains(sep)) by {
            if t.contains(sep) {
                let k = choose|k: int| 0 <= k < t.len() && t[k] == sep;
                if k < s.len() {
                    assert(s[k] == sep);
                } else {
                    assert(suffix[k - s.len()] == sep);
                }
            }
        }
        assert(split_by(t, sep) =~= split_by(s, sep).drop_last().push(
            split_by(s, sep).last() + suffix,
        ));
    }
}

/// A split of `s` into one piece returns `s` whole.
proof fn lemma_split_single(s: Seq<char>, sep: char)
    ensures
        split_by(s, sep).len() > 0,
        split_by(s, sep).len() == 1 ==> split_by(s, sep) == seq![s] && !s.contains(sep),
        split_by(s, sep).len() > 1 ==> ({
            let first = split_by(s, sep)[0];
            let rest = s.skip(first.len() as int + 1);
            &&& first.len() < s.len()
            &&& s == first + seq![sep] + rest
            &&& !first.contains(sep)
            &&& split_by(s, sep) == seq![first] + split_by(rest, sep)
        }),
    decreases s.len(),
{
    s.index_of_first_ensures(sep);
    if s.contains(sep) {
        let i = s.index_of_first(sep)->0;
        lemma_split_single(s.skip(i + 1), sep);
        let first = s.take(i);
        assert(split_by(s, sep)[0] == first);
        assert(s =~= first + seq![sep] + s.skip(i + 1));
        assert(!first.contains(sep)) by {
            if first.contains(sep) {
                let k = choose|k: int| 0 <= k < first.len() && first[k] == sep;
                assert(s[k] == sep);
            }
        }
    }
}

/// Splitting a type name takes apart what joining one put together: the parts
/// of `package/kind/name` are the package, the kind and the name, whenever none
/// of them holds a slash.
pub proof fn law_split_canonical_of_join(package: Seq<char>, kind: Seq<char>, name: Seq<char>)
    requires
        slash_free(package),
        slash_free(kind),
        slash_free(name),
    ensures
        canonical_parts(ros_name(package, kind, name)) == Some((package, kind, name)),
{
    let tail = kind + seq!['/'] + name;
    assert(ros_name(package, kind, name) =~= package + seq!['/'] + tail);
    lemma_split_first(package, tail, '/');
    lemma_split_first(kind, name, '/');
    name.index_of_first_ensures('/');
    assert(split_by(name, '/') == seq![name]);
    let parts = split_by(ros_name(package, kind, name), '/');
    assert(parts =~= seq![package, kind, name]);
}

/// Joining the parts of a canonical type name gives the name back, and no part
/// holds a slash.
pub proof fn law_join_of_split_canonical(s: Seq<char>)
    requires
        canonical_parts(s) is Some,
    ensures
        ({
            let (package, kind, name) = canonical_parts(s)->0;
            &&& s == ros_name(package, kind, name)
            &&& slash_free(package)
            &&& slash_free(kind)
            &&& slash_free(name)
        }),
{
    lemma_split_single(s, '/');
    let first = split_by(s, '/')[0];
    let rest = s.skip(first.len() as int + 1);
    lemma_split_single(rest, '/');
    let second = split_by(rest, '/')[0];
    let last = rest.skip(second.len() as int + 1);
    lemma_split_single(last, '/');
    let (package, kind, name) = canonical_parts(s)->0;
    assert(package == first);
    assert(kind == second);
    assert(name == last);
    assert(s =~= ros_name(package, kind, name));
}

/// A suffix without slashes becomes part of the name, and a name is canonical
/// with the suffix exactly if it is without.
pub proof fn lemma_canonical_suffix(s: Seq<char>, suffix: Seq<char>)
    requires
        slash_free(suffix),
    ensures
        match canonical_parts(s) {
            Some((package, kind, name)) => canonical_parts(s + suffix) == Some(
                (package, kind, name + suffix),
            ),
            None => canonical_parts(s + suffix) is None,
        },
{
    lemma_split_suffix(s, suffix, '/');
}

/// A message type and its shorthand name the same definition.
pub proof fn law_shorthand_names_the_message(package: Seq<char>, name: Seq<char>)
    requires
        slash_free(package),
        slash_free(name),
    ensures
        msg_type_parts(ros_name(package, "msg"@, name)) == Some((package, name)),
        msg_type_parts(package + seq!['/'] + name) == Some((package, name)),
{
    reveal_strlit("msg");
    assert(slash_free("msg"@));
    law_split_canonical_of_join(package, "msg"@, name);
    lemma_split_first(package, name, '/');
    name.index_of_first_ensures('/');
    assert(split_by(package + seq!['/'] + name, '/') =~= seq![package, name]);
}

/// The pieces of two texts with a separator between them are the pieces of both.
proof fn lemma_split_joined(a: Seq<char>, b: Seq<char>, sep: char)
    ensures
        split_by(a + seq![sep] + b, sep) == split_by(a, sep) + split_by(b, sep),
    decreases a.len(),
{
    a.index_of_first_ensures(sep);
    if a.contains(sep) {
        let i = a.index_of_first(sep)->0;
        let first = a.take(i);
        let rest = a.skip(i + 1);
        assert(!first.contains(sep)) by {
            if first.contains(sep) {
                let k = choose|k: int| 0 <= k < first.len() && first[k] == sep;
                assert(a[k] == sep);
            }
        }
        assert(a + seq![sep] + b =~= first + seq![sep] + (rest + seq![sep] + b));
        lemma_split_first(first, rest + seq![sep] + b, sep);
        lemma_split_joined(rest, b, sep);
        assert(seq![first] + (split_by(rest, sep) + split_by(b, sep)) =~= (seq![first] + split_by(
            rest,
            sep,
        )) + split_by(b, sep));
    } else {
        lemma_split_first(a, b, sep);
    }
}

/// A joined type name is canonical exactly if neither the package nor the name holds a
/// slash.
pub proof fn law_slashes_spoil_a_name(package: Seq<char>, kind: Seq<char>, name: Seq<char>)
    requires
        slash_free(kind),
    ensures
        canonical_parts(ros_name(package, kind, name)) is Some <==> slash_free(package)
            && slash_free(name),
{
    let tail = kind + seq!['/'] + name;
    assert(ros_name(package, kind, name) =~= package + seq!['/'] + tail);
    lemma_split_joined(package, tail, '/');
    lemma_split_joined(kind, name, '/');
    lemma_split_single(package, '/');
    lemma_split_single(name, '/');
    kind.index_of_first_ensures('/');
    package.index_of_first_ensures('/');
    name.index_of_first_ensures('/');
}

/// Splitting undoes joining: a text without a separator is one piece, and two texts with a
/// separator between them have the pieces of the first and then those of the second.
pub proof fn law_pieces_stand_between_separators(a: Seq<char>, b: Seq<char>, sep: char)
    ensures
        !a.contains(sep) ==> split_by(a, sep) == seq![a],
        split_by(a + seq![sep] + b, sep) == split_by(a, sep) + split_by(b, sep),
{
    a.index_of_first_ensures(sep);
    lemma_split_joined(a, b, sep);
}

/// A type name is its package, its kind and its name, with a slash between them.
pub proof fn law_type_names_are_joined_by_slashes(
    package: Seq<char>,
    kind: Seq<char>,
    name: Seq<char>,
)
    ensures
        ros_name(package, kind, name) == package + "/"@ + kind + "/"@ + name,
{
    reveal_strlit("/");
    assert(ros_name(package, kind, name) =~= package + "/"@ + kind + "/"@ + name);
}

/// A name is canonical, with the given parts, exactly if the parts hold no slash and the name
/// is made of them with a slash between each two.
pub proof fn law_canonical_names_have_three_parts(
    s: Seq<char>,
    package: Seq<char>,
    kind: Seq<char>,
    name: Seq<char>,
)
    ensures
        canonical_parts(s) == Some((package, kind, name)) <==> {
            &&& s == package + "/"@ + kind + "/"@ + name
            &&& !package.contains('/')
            &&& !kind.contains('/')
            &&& !name.contains('/')
        },
{
    law_type_names_are_joined_by_slashes(package, kind, name);
    if canonical_parts(s) == Some((package, kind, name)) {
        law_join_of_split_canonical(s);
    }
    if slash_free(package) && slash_free(kind) && slash_free(name) {
        law_split_canonical_of_join(package, kind, name);
    }
}

/// A name is that of a message type exactly if it is written `package/msg/Name` or
/// `package/Name`, without further slashes.
pub proof fn law_message_types_are_written_in_two_ways(
    s: Seq<char>,
    package: Seq<char>,
    name: Seq<char>,
)
    ensures
        msg_type_parts(s) == Some((package, name)) <==> {
            &&& s == package + "/msg/"@ + name || s == package + "/"@ + name
            &&& !package.contains('/')
            &&& !name.contains('/')
        },
{
    reveal_strlit("/");
    reveal_strlit("/msg/");
    reveal_strlit("msg");
    assert(ros_name(package, "msg"@, name) =~= package + "/msg/"@ + name);
    assert(package + seq!['/'] + name =~= package + "/"@ + name);
    if slash_free(package) && slash_free(name) {
        law_shorthand_names_the_message(package, name);
    }
    if msg_type_parts(s) == Some((package, name)) {
        lemma_split_single(s, '/');
        let parts = split_by(s, '/');
        if parts.len() == 3 {
            law_join_of_split_canonical(s);
        } else {
            let rest = s.skip(parts[0].len() as int + 1);
            lemma_split_single(rest, '/');
            assert(split_by(rest, '/')[0] == parts[1]);
        }
    }
}

} // verus!
