//! Where message definitions are looked for on disk.
//!
//! A search path lists directories, separated by colons. The library decides which
//! files to look for, and in which order; whether a file exists, and what the last
//! component of a directory's path is, the caller answers.

use crate::names::with_suffix;
use crate::text::{same_text, split_by, split_text, texts, trim_text, trimmed};
use vstd::prelude::*;
use vstd::string::*;

verus! {

/// A path, as the parts that are to be joined to it, in order.
#[derive(Clone, Debug, PartialEq, Eq)]
pub struct MsgPath {
    pub parts: Vec<String>,
}

impl View for MsgPath {
    type V = Seq<Seq<char>>;

    open spec fn view(&self) -> Seq<Seq<char>> {
        self.parts@.map_values(|part: String| part@)
    }
}

impl DeepView for MsgPath {
    type V = Seq<Seq<char>>;

    open spec fn deep_view(&self) -> Seq<Seq<char>> {
        self@
    }
}

/// What may be said to be the last component of each directory's path.
pub type DirNames = spec_fn(Seq<char>, Option<Seq<char>>) -> bool;

/// Whether each path may be said to be a file, or not to be one.
pub type Files = spec_fn(Seq<Seq<char>>, bool) -> bool;

/// What `dir_name` may answer.
pub open spec fn dir_names<D: Fn(&str) -> Option<String>>(dir_name: D) -> DirNames {
    |dir: Seq<char>, name: Option<Seq<char>>|
        exists|s: &str, r: Option<String>|
            {
                &&& #[trigger] call_ensures(dir_name, (s,), r)
                &&& s@ == dir
                &&& r.deep_view() == name
            }
}

/// What `is_file` may answer.
pub open spec fn files<F: Fn(&MsgPath) -> bool>(is_file: F) -> Files {
    |path: Seq<Seq<char>>, answer: bool|
        exists|p: &MsgPath|
            {
                &&& #[trigger] call_ensures(is_file, (p,), answer)
                &&& p@ == path
            }
}

/// The entries of a search path: what stands between the colons, without white
/// space around it.
pub open spec fn path_entries(msg_path: Seq<char>) -> Seq<Seq<char>> {
    split_by(msg_path, ':').map_values(|entry: Seq<char>| trimmed(entry))
}

/// The file of a message in a directory that holds packages.
pub open spec fn in_prefix(entry: Seq<char>, package: Seq<char>, name: Seq<char>) -> Seq<
    Seq<char>,
> {
    seq![entry, package, "msg"@, name + ".msg"@]
}

/// The file of a message in the directory of its package.
pub open spec fn in_package(entry: Seq<char>, name: Seq<char>) -> Seq<Seq<char>> {
    seq![entry, "msg"@, name + ".msg"@]
}

/// Whether an entry is passed over: it is empty, or the message has no file in it as
/// a directory of packages, nor, if it is named like the package, as the package.
pub open spec fn passed_over(
    dirs: DirNames,
    is_file: Files,
    entry: Seq<char>,
    package: Seq<char>,
    name: Seq<char>,
) -> bool {
    entry.len() == 0 || {
        &&& is_file(in_prefix(entry, package, name), false)
        &&& exists|dir: Option<Seq<char>>|
            {
                &&& #[trigger] dirs(entry, dir)
                &&& dir == Some(package) ==> is_file(in_package(entry, name), false)
            }
    }
}

/// Whether the search ends at an entry with the file at `path`. The entry is taken
/// for the package itself only if it is named like the package.
pub open spec fn chosen(
    dirs: DirNames,
    is_file: Files,
    entry: Seq<char>,
    package: Seq<char>,
    name: Seq<char>,
    path: Seq<Seq<char>>,
) -> bool {
    &&& entry.len() > 0
    &&& is_file(path, true)
    &&& {
        ||| path == in_prefix(entry, package, name)
        ||| {
            &&& path == in_package(entry, name)
            &&& dirs(entry, Some(package))
            &&& is_file(in_prefix(entry, package, name), false)
        }
    }
}

/// Whether the search passes over all entries before the one at `i` and ends there.
pub open spec fn chosen_at(
    dirs: DirNames,
    is_file: Files,
    entries: Seq<Seq<char>>,
    package: Seq<char>,
    name: Seq<char>,
    path: Seq<Seq<char>>,
    i: int,
) -> bool {
    &&& 0 <= i < entries.len()
    &&& chosen(dirs, is_file, entries[i], package, name, path)
    &&& forall|j: int|
        0 <= j < i ==> passed_over(dirs, is_file, #[trigger] entries[j], package, name)
}

/// What comes of looking for the file of a message in the entries, in order.
pub open spec fn search_outcome(
    dirs: DirNames,
    is_file: Files,
    entries: Seq<Seq<char>>,
    package: Seq<char>,
    name: Seq<char>,
    out: Option<Seq<Seq<char>>>,
) -> bool {
    match out {
        Some(path) => exists|i: int| #[trigger]
            chosen_at(dirs, is_file, entries, package, name, path, i),
        None => forall|i: int|
            0 <= i < entries.len() ==> passed_over(
                dirs,
                is_file,
                #[trigger] entries[i],
                package,
                name,
            ),
    }
}

/// What comes of looking for the file of a message. Nothing is found without a
/// search path.
pub open spec fn find_outcome(
    dirs: DirNames,
    is_file: Files,
    msg_path: Option<Seq<char>>,
    package: Seq<char>,
    name: Seq<char>,
    out: Option<Seq<Seq<char>>>,
) -> bool {
    match msg_path {
        None => out is None,
        Some(msg_path) => search_outcome(
            dirs,
            is_file,
            path_entries(msg_path),
            package,
            name,
            out,
        ),
    }
}

/// Looks for the file of a message in one entry of the search path.
fn find_in_entry<D: Fn(&str) -> Option<String>, F: Fn(&MsgPath) -> bool>(
    entry: &str,
    package: &str,
    name: &str,
    dir_name: &D,
    is_file: &F,
) -> (found: Option<MsgPath>)
    requires
        forall|s: &str| call_requires(*dir_name, (s,)),
        forall|p: &MsgPath| call_requires(*is_file, (p,)),
    ensures
        match found {
            Some(path) => chosen(
                dir_names(*dir_name),
                files(*is_file),
                entry@,
                package@,
                name@,
                path@,
            ),
            None => passed_over(dir_names(*dir_name), files(*is_file), entry@, package@, name@),
        },
{
    if entry.is_empty() {
        return None;
    }
    let file: String = with_suffix(name, ".msg");
    let as_prefix: MsgPath = MsgPath {
        parts: vec![entry.to_owned(), package.to_owned(), "msg".to_owned(), file.clone()],
    };
    assert(as_prefix@ =~= in_prefix(entry@, package@, name@));
    let exists_in_prefix: bool = is_file(&as_prefix);
    assert(files(*is_file)(as_prefix@, exists_in_prefix));
    if exists_in_prefix {
        return Some(as_prefix);
    }
    let dir: Option<String> = dir_name(entry);
    assert(dir_names(*dir_name)(entry@, dir.deep_view()));
    let is_package: bool = match &dir {
        Some(dir) => same_text(dir.as_str(), package),
        None => false,
    };
    if is_package {
        let as_package: MsgPath = MsgPath {
            parts: vec![entry.to_owned(), "msg".to_owned(), file],
        };
        assert(as_package@ =~= in_package(entry@, name@));
        let exists_in_package: bool = is_file(&as_package);
        assert(files(*is_file)(as_package@, exists_in_package));
        if exists_in_package {
            return Some(as_package);
        }
    }
    None
}

/// Finds the file `package/msg/name.msg` along a search path, if there is a search
/// path.
///
/// Each entry is tried as a directory that contains packages and, only if its last
/// component is `package`, as the directory of the package itself. So a message is
/// never taken from a package of another name that stands earlier in the path.
pub fn find_msg_file<D: Fn(&str) -> Option<String>, F: Fn(&MsgPath) -> bool>(
    msg_path: Option<&str>,
    package: &str,
    name: &str,
    dir_name: &D,
    is_file: &F,
) -> (found: Option<MsgPath>)
    requires
        forall|s: &str| call_requires(*dir_name, (s,)),
        forall|p: &MsgPath| call_requires(*is_file, (p,)),
    ensures
        find_outcome(
            dir_names(*dir_name),
            files(*is_file),
            msg_path.deep_view(),
            package@,
            name@,
            found.deep_view(),
        ),
{
    let search_path: &str = match msg_path {
        Some(msg_path) => msg_path,
        None => {
            return None;
        },
    };
    let ghost dirs = dir_names(*dir_name);
    let ghost may_be_file = files(*is_file);
    let ghost entries = path_entries(search_path@);
    let parts: Vec<&str> = split_text(search_path, ':');
    assert(texts(parts@).len() == parts@.len());
    for i in 0..parts.len()
        invariant
            forall|s: &str| call_requires(*dir_name, (s,)),
            forall|p: &MsgPath| call_requires(*is_file, (p,)),
            dirs == dir_names(*dir_name),
            may_be_file == files(*is_file),
            msg_path.deep_view() == Some(search_path@),
            entries == path_entries(search_path@),
            texts(parts@) == split_by(search_path@, ':'),
            forall|j: int|
                0 <= j < i ==> passed_over(
                    dirs,
                    may_be_file,
                    #[trigger] entries[j],
                    package@,
                    name@,
                ),
    {
        let entry: &str = trim_text(parts[i]);
        assert(entries[i as int] == entry@) by {
            assert(texts(parts@)[i as int] == parts@[i as int]@);
        }
        match find_in_entry(entry, package, name, dir_name, is_file) {
            Some(path) => {
                let ghost out = Some(path@);
                assert(out->0 == path@);
                assert(chosen_at(dirs, may_be_file, entries, package@, name@, out->0, i as int));
                assert(search_outcome(dirs, may_be_file, entries, package@, name@, out));
                return Some(path);
            },
            None => {},
        }
    }
    None
}

/// A file that is found belongs to the package that was asked for: either the
/// package is part of its path, or it stands in a directory of the search path that
/// is named like the package.
pub proof fn law_found_file_is_of_the_package(
    dirs: DirNames,
    is_file: Files,
    msg_path: Seq<char>,
    package: Seq<char>,
    name: Seq<char>,
    path: Seq<Seq<char>>,
)
    requires
        find_outcome(dirs, is_file, Some(msg_path), package, name, Some(path)),
    ensures
        is_file(path, true),
        exists|i: int|
            0 <= i < path_entries(msg_path).len() && ({
                let entry = #[trigger] path_entries(msg_path)[i];
                ||| path == in_prefix(entry, package, name)
                ||| path == in_package(entry, name) && dirs(entry, Some(package))
            }),
{
    let entries = path_entries(msg_path);
    let i = choose|i: int| #[trigger]
        chosen_at(dirs, is_file, entries, package, name, path, i);
    assert(chosen(dirs, is_file, entries[i], package, name, path));
}

/// Every piece of the search path between colons is looked into, in order, without the white
/// space around it. If nothing is found, each piece is empty, or holds no file of the message,
/// neither under the package nor, if it is named like the package, itself. If a file is
/// found, it is in some piece, under the package if it is there, and all pieces before that
/// one were passed over in the same way.
pub proof fn law_every_piece_of_the_search_path_is_tried(
    dirs: DirNames,
    is_file: Files,
    msg_path: Seq<char>,
    package: Seq<char>,
    name: Seq<char>,
    out: Option<Seq<Seq<char>>>,
)
    requires
        find_outcome(dirs, is_file, Some(msg_path), package, name, out),
    ensures
        ({
            let pieces = split_by(msg_path, ':');
            match out {
                None => forall|i: int|
                    0 <= i < pieces.len() ==> nothing_under(
                        dirs,
                        is_file,
                        trimmed(#[trigger] pieces[i]),
                        package,
                        name,
                    ),
                Some(path) => exists|i: int|
                    {
                        let dir = trimmed(#[trigger] pieces[i]);
                        &&& 0 <= i < pieces.len()
                        &&& dir.len() > 0
                        &&& is_file(path, true)
                        &&& {
                            ||| path == seq![dir, package, "msg"@, name + ".msg"@]
                            ||| {
                                &&& path == seq![dir, "msg"@, name + ".msg"@]
                                &&& dirs(dir, Some(package))
                                &&& is_file(seq![dir, package, "msg"@, name + ".msg"@], false)
                            }
                        }
                        &&& forall|j: int|
                            0 <= j < i ==> nothing_under(
                                dirs,
                                is_file,
                                trimmed(#[trigger] pieces[j]),
                                package,
                                name,
                            )
                    },
            }
        }),
{
    let pieces = split_by(msg_path, ':');
    let entries = path_entries(msg_path);
    assert forall|i: int| 0 <= i < pieces.len() implies entries[i] == trimmed(
        #[trigger] pieces[i],
    ) by {}
    match out {
        None => {
            assert forall|i: int| 0 <= i < pieces.len() implies nothing_under(
                dirs,
                is_file,
                trimmed(#[trigger] pieces[i]),
                package,
                name,
            ) by {
                assert(passed_over(dirs, is_file, entries[i], package, name));
            }
        },
        Some(path) => {
            let i = choose|i: int| #[trigger]
                chosen_at(dirs, is_file, entries, package, name, path, i);
            assert(entries[i] == trimmed(pieces[i]));
            assert forall|j: int| 0 <= j < i implies nothing_under(
                dirs,
                is_file,
                trimmed(#[trigger] pieces[j]),
                package,
                name,
            ) by {
                assert(passed_over(dirs, is_file, entries[j], package, name));
            }
        },
    }
}

/// Whether a directory holds no file of a message: it has no name, or the file is not there
/// under the package, nor, if the directory is the package's, in it.
pub open spec fn nothing_under(
    dirs: DirNames,
    is_file: Files,
    dir: Seq<char>,
    package: Seq<char>,
    name: Seq<char>,
) -> bool {
    dir.len() == 0 || {
        &&& is_file(seq![dir, package, "msg"@, name + ".msg"@], false)
        &&& exists|last: Option<Seq<char>>| #[trigger]
            dirs(dir, last) && (last == Some(package) ==> is_file(
                seq![dir, "msg"@, name + ".msg"@],
                false,
            ))
    }
}

/// Without a search path, nothing is found.
pub proof fn law_nothing_is_found_without_a_search_path(
    dirs: DirNames,
    is_file: Files,
    package: Seq<char>,
    name: Seq<char>,
    out: Option<Seq<Seq<char>>>,
)
    requires
        find_outcome(dirs, is_file, None, package, name, out),
    ensures
        out is None,
{
}

/// Whether a path is a file, and what a directory is called, is what the caller says: if all
/// that it can say is one thing, that is the answer.
pub proof fn law_the_caller_answers_for_the_disk<
    D: Fn(&str) -> Option<String>,
    F: Fn(&MsgPath) -> bool,
>(
    dir_name: D,
    is_file: F,
    dir: Seq<char>,
    path: Seq<Seq<char>>,
    last: Option<Seq<char>>,
    there: bool,
)
    ensures
        (forall|s: &str, r: Option<String>| #[trigger]
            call_ensures(dir_name, (s,), r) && s@ == dir ==> match r {
                Some(component) => last == Some(component@),
                None => last is None,
            }) ==> forall|answer: Option<Seq<char>>| #[trigger]
            dir_names(dir_name)(dir, answer) ==> answer == last,
        (forall|p: &MsgPath, r: bool| #[trigger]
            call_ensures(is_file, (p,), r) && p@ == path ==> r == there) ==> forall|answer: bool|
         #[trigger]
            files(is_file)(path, answer) ==> answer == there,
{
}

/// A path is its parts, one by one.
pub proof fn law_path_model(path: MsgPath)
    ensures
        path@.len() == path.parts@.len(),
        forall|i: int| 0 <= i < path.parts@.len() ==> #[trigger] path@[i] == path.parts@[i]@,
        path.deep_view() == path@,
{
}

} // verus!
