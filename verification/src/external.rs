//! Finding the executable that a command name stands for.
use vstd::prelude::*;

verus! {

/// Whether the last component of `path` is `name`: `path` ends with `name`, and either that
/// is all of it or a `/` comes just before.
pub open spec fn names_file(path: Seq<char>, name: Seq<char>) -> bool {
    &&& name.len() <= path.len()
    &&& path.skip(path.len() - name.len()) == name
    &&& (path.len() == name.len() || path[path.len() - name.len() - 1] == '/')
}

/// Whether `found` can be what a search of `PATH` for `name` gives: for a name that is not
/// empty and holds no `/`, a path found is a directory of `PATH` joined with the name.
pub open spec fn found_for(name: Seq<char>, found: Option<Seq<char>>) -> bool {
    name.len() > 0 && !name.contains('/') ==> match found {
        Some(p) => names_file(p, name),
        None => true,
    }
}

/// The path of the executable that `cmd` names, searched for in the directories of `PATH`
/// (or `cmd` itself when it is a path); `None` when there is none.
///
/// Trusted: calls `which::which` and writes the path it finds as text. For a name without a
/// separator, `which` joins each directory of `PATH` with the name (`Path::join`), so the
/// name is the last component of what it returns; the contract states that. Which
/// directory, and whether anything is found, depends on the environment and the file system
/// and is not stated.
#[verifier::external_body]
pub fn command_path(cmd: &str) -> (r: Option<String>)
    ensures
        found_for(
            cmd@,
            match r {
                Some(p) => Some(p@),
                None => None,
            },
        ),
{
    which::which(cmd).ok().map(|p| p.display().to_string())
}

} // verus!
