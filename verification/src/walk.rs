//! Which entries of a directory tree a scan looks at: the directories it
//! stays out of, and the files it reads.

use vstd::prelude::*;
use crate::text::{contains, occurs_at, occurs_in, starts_at, to_chars};

verus! {

/// The names that mark a directory as one to stay out of: those of version
/// control, of dependency caches, of virtual environments and of bytecode
/// caches.
pub open spec fn excluded_names() -> Seq<Seq<char>> {
    seq![
        ".git"@,
        "node_modules"@,
        "__pycache__"@,
        ".mypy_cache"@,
        ".venv"@,
        "venv"@,
        ".env"@,
    ]
}

/// Whether a scan stays out of an entry: whether it is a directory whose name
/// holds one of the excluded names somewhere.
pub open spec fn is_excluded_entry(is_dir: bool, name: Seq<char>) -> bool {
    is_dir && exists|i: int|
        0 <= i < excluded_names().len() && occurs_in(name, #[trigger] excluded_names()[i])
}

/// The ending of the name of a source file.
pub open spec fn source_ending() -> Seq<char> {
    ".py"@
}

/// Whether a file of this name is a source file: whether the name ends with
/// the ending of source files and has something before it.
pub open spec fn is_source_name(name: Seq<char>) -> bool {
    name.len() > source_ending().len() && occurs_at(
        name,
        source_ending(),
        name.len() - source_ending().len(),
    )
}

/// Tells whether a scan stays out of an entry with this name: a directory
/// whose name holds an excluded name. A scan prunes such a directory with
/// all that lies below it.
pub fn is_excluded(is_dir: bool, file_name: &str) -> (r: bool)
    ensures
        r == is_excluded_entry(is_dir, file_name@),
{
    if !is_dir {
        return false;
    }
    let name = to_chars(file_name);
    let name = name.as_slice();
    let r = contains(name, to_chars(".git").as_slice()) || contains(
        name,
        to_chars("node_modules").as_slice(),
    ) || contains(name, to_chars("__pycache__").as_slice()) || contains(
        name,
        to_chars(".mypy_cache").as_slice(),
    ) || contains(name, to_chars(".venv").as_slice()) || contains(name, to_chars("venv").as_slice())
        || contains(name, to_chars(".env").as_slice());
    proof {
        let names = excluded_names();
        assert(names[0] == ".git"@ && names[1] == "node_modules"@ && names[2] == "__pycache__"@
            && names[3] == ".mypy_cache"@ && names[4] == ".venv"@ && names[5] == "venv"@
            && names[6] == ".env"@);
    }
    r
}

/// Tells whether a file of this name is a source file that a scan reads.
pub fn is_source_file(file_name: &str) -> (r: bool)
    ensures
        r == is_source_name(file_name@),
{
    let name = to_chars(file_name);
    let ending = to_chars(".py");
    if name.len() <= ending.len() {
        return false;
    }
    starts_at(name.as_slice(), ending.as_slice(), name.len() - ending.len())
}

} // verus!
