//! The rules of `new`: refusing an existing directory and the README of a
//! new project.
use vstd::prelude::*;
use crate::error::{CNodeError, ErrorKind};
use crate::text::concat;

verus! {

/// The error for a project directory that already exists.
pub fn directory_exists(name: &str) -> (e: CNodeError)
    ensures
        e@ == (ErrorKind::Custom, "directory "@ + name@ + " already exists"@),
{
    let mut m = concat("directory ", name);
    m.append(" already exists");
    CNodeError::Custom(m)
}

/// The README of a new project: its name as a title.
pub fn readme_text(name: &str) -> (t: String)
    ensures
        t@ == "# "@ + name@ + "\n\n"@,
{
    let mut t = concat("# ", name);
    t.append("\n\n");
    t
}

} // verus!
