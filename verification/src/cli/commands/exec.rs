//! The rules of `exec`: where a project's binaries live and what a failed
//! run is reported as.
use vstd::prelude::*;
use crate::error::{CNodeError, ErrorKind};
use crate::text::{concat, join_path, join_path_spec};

verus! {

/// Where a project's binary of the given name is looked for.
pub fn bin_candidate(command: &str) -> (p: String)
    ensures
        p@ == join_path_spec("node_modules/.bin"@, command@),
{
    join_path("node_modules/.bin", command)
}

/// The error for a binary that is not installed.
pub fn command_missing(command: &str) -> (e: CNodeError)
    ensures
        e@ == (ErrorKind::Custom, "cannot find command `"@ + command@ + "`. Make sure it is installed in node_modules/.bin"@),
{
    let mut m = concat("cannot find command `", command);
    m.append("`. Make sure it is installed in node_modules/.bin");
    CNodeError::Custom(m)
}

/// The error for a binary that could not be started, with the reason.
pub fn command_failed(command: &str, reason: &str) -> (e: CNodeError)
    ensures
        e@ == (ErrorKind::Custom, "failed to execute "@ + command@ + ": "@ + reason@),
{
    let mut m = concat("failed to execute ", command);
    m.append(": ");
    m.append(reason);
    CNodeError::Custom(m)
}

} // verus!
