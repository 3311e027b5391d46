//! The rules of `uninstall`: which package an argument names and where it
//! was unpacked.
use vstd::prelude::*;
use crate::cli::commands::install::{find_first, first_index_of, package_dir_spec, safe_package_path};
use crate::error::{CNodeError, ErrorKind};
use crate::text::{chars_of, head_to, owned, string_from_chars};

verus! {

/// The package an `uninstall` argument names: the text before its first
/// `@`, unless that `@` starts it.
pub open spec fn uninstall_name_spec(pkg: Seq<char>) -> Seq<char> {
    match first_index_of(pkg, '@') {
        Some(i) => if i == 0 {
            pkg
        } else {
            pkg.take(i)
        },
        None => pkg,
    }
}

/// The package an `uninstall` argument names.
pub fn uninstall_name(pkg: &str) -> (n: String)
    ensures
        n@ == uninstall_name_spec(pkg@),
{
    let pc = chars_of(pkg);
    match find_first(pc.as_slice(), '@') {
        Some(i) => if i == 0 {
            owned(pkg)
        } else {
            string_from_chars(head_to(pc.as_slice(), i).as_slice())
        },
        None => owned(pkg),
    }
}

/// The packages to uninstall, each with the directory it was unpacked
/// into; an error when none is named.
pub fn uninstall_targets(packages: &Vec<String>) -> (r: Result<Vec<(String, String)>, CNodeError>)
    ensures
        packages@.len() == 0 <==> r is Err,
        r matches Err(e) ==> e@ == (ErrorKind::Custom, "No packages specified"@),
        r matches Ok(v) ==> v@.len() == packages@.len() && forall|i: int|
            0 <= i < v@.len() ==> (#[trigger] v@[i]).0@ == uninstall_name_spec(packages@[i]@) && v@[i].1@
                == package_dir_spec(uninstall_name_spec(packages@[i]@)),
{
    if packages.len() == 0 {
        return Err(CNodeError::Custom(owned("No packages specified")));
    }
    let mut out: Vec<(String, String)> = Vec::new();
    let mut i: usize = 0;
    while i < packages.len()
        invariant
            i <= packages@.len(),
            out@.len() == i,
            forall|j: int|
                0 <= j < i ==> (#[trigger] out@[j]).0@ == uninstall_name_spec(packages@[j]@) && out@[j].1@
                    == package_dir_spec(uninstall_name_spec(packages@[j]@)),
        decreases packages@.len() - i,
    {
        let name = uninstall_name(packages[i].as_str());
        let dir = safe_package_path(name.as_str());
        out.push((name, dir));
        i = i + 1;
    }
    Ok(out)
}

} // verus!
