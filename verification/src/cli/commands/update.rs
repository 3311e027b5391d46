//! The rules of `update`: which declared dependencies get updated.
use vstd::prelude::*;
use crate::cli::commands::install::declared_spec;
use crate::error::{CNodeError, ErrorKind};
use crate::resolver::pairs_view;
use crate::text::{owned, str_eq};

verus! {

/// The specification a manifest declares for `name`, if it declares it.
pub open spec fn declared_lookup(declared: Seq<(String, Option<String>)>, name: Seq<char>) -> Option<Seq<char>>
    decreases declared.len(),
{
    if declared.len() == 0 {
        None
    } else {
        match declared_lookup(declared.drop_last(), name) {
            Some(v) => Some(v),
            None => if declared.last().0@ == name {
                Some(declared_spec(declared.last().1))
            } else {
                None
            },
        }
    }
}

/// The named packages that the manifest declares, with their
/// specifications, in the order named.
pub open spec fn named_updates(packages: Seq<String>, declared: Seq<(String, Option<String>)>) -> Seq<(Seq<char>, Seq<char>)>
    decreases packages.len(),
{
    if packages.len() == 0 {
        Seq::empty()
    } else {
        let rest = named_updates(packages.drop_last(), declared);
        match declared_lookup(declared, packages.last()@) {
            Some(v) => rest.push((packages.last()@, v)),
            None => rest,
        }
    }
}

/// What `update` is asked to update: the named packages the manifest
/// declares, or with `--all` every declared dependency.
pub open spec fn update_requests_spec(
    packages: Option<Seq<String>>,
    all: bool,
    declared: Option<Seq<(String, Option<String>)>>,
) -> Result<Seq<(Seq<char>, Seq<char>)>, (ErrorKind, Seq<char>)> {
    match declared {
        None => Err((ErrorKind::Custom, "No dependencies in package.json"@)),
        Some(d) => {
            let list: Result<Seq<(Seq<char>, Seq<char>)>, (ErrorKind, Seq<char>)> = match packages {
                Some(p) => Ok(named_updates(p, d)),
                None => if all {
                    Ok(Seq::new(d.len(), |i: int| (d[i].0@, declared_spec(d[i].1))))
                } else {
                    Err((ErrorKind::Custom, "Specify packages or use --all"@))
                },
            };
            match list {
                Ok(l) => if l.len() == 0 {
                    Err((ErrorKind::Custom, "No packages to update"@))
                } else {
                    Ok(l)
                },
                Err(e) => Err(e),
            }
        },
    }
}

/// The specification a manifest declares for `name`.
fn lookup_declared(declared: &Vec<(String, Option<String>)>, name: &str) -> (r: Option<String>)
    ensures
        r matches Some(v) ==> declared_lookup(declared@, name@) == Some(v@),
        r is None ==> declared_lookup(declared@, name@) is None,
{
    let mut i: usize = 0;
    while i < declared.len()
        invariant
            i <= declared@.len(),
            declared_lookup(declared@.take(i as int), name@) is None,
        decreases declared@.len() - i,
    {
        proof {
            assert(declared@.take(i + 1).drop_last() =~= declared@.take(i as int));
            assert(declared@.take(i + 1).last() == declared@[i as int]);
        }
        if str_eq(declared[i].0.as_str(), name) {
            let v = match &declared[i].1 {
                Some(s) => s.clone(),
                None => owned("latest"),
            };
            proof {
                lemma_lookup_extends(declared@, i as int + 1, name@);
            }
            return Some(v);
        }
        i = i + 1;
    }
    assert(declared@.take(declared@.len() as int) =~= declared@);
    None
}

proof fn lemma_lookup_extends(declared: Seq<(String, Option<String>)>, n: int, name: Seq<char>)
    requires
        0 <= n <= declared.len(),
        declared_lookup(declared.take(n), name) is Some,
    ensures
        declared_lookup(declared, name) == declared_lookup(declared.take(n), name),
    decreases declared.len() - n,
{
    if n < declared.len() {
        assert(declared.take(n + 1).drop_last() =~= declared.take(n));
        lemma_lookup_extends(declared, n + 1, name);
    } else {
        assert(declared.take(n) =~= declared);
    }
}

/// What `update` is asked to update, `(name, spec)` in order.
pub fn update_requests(
    packages: Option<&Vec<String>>,
    all: bool,
    declared: Option<&Vec<(String, Option<String>)>>,
) -> (r: Result<Vec<(String, String)>, CNodeError>)
    ensures
        crate::cli::commands::install::requests_result_view(r) == update_requests_spec(
            match packages {
                Some(p) => Some(p@),
                None => None,
            },
            all,
            match declared {
                Some(d) => Some(d@),
                None => None,
            },
        ),
{
    let d = match declared {
        Some(d) => d,
        None => {
            return Err(CNodeError::Custom(owned("No dependencies in package.json")));
        },
    };
    let mut out: Vec<(String, String)> = Vec::new();
    match packages {
        Some(p) => {
            let mut i: usize = 0;
            assert(p@.take(0) =~= Seq::<String>::empty());
            while i < p.len()
                invariant
                    i <= p@.len(),
                    pairs_view(out@) == named_updates(p@.take(i as int), d@),
                decreases p@.len() - i,
            {
                proof {
                    assert(p@.take(i + 1).drop_last() =~= p@.take(i as int));
                    assert(p@.take(i + 1).last() == p@[i as int]);
                }
                match lookup_declared(d, p[i].as_str()) {
                    Some(v) => {
                        out.push((p[i].clone(), v));
                        assert(pairs_view(out@) =~= named_updates(p@.take(i + 1), d@));
                    },
                    None => {},
                }
                i = i + 1;
            }
            assert(p@.take(p@.len() as int) =~= p@);
        },
        None => {
            if !all {
                return Err(CNodeError::Custom(owned("Specify packages or use --all")));
            }
            let mut i: usize = 0;
            while i < d.len()
                invariant
                    i <= d@.len(),
                    out@.len() == i,
                    forall|j: int| 0 <= j < i ==> (#[trigger] out@[j]).0@ == d@[j].0@ && out@[j].1@ == declared_spec(
                        d@[j].1,
                    ),
                decreases d@.len() - i,
            {
                let spec = match &d[i].1 {
                    Some(s) => s.clone(),
                    None => owned("latest"),
                };
                out.push((d[i].0.clone(), spec));
                i = i + 1;
            }
            assert(pairs_view(out@) =~= Seq::new(d@.len(), |i: int| (d@[i].0@, declared_spec(d@[i].1))));
        },
    }
    if out.len() == 0 {
        return Err(CNodeError::Custom(owned("No packages to update")));
    }
    Ok(out)
}

} // verus!
