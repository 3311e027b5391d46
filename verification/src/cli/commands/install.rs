//! The rules of `install`: reading a package argument, where a package is
//! unpacked, what gets installed, the walk that resolves every transitive
//! dependency once, what `--save` records and the package-lock entries.
use vstd::prelude::*;
use crate::error::{CNodeError, ErrorKind, string_result_view};
use crate::package::PackageMetadata;
use crate::registry::{Registry, resolve_spec};
use crate::resolver::{Resolver, pairs_view};
use crate::strmap::StringMap;
use crate::text::{
    chars_of, concat, head_to, join_path, join_path_spec, owned, sorted_strings, str_eq,
    string_from_chars, tail_from, lex_lt,
};

verus! {

/// The position of the last occurrence of `c` in `s`.
pub open spec fn last_index_of(s: Seq<char>, c: char) -> Option<int>
    decreases s.len(),
{
    if s.len() == 0 {
        None
    } else if s.last() == c {
        Some(s.len() - 1)
    } else {
        last_index_of(s.drop_last(), c)
    }
}

/// The position of the first occurrence of `c` in `s`.
pub open spec fn first_index_of(s: Seq<char>, c: char) -> Option<int>
    decreases s.len(),
{
    if s.len() == 0 {
        None
    } else {
        match first_index_of(s.drop_last(), c) {
            Some(i) => Some(i),
            None => if s.last() == c {
                Some(s.len() - 1)
            } else {
                None
            },
        }
    }
}

/// The name and version specification of a package argument: the text
/// before and after its last `@`. An argument without `@`, one whose only
/// `@` starts it (a scope), or one ending in `@` asks for `latest`.
pub open spec fn dependency_parts(p: Seq<char>) -> (Seq<char>, Seq<char>) {
    match last_index_of(p, '@') {
        Some(i) => if i == 0 {
            (p, "latest"@)
        } else {
            let v = p.skip(i + 1);
            (p.take(i), if v.len() == 0 {
                "latest"@
            } else {
                v
            })
        },
        None => (p, "latest"@),
    }
}

/// The directory a package is unpacked into: `node_modules/{name}`, or
/// `node_modules/{scope}/{name}` for a scoped package.
pub open spec fn package_dir_spec(name: Seq<char>) -> Seq<char> {
    if name.len() > 0 && name[0] == '@' {
        match first_index_of(name, '/') {
            Some(i) => join_path_spec(join_path_spec("node_modules"@, name.take(i)), name.skip(i + 1)),
            None => join_path_spec(join_path_spec("node_modules"@, name), Seq::empty()),
        }
    } else {
        join_path_spec("node_modules"@, name)
    }
}

/// The position of the last occurrence of `c`.
fn find_last(s: &[char], c: char) -> (r: Option<usize>)
    ensures
        r matches Some(i) ==> last_index_of(s@, c) == Some(i as int) && i < s@.len(),
        r is None ==> last_index_of(s@, c) is None,
{
    let mut last: Option<usize> = None;
    let mut i: usize = 0;
    while i < s.len()
        invariant
            i <= s@.len(),
            last matches Some(j) ==> j < i,
            last matches Some(j) ==> last_index_of(s@.take(i as int), c) == Some(j as int),
            last is None ==> last_index_of(s@.take(i as int), c) is None,
        decreases s@.len() - i,
    {
        proof {
            assert(s@.take(i + 1).drop_last() =~= s@.take(i as int));
            assert(s@.take(i + 1).last() == s@[i as int]);
        }
        if s[i] == c {
            last = Some(i);
        }
        i = i + 1;
    }
    assert(s@.take(s@.len() as int) =~= s@);
    last
}

/// The position of the first occurrence of `c`.
pub(crate) fn find_first(s: &[char], c: char) -> (r: Option<usize>)
    ensures
        r matches Some(i) ==> first_index_of(s@, c) == Some(i as int) && i < s@.len(),
        r is None ==> first_index_of(s@, c) is None,
{
    let mut i: usize = 0;
    while i < s.len()
        invariant
            i <= s@.len(),
            first_index_of(s@.take(i as int), c) is None,
        decreases s@.len() - i,
    {
        proof {
            assert(s@.take(i + 1).drop_last() =~= s@.take(i as int));
            assert(s@.take(i + 1).last() == s@[i as int]);
        }
        if s[i] == c {
            proof {
                lemma_first_index_extends(s@, i as int + 1, c);
            }
            return Some(i);
        }
        i = i + 1;
    }
    assert(s@.take(s@.len() as int) =~= s@);
    None
}

/// A first occurrence in a prefix is the first occurrence in the whole.
proof fn lemma_first_index_extends(s: Seq<char>, n: int, c: char)
    requires
        0 <= n <= s.len(),
        first_index_of(s.take(n), c) is Some,
    ensures
        first_index_of(s, c) == first_index_of(s.take(n), c),
    decreases s.len() - n,
{
    if n < s.len() {
        assert(s.take(n + 1).drop_last() =~= s.take(n));
        lemma_first_index_extends(s, n + 1, c);
    } else {
        assert(s.take(n) =~= s);
    }
}

/// The name and version specification of a package argument such as
/// `lodash@4.17.21` or `@angular/core@^16.0.0`.
pub fn parse_dependency(package: &str) -> (r: (String, String))
    ensures
        (r.0@, r.1@) == dependency_parts(package@),
{
    let pc = chars_of(package);
    match find_last(pc.as_slice(), '@') {
        Some(index) => {
            if index == 0 {
                return (owned(package), owned("latest"));
            }
            let name = string_from_chars(head_to(pc.as_slice(), index).as_slice());
            assert(index < pc.len());
            let tail = tail_from(pc.as_slice(), index + 1);
            if tail.len() == 0 {
                (name, owned("latest"))
            } else {
                (name, string_from_chars(tail.as_slice()))
            }
        },
        None => (owned(package), owned("latest")),
    }
}

/// The last `@` of a text whose tail has none is the one before the tail.
proof fn lemma_last_at_before_tail(a: Seq<char>, b: Seq<char>)
    requires
        forall|i: int| 0 <= i < b.len() ==> b[i] != '@',
    ensures
        last_index_of(a + seq!['@'] + b, '@') == Some(a.len() as int),
    decreases b.len(),
{
    if b.len() == 0 {
        assert(a + seq!['@'] + b =~= a.push('@'));
    } else {
        assert((a + seq!['@'] + b).drop_last() =~= a + seq!['@'] + b.drop_last());
        lemma_last_at_before_tail(a, b.drop_last());
    }
}

/// Reading `name@version` gives back the name and the version, for any
/// non-empty name and any non-empty version without `@`.
pub proof fn lemma_dependency_round_trip(name: Seq<char>, version: Seq<char>)
    requires
        name.len() > 0,
        version.len() > 0,
        forall|i: int| 0 <= i < version.len() ==> version[i] != '@',
    ensures
        dependency_parts(name + "@"@ + version) == (name, version),
{
    reveal_strlit("@");
    assert("@"@ =~= seq!['@']);
    lemma_last_at_before_tail(name, version);
    let p = name + seq!['@'] + version;
    assert(p.take(name.len() as int) =~= name);
    assert(p.skip(name.len() as int + 1) =~= version);
}

/// The last occurrence of a character is one.
proof fn lemma_last_index_in_range(s: Seq<char>, c: char)
    ensures
        last_index_of(s, c) matches Some(i) ==> 0 <= i < s.len() && s[i] == c,
    decreases s.len(),
{
    if s.len() > 0 && s.last() != c {
        lemma_last_index_in_range(s.drop_last(), c);
    }
}

/// A package argument asks for `latest` when it names no version: when it
/// ends in `@` after a non-empty name, and when it has no `@` past its
/// first character (then the whole argument is the name). The version
/// read from any argument is never empty.
pub proof fn lemma_dependency_defaults(name: Seq<char>, p: Seq<char>)
    requires
        name.len() > 0,
    ensures
        dependency_parts(name + "@"@) == (name, "latest"@),
        (forall|i: int| 0 < i < p.len() ==> p[i] != '@') ==> dependency_parts(p) == (p, "latest"@),
        dependency_parts(p).1.len() > 0,
{
    reveal_strlit("@");
    reveal_strlit("latest");
    let q = name + "@"@;
    assert(q.last() == '@');
    assert(q.take(name.len() as int) =~= name);
    assert(q.skip(name.len() as int + 1).len() == 0);
    lemma_last_index_in_range(p, '@');
}

/// The directory a package is unpacked into.
pub fn safe_package_path(name: &str) -> (p: String)
    ensures
        p@ == package_dir_spec(name@),
{
    let nc = chars_of(name);
    if nc.len() > 0 && nc[0] == '@' {
        match find_first(nc.as_slice(), '/') {
            Some(i) => {
                let scope = string_from_chars(head_to(nc.as_slice(), i).as_slice());
                let pkg = string_from_chars(tail_from(nc.as_slice(), i + 1).as_slice());
                let base = join_path("node_modules", scope.as_str());
                join_path(base.as_str(), pkg.as_str())
            },
            None => {
                let base = join_path("node_modules", name);
                proof {
                    reveal_strlit("");
                    assert(""@ =~= Seq::<char>::empty());
                }
                join_path(base.as_str(), "")
            },
        }
    } else {
        join_path("node_modules", name)
    }
}

/// A declared dependency's specification: its text, or `latest` when the
/// manifest does not give it as text.
pub open spec fn declared_spec(v: Option<String>) -> Seq<char> {
    match v {
        Some(s) => s@,
        None => "latest"@,
    }
}

/// What `install` is asked to install: the package arguments, each read
/// as `name@spec`, or, without arguments, the manifest's dependencies.
pub open spec fn install_requests_spec(packages: Seq<String>, declared: Seq<(String, Option<String>)>) -> Result<Seq<(Seq<char>, Seq<char>)>, (ErrorKind, Seq<char>)> {
    if packages.len() == 0 {
        if declared.len() == 0 {
            Err((ErrorKind::Custom, "No packages specified and package.json has no dependencies"@))
        } else {
            Ok(Seq::new(declared.len(), |i: int| (declared[i].0@, declared_spec(declared[i].1))))
        }
    } else {
        Ok(Seq::new(packages.len(), |i: int| dependency_parts(packages[i]@)))
    }
}

/// A list of requests seen through the text of its strings.
pub open spec fn requests_result_view(r: Result<Vec<(String, String)>, CNodeError>) -> Result<Seq<(Seq<char>, Seq<char>)>, (ErrorKind, Seq<char>)> {
    match r {
        Ok(v) => Ok(pairs_view(v@)),
        Err(e) => Err(e@),
    }
}

/// What `install` is asked to install, `(name, spec)` in order.
pub fn install_requests(packages: &Vec<String>, declared: &Vec<(String, Option<String>)>) -> (r: Result<Vec<(String, String)>, CNodeError>)
    ensures
        requests_result_view(r) == install_requests_spec(packages@, declared@),
{
    let mut out: Vec<(String, String)> = Vec::new();
    if packages.len() == 0 {
        if declared.len() == 0 {
            return Err(CNodeError::Custom(owned("No packages specified and package.json has no dependencies")));
        }
        let mut i: usize = 0;
        while i < declared.len()
            invariant
                i <= declared@.len(),
                out@.len() == i,
                forall|j: int| 0 <= j < i ==> (#[trigger] out@[j]).0@ == declared@[j].0@ && out@[j].1@ == declared_spec(declared@[j].1),
            decreases declared@.len() - i,
        {
            let spec = match &declared[i].1 {
                Some(s) => s.clone(),
                None => owned("latest"),
            };
            out.push((declared[i].0.clone(), spec));
            i = i + 1;
        }
        assert(pairs_view(out@) =~= Seq::new(declared@.len(), |i: int| (declared@[i].0@, declared_spec(declared@[i].1))));
    } else {
        let mut i: usize = 0;
        while i < packages.len()
            invariant
                i <= packages@.len(),
                out@.len() == i,
                forall|j: int| 0 <= j < i ==> ((#[trigger] out@[j]).0@, out@[j].1@) == dependency_parts(packages@[j]@),
            decreases packages@.len() - i,
        {
            let pair = parse_dependency(packages[i].as_str());
            out.push(pair);
            i = i + 1;
        }
        assert(pairs_view(out@) =~= Seq::new(packages@.len(), |i: int| dependency_parts(packages@[i]@)));
    }
    Ok(out)
}

/// The state of the walk that resolves every transitive dependency of an
/// install: the version chosen for each name, in the order chosen, and
/// the `name@spec` requests already expanded.
pub struct DependencyWalk {
    resolved: StringMap<String>,
    seen: StringMap<bool>,
}

/// The key of a request: `name@spec`.
pub open spec fn request_key(name: Seq<char>, spec: Seq<char>) -> Seq<char> {
    name + "@"@ + spec
}

/// A download plan seen through the text of its strings.
pub open spec fn plan_view(v: Seq<(String, String, Option<String>)>) -> Seq<(Seq<char>, Seq<char>, Option<Seq<char>>)> {
    v.map_values(
        |e: (String, String, Option<String>)|
            (
                e.0@,
                e.1@,
                match e.2 {
                    Some(t) => Some(t@),
                    None => None,
                },
            ),
    )
}

/// The requested packages that were resolved, in the order of the
/// requests: name, version chosen and specification.
pub open spec fn planned_requests(requests: Seq<(String, String)>, resolved: Map<Seq<char>, String>) -> Seq<(Seq<char>, Seq<char>, Option<Seq<char>>)>
    decreases requests.len(),
{
    if requests.len() == 0 {
        Seq::empty()
    } else {
        let rest = planned_requests(requests.drop_last(), resolved);
        let r = requests.last();
        if resolved.contains_key(r.0@) {
            rest.push((r.0@, resolved[r.0@]@, Some(r.1@)))
        } else {
            rest
        }
    }
}

/// `e` is the plan entry of some resolved request: its name, the version
/// chosen for it and its specification.
pub open spec fn from_resolved_request(
    requests: Seq<(String, String)>,
    resolved: Map<Seq<char>, String>,
    e: (Seq<char>, Seq<char>, Option<Seq<char>>),
) -> bool {
    exists|i: int|
        #![trigger requests[i]]
        0 <= i < requests.len() && resolved.contains_key(requests[i].0@) && e == (
            requests[i].0@,
            resolved[requests[i].0@]@,
            Some(requests[i].1@),
        )
}

/// Every requested package that was resolved is planned, with the version
/// chosen for it and the specification it was asked for with, and every
/// planned entry is such a request; the planned entries keep the order of
/// the requests.
pub proof fn lemma_plan_covers_resolved_requests(requests: Seq<(String, String)>, resolved: Map<Seq<char>, String>)
    ensures
        forall|i: int| 0 <= i < requests.len() && resolved.contains_key(#[trigger] requests[i].0@) ==> exists|p: int|
            0 <= p < planned_requests(requests, resolved).len() && planned_requests(requests, resolved)[p] == (
                requests[i].0@,
                resolved[requests[i].0@]@,
                Some(requests[i].1@),
            ),
        forall|p: int| 0 <= p < planned_requests(requests, resolved).len() ==> #[trigger] from_resolved_request(
            requests,
            resolved,
            planned_requests(requests, resolved)[p],
        ),
        planned_requests(requests, resolved).len() <= requests.len(),
    decreases requests.len(),
{
    if requests.len() > 0 {
        let pre = requests.drop_last();
        lemma_plan_covers_resolved_requests(pre, resolved);
        let rest = planned_requests(pre, resolved);
        let full = planned_requests(requests, resolved);
        assert forall|i: int| 0 <= i < requests.len() && resolved.contains_key(#[trigger] requests[i].0@) implies exists|p: int|
            0 <= p < full.len() && full[p] == (requests[i].0@, resolved[requests[i].0@]@, Some(requests[i].1@)) by {
            if i < requests.len() - 1 {
                assert(pre[i] == requests[i]);
                let p = choose|p: int| 0 <= p < rest.len() && rest[p] == (pre[i].0@, resolved[pre[i].0@]@, Some(pre[i].1@));
                assert(full[p] == rest[p]);
            } else {
                assert(full[full.len() - 1] == (requests[i].0@, resolved[requests[i].0@]@, Some(requests[i].1@)));
            }
        }
        assert forall|p: int| 0 <= p < full.len() implies #[trigger] from_resolved_request(requests, resolved, full[p]) by {
            if p < rest.len() {
                assert(full[p] == rest[p]);
                assert(from_resolved_request(pre, resolved, rest[p]));
                let i = choose|i: int|
                    #![trigger pre[i]]
                    0 <= i < pre.len() && resolved.contains_key(pre[i].0@) && rest[p] == (
                        pre[i].0@,
                        resolved[pre[i].0@]@,
                        Some(pre[i].1@),
                    );
                assert(pre[i] == requests[i]);
            } else {
                let i = requests.len() - 1;
                assert(requests.last() == requests[i]);
                assert(resolved.contains_key(requests[i].0@));
                assert(full[p] == (requests[i].0@, resolved[requests[i].0@]@, Some(requests[i].1@)));
            }
        }
    }
    else {
        assert(planned_requests(requests, resolved) =~= Seq::empty());
    }
}

/// Some request names the package `k`.
pub open spec fn requested_name(requests: Seq<(String, String)>, k: Seq<char>) -> bool {
    exists|i: int| 0 <= i < requests.len() && #[trigger] requests[i].0@ == k
}

/// Whether some request names the package `name`.
fn is_requested(requests: &Vec<(String, String)>, name: &str) -> (r: bool)
    ensures
        r == requested_name(requests@, name@),
{
    let mut i: usize = 0;
    while i < requests.len()
        invariant
            i <= requests@.len(),
            forall|j: int| 0 <= j < i ==> #[trigger] requests@[j].0@ != name@,
        decreases requests@.len() - i,
    {
        if str_eq(requests[i].0.as_str(), name) {
            return true;
        }
        i = i + 1;
    }
    false
}

/// The entries of a name-ordered list of resolved packages that no request
/// names, in order, without specification.
fn unrequested_in_order(order: &Vec<(String, String)>, requests: &Vec<(String, String)>) -> (v: Vec<(String, String, Option<String>)>)
    requires
        forall|a: int, b: int| 0 <= a < b < order@.len() ==> !lex_lt(#[trigger] order@[b].0@, #[trigger] order@[a].0@),
        forall|a: int, b: int| 0 <= a < order@.len() && 0 <= b < order@.len() && a != b ==> #[trigger] order@[a].0@
            != #[trigger] order@[b].0@,
    ensures
        forall|i: int| 0 <= i < v@.len() ==> (#[trigger] v@[i]).2 is None && !requested_name(requests@, v@[i].0@)
            && exists|a: int| #![trigger order@[a]] 0 <= a < order@.len() && v@[i].0 == order@[a].0 && v@[i].1 == order@[a].1,
        forall|a: int| 0 <= a < order@.len() && !requested_name(requests@, (#[trigger] order@[a]).0@) ==> exists|i: int|
            #![trigger v@[i]] 0 <= i < v@.len() && v@[i].0@ == order@[a].0@,
        forall|x: int, y: int| 0 <= x < y < v@.len() ==> !lex_lt(#[trigger] v@[y].0@, #[trigger] v@[x].0@) && v@[x].0@ != v@[y].0@,
{
    let mut out: Vec<(String, String, Option<String>)> = Vec::new();
    let ghost mut idx: Seq<int> = Seq::empty();
    let mut j: usize = 0;
    while j < order.len()
        invariant
            j <= order@.len(),
            forall|a: int, b: int| 0 <= a < b < order@.len() ==> !lex_lt(#[trigger] order@[b].0@, #[trigger] order@[a].0@),
            forall|a: int, b: int| 0 <= a < order@.len() && 0 <= b < order@.len() && a != b ==> #[trigger] order@[a].0@
                != #[trigger] order@[b].0@,
            idx.len() == out@.len(),
            forall|i: int| 0 <= i < idx.len() ==> 0 <= #[trigger] idx[i] < j,
            forall|x: int, y: int| 0 <= x < y < idx.len() ==> #[trigger] idx[x] < #[trigger] idx[y],
            forall|i: int| 0 <= i < out@.len() ==> (#[trigger] out@[i]) == (order@[idx[i]].0, order@[idx[i]].1, None::<String>)
                && !requested_name(requests@, order@[idx[i]].0@),
            forall|a: int| 0 <= a < j && !requested_name(requests@, (#[trigger] order@[a]).0@) ==> exists|i: int|
                #![trigger idx[i]] 0 <= i < out@.len() && idx[i] == a,
        decreases order@.len() - j,
    {
        if !is_requested(requests, order[j].0.as_str()) {
            let ghost old_idx = idx;
            out.push((order[j].0.clone(), order[j].1.clone(), None));
            proof {
                idx = idx.push(j as int);
                assert forall|a: int| 0 <= a < j + 1 && !requested_name(requests@, (#[trigger] order@[a]).0@) implies exists|i: int|
                    #![trigger idx[i]] 0 <= i < out@.len() && idx[i] == a by {
                    if a < j {
                        let i = choose|i: int| #![trigger old_idx[i]] 0 <= i < old_idx.len() && old_idx[i] == a;
                        assert(idx[i] == a);
                    } else {
                        assert(idx[out@.len() - 1] == a);
                    }
                }
            }
        }
        j = j + 1;
    }
    proof {
        assert forall|i: int| 0 <= i < out@.len() implies (#[trigger] out@[i]).2 is None && !requested_name(requests@, out@[i].0@)
            && exists|a: int| #![trigger order@[a]] 0 <= a < order@.len() && out@[i].0 == order@[a].0 && out@[i].1 == order@[a].1 by {
            let a = idx[i];
            assert(order@[a] == order@[a]);
        }
        assert forall|a: int| 0 <= a < order@.len() && !requested_name(requests@, (#[trigger] order@[a]).0@) implies exists|i: int|
            #![trigger out@[i]] 0 <= i < out@.len() && out@[i].0@ == order@[a].0@ by {
            let i = choose|i: int| #![trigger idx[i]] 0 <= i < out@.len() && idx[i] == a;
            assert(out@[i].0@ == order@[a].0@);
        }
        assert forall|x: int, y: int| 0 <= x < y < out@.len() implies !lex_lt(#[trigger] out@[y].0@, #[trigger] out@[x].0@)
            && out@[x].0@ != out@[y].0@ by {
            let a = idx[x];
            let b = idx[y];
            assert(out@[x].0 == order@[a].0 && out@[y].0 == order@[b].0);
            assert(order@[b].0@ != order@[a].0@);
        }
    }
    out
}

/// The versions chosen after settling `name` at `version`: unchanged when
/// a version was already chosen for it.
pub open spec fn settled(resolved: Map<Seq<char>, String>, name: Seq<char>, version: String) -> Map<Seq<char>, String> {
    if resolved.contains_key(name) {
        resolved
    } else {
        resolved.insert(name, version)
    }
}

/// A walk expands each request once and keeps the first version chosen
/// for a name: once a request is visited it is among the seen ones, and
/// once a name is settled, settling it again changes nothing, the name
/// keeping the version it had or, if it had none, the first one given.
pub proof fn lemma_walk_keeps_first_choice(
    seen: Set<Seq<char>>,
    resolved: Map<Seq<char>, String>,
    name: Seq<char>,
    spec: Seq<char>,
    first: String,
    second: String,
)
    ensures
        seen.insert(request_key(name, spec)).contains(request_key(name, spec)),
        settled(settled(resolved, name, first), name, second) == settled(resolved, name, first),
        settled(resolved, name, first).contains_key(name),
        settled(resolved, name, first)[name] == (if resolved.contains_key(name) {
            resolved[name]
        } else {
            first
        }),
{
}

/// The versions chosen after settling each `(name, version)` of `steps`
/// in turn, starting from `resolved`.
pub open spec fn settle_all(resolved: Map<Seq<char>, String>, steps: Seq<(Seq<char>, String)>) -> Map<Seq<char>, String>
    decreases steps.len(),
{
    if steps.len() == 0 {
        resolved
    } else {
        settled(settle_all(resolved, steps.drop_last()), steps.last().0, steps.last().1)
    }
}

/// Over a whole walk, a name is resolved exactly when some step settles
/// it.
pub proof fn lemma_walk_resolves_settled_names(steps: Seq<(Seq<char>, String)>, k: Seq<char>)
    ensures
        settle_all(Map::empty(), steps).contains_key(k) <==> exists|i: int| 0 <= i < steps.len() && steps[i].0 == k,
    decreases steps.len(),
{
    if steps.len() > 0 {
        lemma_walk_resolves_settled_names(steps.drop_last(), k);
        if exists|i: int| 0 <= i < steps.len() && steps[i].0 == k {
            let i = choose|i: int| 0 <= i < steps.len() && steps[i].0 == k;
            if i < steps.len() - 1 {
                assert(steps.drop_last()[i].0 == k);
            }
        }
        if settle_all(Map::empty(), steps).contains_key(k) && steps.last().0 != k {
            let i = choose|i: int| 0 <= i < steps.drop_last().len() && steps.drop_last()[i].0 == k;
            assert(steps[i].0 == k);
        }
    }
}

/// Over a whole walk, each name keeps the version of the first step that
/// settles it, whatever later steps ask for.
pub proof fn lemma_walk_keeps_first_version(steps: Seq<(Seq<char>, String)>, i: int)
    requires
        0 <= i < steps.len(),
        forall|j: int| 0 <= j < i ==> steps[j].0 != steps[i].0,
    ensures
        settle_all(Map::empty(), steps).contains_key(steps[i].0),
        settle_all(Map::empty(), steps)[steps[i].0] == steps[i].1,
    decreases steps.len(),
{
    let prefix = steps.drop_last();
    if i == steps.len() - 1 {
        lemma_walk_resolves_settled_names(prefix, steps[i].0);
        if settle_all(Map::empty(), prefix).contains_key(steps[i].0) {
            let j = choose|j: int| 0 <= j < prefix.len() && prefix[j].0 == steps[i].0;
            assert(steps[j].0 == steps[i].0);
        }
    } else {
        assert(prefix[i] == steps[i]);
        assert forall|j: int| 0 <= j < i implies prefix[j].0 != prefix[i].0 by {
            assert(prefix[j] == steps[j]);
        }
        lemma_walk_keeps_first_version(prefix, i);
    }
}

impl DependencyWalk {
    /// A walk that has resolved nothing.
    pub fn new() -> (w: DependencyWalk)
        ensures
            w.resolved_view() == Map::<Seq<char>, String>::empty(),
            w.seen_view() == Set::<Seq<char>>::empty(),
    {
        let w = DependencyWalk { resolved: StringMap::new(), seen: StringMap::new() };
        assert(w.seen@.dom() =~= Set::<Seq<char>>::empty());
        w
    }

    /// The version chosen for each name.
    pub closed spec fn resolved_view(&self) -> Map<Seq<char>, String> {
        self.resolved@
    }

    /// The requests already expanded.
    pub closed spec fn seen_view(&self) -> Set<Seq<char>> {
        self.seen@.dom()
    }

    /// The version chosen for each name, in the order chosen.
    pub fn resolved(&self) -> (m: &StringMap<String>)
        ensures
            m@ == self.resolved_view(),
    {
        &self.resolved
    }

    /// Starts expanding the request `name@spec`: false when it was expanded
    /// before, which ends that branch of the walk.
    pub fn visit(&mut self, name: &str, spec: &str) -> (fresh: bool)
        ensures
            fresh == !old(self).seen_view().contains(request_key(name@, spec@)),
            final(self).seen_view() == old(self).seen_view().insert(request_key(name@, spec@)),
            final(self).resolved_view() == old(self).resolved_view(),
    {
        let mut key = concat(name, "@");
        key.append(spec);
        if self.seen.contains_key(key.as_str()) {
            assert(self.seen@.dom().insert(key@) =~= self.seen@.dom());
            false
        } else {
            self.seen.insert(key, true);
            assert(self.seen@.dom() =~= old(self).seen@.dom().insert(request_key(name@, spec@)));
            true
        }
    }

    /// Chooses the version a request asks for among the fetched metadata:
    /// the latest tag for `latest`, otherwise what the registry resolves.
    pub fn pick_version(registry: &Registry, metadata: &PackageMetadata, spec: &str) -> (r: Result<String, CNodeError>)
        ensures
            string_result_view(r) == resolve_spec(
                metadata.dist_tags.latest@,
                metadata.name@,
                metadata.versions@.dom(),
                spec@,
            ),
    {
        if str_eq(spec, "latest") {
            Ok(metadata.dist_tags.latest.clone())
        } else {
            registry.resolve_version_spec(metadata, spec)
        }
    }

    /// Records the version chosen for `name`: false, and nothing changed,
    /// when a version was already chosen for it, which ends that branch.
    pub fn settle(&mut self, name: &str, version: String) -> (fresh: bool)
        ensures
            fresh == !old(self).resolved_view().contains_key(name@),
            final(self).resolved_view() == settled(old(self).resolved_view(), name@, version),
            final(self).seen_view() == old(self).seen_view(),
    {
        if self.resolved.contains_key(name) {
            false
        } else {
            self.resolved.insert(owned(name), version);
            true
        }
    }

    /// The requests of the dependencies of the version chosen, in the
    /// order of its manifest; none when the metadata lacks that version.
    pub fn requests_for(metadata: &PackageMetadata, version: &str) -> (v: Vec<(String, String)>)
        ensures
            pairs_view(v@) == (if metadata.versions@.contains_key(version@) {
                match metadata.versions@[version@].dependencies {
                    Some(m) => pairs_view(m.items()),
                    None => Seq::empty(),
                }
            } else {
                Seq::empty()
            }),
    {
        match metadata.versions.get(version) {
            Some(v) => Resolver::requests_of(v),
            None => Vec::new(),
        }
    }

    /// The resolved packages in name order, as a sorted map walks them.
    pub fn in_name_order(&self) -> (v: Vec<(String, String)>)
        ensures
            forall|i: int| 0 <= i < v@.len() ==> self.resolved_view().contains_key(#[trigger] v@[i].0@)
                && self.resolved_view()[v@[i].0@] == v@[i].1,
            forall|k: Seq<char>| self.resolved_view().contains_key(k) ==> exists|i: int|
                0 <= i < v@.len() && #[trigger] v@[i].0@ == k,
            forall|i: int, j: int| 0 <= i < j < v@.len() ==> !lex_lt(#[trigger] v@[j].0@, #[trigger] v@[i].0@),
            forall|i: int, j: int| 0 <= i < v@.len() && 0 <= j < v@.len() && i != j ==> #[trigger] v@[i].0@ != #[trigger] v@[j].0@,
    {
        let sorted = self.resolved.sorted_keys();
        let mut out: Vec<(String, String)> = Vec::new();
        let mut k: usize = 0;
        while k < sorted.len()
            invariant
                k <= sorted@.len(),
                out@.len() == k,
                sorted_strings(sorted@),
                forall|i: int| 0 <= i < sorted@.len() ==> self.resolved@.contains_key(#[trigger] sorted@[i]@),
                forall|i: int, j: int| 0 <= i < sorted@.len() && 0 <= j < sorted@.len() && i != j ==> #[trigger] sorted@[i]@ != #[trigger] sorted@[j]@,
                forall|j: int| 0 <= j < k ==> #[trigger] out@[j].0 == sorted@[j] && self.resolved@[sorted@[j]@] == out@[j].1,
            decreases sorted@.len() - k,
        {
            let version = match self.resolved.get(sorted[k].as_str()) {
                Some(v) => v.clone(),
                None => String::new(),
            };
            out.push((sorted[k].clone(), version));
            k = k + 1;
        }
        proof {
            assert forall|key: Seq<char>| self.resolved_view().contains_key(key) implies exists|i: int|
                0 <= i < out@.len() && #[trigger] out@[i].0@ == key by {
                let m = choose|m: int| 0 <= m < sorted@.len() && #[trigger] sorted@[m]@ == key;
                assert(out@[m].0@ == key);
            }
        }
        out
    }

    /// What `install` downloads, in order: each requested package that was
    /// resolved, in the order of the requests and with its specification,
    /// then every other resolved package, once and in name order.
    pub fn download_plan(&self, requests: &Vec<(String, String)>) -> (v: Vec<(String, String, Option<String>)>)
        ensures
            ({
                let n = planned_requests(requests@, self.resolved_view()).len() as int;
                let rest = v@.skip(n);
                &&& n <= v@.len()
                &&& plan_view(v@.take(n)) == planned_requests(requests@, self.resolved_view())
                &&& forall|i: int| 0 <= i < rest.len() ==> (#[trigger] rest[i]).2 is None
                    && self.resolved_view().contains_key(rest[i].0@) && self.resolved_view()[rest[i].0@] == rest[i].1
                    && !requested_name(requests@, rest[i].0@)
                &&& forall|k: Seq<char>| self.resolved_view().contains_key(k) && !requested_name(requests@, k)
                    ==> exists|i: int| 0 <= i < rest.len() && #[trigger] rest[i].0@ == k
                &&& forall|a: int, b: int| 0 <= a < b < rest.len() ==> !lex_lt(#[trigger] rest[b].0@, #[trigger] rest[a].0@)
                    && rest[a].0@ != rest[b].0@
            }),
    {
        let mut out: Vec<(String, String, Option<String>)> = Vec::new();
        let mut i: usize = 0;
        while i < requests.len()
            invariant
                i <= requests@.len(),
                plan_view(out@) == planned_requests(requests@.take(i as int), self.resolved_view()),
            decreases requests@.len() - i,
        {
            proof {
                assert(requests@.take(i + 1).drop_last() =~= requests@.take(i as int));
                assert(requests@.take(i + 1).last() == requests@[i as int]);
            }
            match self.resolved.get(requests[i].0.as_str()) {
                Some(version) => {
                    out.push((requests[i].0.clone(), version.clone(), Some(requests[i].1.clone())));
                    proof {
                        assert(plan_view(out@) =~= planned_requests(requests@.take(i + 1), self.resolved_view()));
                    }
                },
                None => {},
            }
            i = i + 1;
        }
        assert(requests@.take(requests@.len() as int) =~= requests@);
        let ghost first = out@;
        let order = self.in_name_order();
        let mut rest = unrequested_in_order(&order, requests);
        let ghost tail = rest@;
        out.append(&mut rest);
        proof {
            let n = first.len() as int;
            assert(out@.take(n) =~= first);
            let r = out@.skip(n);
            assert(r =~= tail);
            assert forall|i: int| 0 <= i < r.len() implies (#[trigger] r[i]).2 is None
                && self.resolved_view().contains_key(r[i].0@) && self.resolved_view()[r[i].0@] == r[i].1
                && !requested_name(requests@, r[i].0@) by {
                assert(r[i] == tail[i]);
                let a = choose|a: int| #![trigger order@[a]] 0 <= a < order@.len() && tail[i].0 == order@[a].0 && tail[i].1 == order@[a].1;
                assert(self.resolved_view().contains_key(order@[a].0@));
            }
            assert forall|k: Seq<char>| self.resolved_view().contains_key(k) && !requested_name(requests@, k)
                implies exists|i: int| 0 <= i < r.len() && #[trigger] r[i].0@ == k by {
                let a = choose|a: int| 0 <= a < order@.len() && #[trigger] order@[a].0@ == k;
                let i = choose|i: int| #![trigger tail[i]] 0 <= i < tail.len() && tail[i].0@ == order@[a].0@;
                assert(r[i] == tail[i]);
            }
            assert forall|x: int, y: int| 0 <= x < y < r.len() implies !lex_lt(#[trigger] r[y].0@, #[trigger] r[x].0@)
                && r[x].0@ != r[y].0@ by {
                assert(r[x] == tail[x] && r[y] == tail[y]);
            }
        }
        out
    }
}

/// What `--save` records for each installed package: the version
/// resolved for it, or its specification when none was.
pub fn saved_dependencies(requests: &Vec<(String, String)>, resolved: &StringMap<String>) -> (v: Vec<(String, String)>)
    ensures
        v@.len() == requests@.len(),
        forall|i: int| 0 <= i < v@.len() ==> #[trigger] v@[i].0@ == requests@[i].0@ && v@[i].1@ == (if resolved@.contains_key(
            requests@[i].0@,
        ) {
            resolved@[requests@[i].0@]@
        } else {
            requests@[i].1@
        }),
{
    let mut out: Vec<(String, String)> = Vec::new();
    let mut i: usize = 0;
    while i < requests.len()
        invariant
            i <= requests@.len(),
            out@.len() == i,
            forall|j: int| 0 <= j < i ==> (#[trigger] out@[j]).0@ == requests@[j].0@ && out@[j].1@ == (if resolved@.contains_key(
                requests@[j].0@,
            ) {
                resolved@[requests@[j].0@]@
            } else {
                requests@[j].1@
            }),
        decreases requests@.len() - i,
    {
        let version = match resolved.get(requests[i].0.as_str()) {
            Some(v) => v.clone(),
            None => requests[i].1.clone(),
        };
        out.push((requests[i].0.clone(), version));
        i = i + 1;
    }
    out
}

/// One package of a package-lock file.
pub struct LockEntry {
    /// The key under `packages`: `node_modules/{name}`.
    pub key: String,
    pub name: String,
    pub version: String,
    /// Where the tarball came from.
    pub resolved: String,
    /// The integrity of the cached tarball.
    pub integrity: String,
}

/// The name of a package with `/` turned into `-`, as tarball names have it.
pub open spec fn dashed_name(name: Seq<char>) -> Seq<char>
    decreases name.len(),
{
    if name.len() == 0 {
        Seq::empty()
    } else {
        let rest = dashed_name(name.drop_last());
        if name.last() == '/' {
            rest.push('-')
        } else {
            rest.push(name.last())
        }
    }
}

/// The tarball address assumed when the registry gave none.
pub open spec fn fallback_tarball(name: Seq<char>, version: Seq<char>) -> Seq<char> {
    "https://registry.npmjs.org/"@ + name + "/-/"@ + dashed_name(name) + "-"@ + version + ".tgz"@
}

fn dashed_chars(name: &[char]) -> (v: Vec<char>)
    ensures
        v@ == dashed_name(name@),
{
    let mut v: Vec<char> = Vec::new();
    let mut i: usize = 0;
    while i < name.len()
        invariant
            i <= name@.len(),
            v@ == dashed_name(name@.take(i as int)),
        decreases name@.len() - i,
    {
        proof {
            assert(name@.take(i + 1).drop_last() =~= name@.take(i as int));
            assert(name@.take(i + 1).last() == name@[i as int]);
        }
        if name[i] == '/' {
            v.push('-');
        } else {
            v.push(name[i]);
        }
        i = i + 1;
    }
    assert(name@.take(name@.len() as int) =~= name@);
    v
}

/// The package-lock entry of a resolved package, given the tarball
/// address the registry gave and the integrity of the cached tarball.
pub fn lock_entry(name: &str, version: &str, tarball: Option<&str>, integrity: Option<String>) -> (e: LockEntry)
    ensures
        e.key@ == "node_modules/"@ + name@,
        e.name@ == name@,
        e.version@ == version@,
        e.resolved@ == (match tarball {
            Some(t) => t@,
            None => fallback_tarball(name@, version@),
        }),
        e.integrity@ == (match integrity {
            Some(i) => i@,
            None => "sha512-unknown"@,
        }),
{
    let resolved = match tarball {
        Some(t) => owned(t),
        None => {
            let nc = chars_of(name);
            let dashed = string_from_chars(dashed_chars(nc.as_slice()).as_slice());
            let mut u = concat("https://registry.npmjs.org/", name);
            u.append("/-/");
            u.append(dashed.as_str());
            u.append("-");
            u.append(version);
            u.append(".tgz");
            u
        },
    };
    let integrity = match integrity {
        Some(i) => i,
        None => owned("sha512-unknown"),
    };
    LockEntry {
        key: concat("node_modules/", name),
        name: owned(name),
        version: owned(version),
        resolved,
        integrity,
    }
}

/// The package-lock entries of the resolved packages `(name, version)`, in
/// their order, each with the tarball address the registry gave for the
/// name, if any, and the integrity of its cached tarball, if any.
pub fn lock_entries(
    resolved: &Vec<(String, String)>,
    tarballs: &StringMap<String>,
    integrities: &Vec<Option<String>>,
) -> (v: Vec<LockEntry>)
    requires
        integrities@.len() == resolved@.len(),
    ensures
        v@.len() == resolved@.len(),
        forall|i: int| 0 <= i < v@.len() ==> {
            let (name, version) = resolved@[i];
            &&& (#[trigger] v@[i]).key@ == "node_modules/"@ + name@
            &&& v@[i].name@ == name@
            &&& v@[i].version@ == version@
            &&& v@[i].resolved@ == (if tarballs@.contains_key(name@) {
                tarballs@[name@]@
            } else {
                fallback_tarball(name@, version@)
            })
            &&& v@[i].integrity@ == (match integrities@[i] {
                Some(t) => t@,
                None => "sha512-unknown"@,
            })
        },
{
    let mut out: Vec<LockEntry> = Vec::new();
    let mut i: usize = 0;
    while i < resolved.len()
        invariant
            i <= resolved@.len(),
            integrities@.len() == resolved@.len(),
            out@.len() == i,
            forall|j: int| 0 <= j < i ==> {
                let (name, version) = resolved@[j];
                &&& (#[trigger] out@[j]).key@ == "node_modules/"@ + name@
                &&& out@[j].name@ == name@
                &&& out@[j].version@ == version@
                &&& out@[j].resolved@ == (if tarballs@.contains_key(name@) {
                    tarballs@[name@]@
                } else {
                    fallback_tarball(name@, version@)
                })
                &&& out@[j].integrity@ == (match integrities@[j] {
                    Some(t) => t@,
                    None => "sha512-unknown"@,
                })
            },
        decreases resolved@.len() - i,
    {
        let name = resolved[i].0.as_str();
        let tarball = match tarballs.get(name) {
            Some(t) => Some(t.as_str()),
            None => None,
        };
        let integrity = match &integrities[i] {
            Some(t) => Some(t.clone()),
            None => None,
        };
        let entry = lock_entry(name, resolved[i].1.as_str(), tarball, integrity);
        out.push(entry);
        i = i + 1;
    }
    out
}

/// The name and version at the head of a package-lock file: the
/// manifest's, or `project` and `0.1.0` where it gives none.
pub fn lock_header(name: Option<&str>, version: Option<&str>) -> (h: (String, String))
    ensures
        h.0@ == (match name {
            Some(n) => n@,
            None => "project"@,
        }),
        h.1@ == (match version {
            Some(v) => v@,
            None => "0.1.0"@,
        }),
{
    let n = match name {
        Some(n) => owned(n),
        None => owned("project"),
    };
    let v = match version {
        Some(v) => owned(v),
        None => owned("0.1.0"),
    };
    (n, v)
}

} // verus!
