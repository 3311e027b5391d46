//! Dependency resolution: the tree of resolved packages, its flattening
//! into one version per name, its listing with depths, conflict
//! detection, and the bookkeeping of a resolver that memoises answers.
use std::sync::Arc;
use vstd::prelude::*;
use crate::package::{Package, PackageVersion, all_dependencies_view};
use crate::registry::Registry;
use crate::strmap::{StringMap, entries_map, distinct_keys, lemma_entries_map_at};
use crate::text::{concat, owned, sort_strings, str_eq};

verus! {

/// A package resolved to one version, with the dependencies resolved
/// under it.
#[derive(Debug)]
pub struct ResolvedDependency {
    pub name: String,
    pub version: String,
    pub dependencies: Vec<ResolvedDependency>,
}

/// The entries `(name, version, depth)` of a resolved tree in pre-order,
/// its root at the given depth.
pub open spec fn tree_entries(d: ResolvedDependency, depth: int) -> Seq<(Seq<char>, Seq<char>, int)>
    decreases d, 1int,
{
    seq![(d.name@, d.version@, depth)] + forest_entries(d.dependencies@, depth + 1)
}

/// The entries of a list of trees, one after the other, their roots at the
/// given depth.
pub open spec fn forest_entries(ds: Seq<ResolvedDependency>, depth: int) -> Seq<(Seq<char>, Seq<char>, int)>
    decreases ds, 0int,
{
    if ds.len() == 0 {
        Seq::empty()
    } else {
        forest_entries(ds.drop_last(), depth) + tree_entries(ds.last(), depth)
    }
}

/// The height of a resolved tree: 1 for a package without dependencies.
pub open spec fn tree_height(d: ResolvedDependency) -> nat
    decreases d, 1int,
{
    1 + forest_height(d.dependencies@)
}

/// The greatest height among a list of trees, 0 for none.
pub open spec fn forest_height(ds: Seq<ResolvedDependency>) -> nat
    decreases ds, 0int,
{
    if ds.len() == 0 {
        0
    } else {
        let a = forest_height(ds.drop_last());
        let b = tree_height(ds.last());
        if a > b {
            a
        } else {
            b
        }
    }
}

/// The number of packages in a resolved tree: its root and every package
/// below it.
pub open spec fn tree_size(d: ResolvedDependency) -> nat
    decreases d, 1int,
{
    1 + forest_size(d.dependencies@)
}

/// The number of packages in a list of resolved trees.
pub open spec fn forest_size(ds: Seq<ResolvedDependency>) -> nat
    decreases ds, 0int,
{
    if ds.len() == 0 {
        0
    } else {
        forest_size(ds.drop_last()) + tree_size(ds.last())
    }
}

/// The listing of a tree has one entry per package of the tree, at every
/// depth.
pub proof fn lemma_tree_listing_counts_every_package(d: ResolvedDependency, depth: int)
    ensures
        tree_entries(d, depth).len() == tree_size(d),
    decreases d, 1int,
{
    lemma_forest_listing_counts_every_package(d.dependencies@, depth + 1);
}

/// The listing of a list of trees has one entry per package of the trees,
/// at every depth.
pub proof fn lemma_forest_listing_counts_every_package(ds: Seq<ResolvedDependency>, depth: int)
    ensures
        forest_entries(ds, depth).len() == forest_size(ds),
    decreases ds, 0int,
{
    if ds.len() > 0 {
        lemma_forest_listing_counts_every_package(ds.drop_last(), depth);
        lemma_tree_listing_counts_every_package(ds.last(), depth);
    }
}

/// Every entry of the listing of one tree of a list, at the list's depth,
/// is an entry of the list's listing.
pub proof fn lemma_forest_listing_holds_each_tree(ds: Seq<ResolvedDependency>, depth: int, c: int, j: int)
    requires
        0 <= c < ds.len(),
        0 <= j < tree_entries(ds[c], depth).len(),
    ensures
        exists|m: int| 0 <= m < forest_entries(ds, depth).len() && forest_entries(ds, depth)[m] == tree_entries(ds[c], depth)[j],
    decreases ds.len(),
{
    let pre = forest_entries(ds.drop_last(), depth);
    if c == ds.len() - 1 {
        assert(forest_entries(ds, depth)[pre.len() + j] == tree_entries(ds[c], depth)[j]);
    } else {
        assert(ds.drop_last()[c] == ds[c]);
        lemma_forest_listing_holds_each_tree(ds.drop_last(), depth, c, j);
        let m = choose|m: int| 0 <= m < pre.len() && pre[m] == tree_entries(ds[c], depth)[j];
        assert(forest_entries(ds, depth)[m] == pre[m]);
    }
}

/// A tree's listing holds the whole listing of each of its dependencies,
/// one level deeper, not only their roots: so by induction every package
/// at every depth of a tree is listed.
pub proof fn lemma_tree_listing_holds_each_subtree(d: ResolvedDependency, depth: int, c: int, j: int)
    requires
        0 <= c < d.dependencies@.len(),
        0 <= j < tree_entries(d.dependencies@[c], depth + 1).len(),
    ensures
        exists|m: int| 0 <= m < tree_entries(d, depth).len() && tree_entries(d, depth)[m] == tree_entries(
            d.dependencies@[c],
            depth + 1,
        )[j],
{
    lemma_forest_listing_holds_each_tree(d.dependencies@, depth + 1, c, j);
    let f = forest_entries(d.dependencies@, depth + 1);
    let m = choose|m: int| 0 <= m < f.len() && f[m] == tree_entries(d.dependencies@[c], depth + 1)[j];
    assert(tree_entries(d, depth)[m + 1] == f[m]);
}

/// Flattening keeps every package of the trees: the name of every entry of
/// the listing of any one of the trees (its root and everything below it)
/// is a key of the flattened map.
pub proof fn lemma_flatten_keeps_every_package(ds: Seq<ResolvedDependency>, c: int, j: int)
    requires
        0 <= c < ds.len(),
        0 <= j < tree_entries(ds[c], 0).len(),
    ensures
        insert_entries(Map::empty(), forest_entries(ds, 0)).contains_key(tree_entries(ds[c], 0)[j].0),
{
    lemma_forest_listing_holds_each_tree(ds, 0, c, j);
    lemma_insert_entries_dom(forest_entries(ds, 0), tree_entries(ds[c], 0)[j].0);
}

/// No tree of a list is higher than the list.
proof fn lemma_forest_height_bounds(ds: Seq<ResolvedDependency>, i: int)
    requires
        0 <= i < ds.len(),
    ensures
        tree_height(ds[i]) <= forest_height(ds),
    decreases ds.len(),
{
    if i < ds.len() - 1 {
        assert(ds.drop_last()[i] == ds[i]);
        lemma_forest_height_bounds(ds.drop_last(), i);
    }
}

/// The map that inserting each entry's name and version, in order, into
/// `m` gives: a later entry overrides an earlier one of the same name.
pub open spec fn insert_entries(m: Map<Seq<char>, Seq<char>>, s: Seq<(Seq<char>, Seq<char>, int)>) -> Map<Seq<char>, Seq<char>>
    decreases s.len(),
{
    if s.len() == 0 {
        m
    } else {
        insert_entries(m, s.drop_last()).insert(s.last().0, s.last().1)
    }
}

/// A map of strings seen through the text of its values.
pub open spec fn text_map(m: Map<Seq<char>, String>) -> Map<Seq<char>, Seq<char>> {
    m.map_values(|v: String| v@)
}

/// A listing `(name, version, depth)` seen through the text of its strings.
pub open spec fn listing_view(t: Seq<(String, String, usize)>) -> Seq<(Seq<char>, Seq<char>, int)> {
    t.map_values(|e: (String, String, usize)| (e.0@, e.1@, e.2 as int))
}

proof fn lemma_insert_entries_concat(
    m: Map<Seq<char>, Seq<char>>,
    a: Seq<(Seq<char>, Seq<char>, int)>,
    b: Seq<(Seq<char>, Seq<char>, int)>,
)
    ensures
        insert_entries(m, a + b) == insert_entries(insert_entries(m, a), b),
    decreases b.len(),
{
    if b.len() == 0 {
        assert(a + b =~= a);
    } else {
        lemma_insert_entries_concat(m, a, b.drop_last());
        assert((a + b).drop_last() =~= a + b.drop_last());
        assert((a + b).last() == b.last());
    }
}

/// A name is a key of the flattened map exactly when some entry names it.
pub proof fn lemma_insert_entries_dom(s: Seq<(Seq<char>, Seq<char>, int)>, k: Seq<char>)
    ensures
        insert_entries(Map::empty(), s).contains_key(k) <==> exists|i: int| 0 <= i < s.len() && s[i].0 == k,
    decreases s.len(),
{
    if s.len() > 0 {
        lemma_insert_entries_dom(s.drop_last(), k);
        if insert_entries(Map::empty(), s).contains_key(k) && s.last().0 != k {
            let i = choose|i: int| 0 <= i < s.drop_last().len() && s.drop_last()[i].0 == k;
            assert(s[i].0 == k);
        }
        if exists|i: int| 0 <= i < s.len() && s[i].0 == k {
            let i = choose|i: int| 0 <= i < s.len() && s[i].0 == k;
            if i < s.len() - 1 {
                assert(s.drop_last()[i].0 == k);
            }
        }
    }
}

/// A name's value in the flattened map is the version of its last entry.
pub proof fn lemma_insert_entries_last(s: Seq<(Seq<char>, Seq<char>, int)>, i: int)
    requires
        0 <= i < s.len(),
        forall|j: int| i < j < s.len() ==> s[j].0 != s[i].0,
    ensures
        insert_entries(Map::empty(), s).contains_key(s[i].0),
        insert_entries(Map::empty(), s)[s[i].0] == s[i].1,
    decreases s.len(),
{
    if i < s.len() - 1 {
        assert(s.drop_last()[i] == s[i]);
        lemma_insert_entries_last(s.drop_last(), i);
    }
}

/// Flattening and listing agree: a name is in the flattened map exactly
/// when the listing has an entry for it, and it maps to the version of
/// the last such entry.
pub proof fn lemma_flatten_agrees_with_listing(deps: Seq<ResolvedDependency>, i: int)
    requires
        0 <= i < forest_entries(deps, 0).len(),
        forall|j: int|
            i < j < forest_entries(deps, 0).len() ==> forest_entries(deps, 0)[j].0 != forest_entries(deps, 0)[i].0,
    ensures
        insert_entries(Map::empty(), forest_entries(deps, 0)).contains_key(forest_entries(deps, 0)[i].0),
        insert_entries(Map::empty(), forest_entries(deps, 0))[forest_entries(deps, 0)[i].0] == forest_entries(
            deps,
            0,
        )[i].1,
{
    lemma_insert_entries_last(forest_entries(deps, 0), i);
}

/// Inserts a tree's names and versions, in pre-order, into `out`.
fn flatten_into(dep: &ResolvedDependency, out: &mut StringMap<String>, Ghost(depth): Ghost<int>)
    ensures
        text_map(final(out)@) == insert_entries(text_map(old(out)@), tree_entries(*dep, depth)),
    decreases dep,
{
    out.insert(dep.name.clone(), dep.version.clone());
    let ghost first = seq![(dep.name@, dep.version@, depth)];
    proof {
        assert(text_map(out@) =~= text_map(old(out)@).insert(dep.name@, dep.version@));
        assert(first.drop_last() =~= Seq::<(Seq<char>, Seq<char>, int)>::empty());
        assert(insert_entries(text_map(old(out)@), first.drop_last()) == text_map(old(out)@));
        assert(first.last() == (dep.name@, dep.version@, depth));
        assert(insert_entries(text_map(old(out)@), first) == text_map(out@));
        assert(dep.dependencies@.take(0) =~= Seq::<ResolvedDependency>::empty());
        assert(first + forest_entries(dep.dependencies@.take(0), depth + 1) =~= first);
    }
    let mut i: usize = 0;
    while i < dep.dependencies.len()
        invariant
            i <= dep.dependencies@.len(),
            first == seq![(dep.name@, dep.version@, depth)],
            text_map(out@) == insert_entries(
                text_map(old(out)@),
                first + forest_entries(dep.dependencies@.take(i as int), depth + 1),
            ),
        decreases dep.dependencies@.len() - i,
    {
        let ghost prefix = first + forest_entries(dep.dependencies@.take(i as int), depth + 1);
        flatten_into(&dep.dependencies[i], out, Ghost(depth + 1));
        proof {
            let ds = dep.dependencies@.take(i + 1);
            assert(ds.drop_last() =~= dep.dependencies@.take(i as int));
            assert(ds.last() == dep.dependencies@[i as int]);
            lemma_insert_entries_concat(text_map(old(out)@), prefix, tree_entries(dep.dependencies@[i as int], depth + 1));
            assert(first + forest_entries(ds, depth + 1) =~= prefix + tree_entries(dep.dependencies@[i as int], depth + 1));
        }
        i = i + 1;
    }
    assert(dep.dependencies@.take(dep.dependencies@.len() as int) =~= dep.dependencies@);
}

/// Appends a tree's entries, in pre-order, to `result`, its root at `depth`.
fn walk(dep: &ResolvedDependency, depth: usize, result: &mut Vec<(String, String, usize)>)
    requires
        depth + tree_height(*dep) <= usize::MAX + 1,
    ensures
        listing_view(final(result)@) == listing_view(old(result)@) + tree_entries(*dep, depth as int),
    decreases dep,
{
    result.push((dep.name.clone(), dep.version.clone(), depth));
    let ghost first = seq![(dep.name@, dep.version@, depth as int)];
    proof {
        assert(listing_view(result@) =~= listing_view(old(result)@) + first);
        assert(dep.dependencies@.take(0) =~= Seq::<ResolvedDependency>::empty());
        assert(first + forest_entries(dep.dependencies@.take(0), depth + 1) =~= first);
    }
    let mut i: usize = 0;
    while i < dep.dependencies.len()
        invariant
            i <= dep.dependencies@.len(),
            depth + tree_height(*dep) <= usize::MAX + 1,
            first == seq![(dep.name@, dep.version@, depth as int)],
            listing_view(result@) == listing_view(old(result)@) + first + forest_entries(
                dep.dependencies@.take(i as int),
                depth + 1,
            ),
        decreases dep.dependencies@.len() - i,
    {
        proof {
            lemma_forest_height_bounds(dep.dependencies@, i as int);
        }
        let ghost before = listing_view(result@);
        walk(&dep.dependencies[i], depth + 1, result);
        proof {
            let ds = dep.dependencies@.take(i + 1);
            assert(ds.drop_last() =~= dep.dependencies@.take(i as int));
            assert(ds.last() == dep.dependencies@[i as int]);
            assert(listing_view(result@) =~= listing_view(old(result)@) + first + forest_entries(ds, depth + 1));
        }
        i = i + 1;
    }
    assert(dep.dependencies@.take(dep.dependencies@.len() as int) =~= dep.dependencies@);
}

/// Memoises resolutions against a registry: a name and specification
/// resolved once are answered from the cache afterwards.
pub struct Resolver {
    registry: Arc<Registry>,
    cache: StringMap<String>,
}

/// The key under which a resolution is cached: `name@spec`.
pub open spec fn cache_key_view(name: Seq<char>, spec: Seq<char>) -> Seq<char> {
    name + "@"@ + spec
}

/// The cache after recording that `key` resolved to `version`: a key the
/// cache answers already keeps its answer.
pub open spec fn recorded(cache: Map<Seq<char>, String>, key: Seq<char>, version: String) -> Map<Seq<char>, String> {
    if cache.contains_key(key) {
        cache
    } else {
        cache.insert(key, version)
    }
}

/// What the cache answers after a resolution is recorded: the key is
/// answered, with the recorded version unless it was answered before, and
/// every key answered before keeps its answer.
pub proof fn lemma_cache_answers_recorded(
    cache: Map<Seq<char>, String>,
    name: Seq<char>,
    spec: Seq<char>,
    version: String,
    other: Seq<char>,
)
    ensures
        recorded(cache, cache_key_view(name, spec), version).contains_key(cache_key_view(name, spec)),
        !cache.contains_key(cache_key_view(name, spec)) ==> recorded(cache, cache_key_view(name, spec), version)[cache_key_view(
            name,
            spec,
        )] == version,
        cache.submap_of(recorded(cache, cache_key_view(name, spec), version)),
        other != cache_key_view(name, spec) ==> (recorded(cache, cache_key_view(name, spec), version).contains_key(other)
            <==> cache.contains_key(other)),
{
}

/// The cache after recording each `(key, version)` of `records` in turn.
pub open spec fn record_all(cache: Map<Seq<char>, String>, records: Seq<(Seq<char>, String)>) -> Map<Seq<char>, String>
    decreases records.len(),
{
    if records.len() == 0 {
        cache
    } else {
        recorded(record_all(cache, records.drop_last()), records.last().0, records.last().1)
    }
}

/// Once the resolver has answered a name and specification, it answers
/// them the same way after any further recordings: asking again gives the
/// same version (with no nested resolutions, see `cached_resolution`).
pub proof fn lemma_cached_pair_answers_again(
    cache: Map<Seq<char>, String>,
    records: Seq<(Seq<char>, String)>,
    name: Seq<char>,
    spec: Seq<char>,
)
    requires
        cache.contains_key(cache_key_view(name, spec)),
    ensures
        record_all(cache, records).contains_key(cache_key_view(name, spec)),
        record_all(cache, records)[cache_key_view(name, spec)] == cache[cache_key_view(name, spec)],
{
    lemma_cache_after_records(cache, records, cache_key_view(name, spec));
}

/// Over any run of recordings, the cache answers a key it answered before
/// or that was recorded: with what it answered before, or else with the
/// version of the first recording of that key.
pub proof fn lemma_cache_after_records(cache: Map<Seq<char>, String>, records: Seq<(Seq<char>, String)>, k: Seq<char>)
    ensures
        record_all(cache, records).contains_key(k) <==> cache.contains_key(k) || exists|i: int|
            0 <= i < records.len() && records[i].0 == k,
        cache.contains_key(k) ==> record_all(cache, records)[k] == cache[k],
        forall|i: int|
            0 <= i < records.len() && records[i].0 == k && !cache.contains_key(k) && (forall|j: int|
                0 <= j < i ==> records[j].0 != k) ==> record_all(cache, records)[k] == #[trigger] records[i].1,
    decreases records.len(),
{
    if records.len() > 0 {
        let prefix = records.drop_last();
        lemma_cache_after_records(cache, prefix, k);
        if exists|i: int| 0 <= i < records.len() && records[i].0 == k {
            let i = choose|i: int| 0 <= i < records.len() && records[i].0 == k;
            if i < records.len() - 1 {
                assert(prefix[i].0 == k);
            }
        }
        if record_all(cache, records).contains_key(k) && records.last().0 != k && !cache.contains_key(k) {
            let i = choose|i: int| 0 <= i < prefix.len() && prefix[i].0 == k;
            assert(records[i].0 == k);
        }
        assert forall|i: int|
            0 <= i < records.len() && records[i].0 == k && !cache.contains_key(k) && (forall|j: int|
                0 <= j < i ==> records[j].0 != k) implies record_all(cache, records)[k] == #[trigger] records[i].1 by {
            if i < records.len() - 1 {
                assert(prefix[i] == records[i]);
                assert forall|j: int| 0 <= j < i implies prefix[j].0 != k by {
                    assert(prefix[j] == records[j]);
                }
            } else {
                if record_all(cache, prefix).contains_key(k) {
                    let j = choose|j: int| 0 <= j < prefix.len() && prefix[j].0 == k;
                    assert(records[j].0 == k);
                }
            }
        }
    }
}

/// A list of pairs of strings seen through their text.
pub open spec fn pairs_view(v: Seq<(String, String)>) -> Seq<(Seq<char>, Seq<char>)> {
    v.map_values(|e: (String, String)| (e.0@, e.1@))
}

/// Copies the entries of a map of strings, in order.
fn copy_entries(m: &StringMap<String>) -> (v: Vec<(String, String)>)
    ensures
        pairs_view(v@) == pairs_view(m.items()),
{
    let items = m.entries();
    let mut out: Vec<(String, String)> = Vec::new();
    let mut i: usize = 0;
    while i < items.len()
        invariant
            i <= items@.len(),
            items@ == m.items(),
            out@ == items@.take(i as int),
        decreases items@.len() - i,
    {
        out.push((items[i].0.clone(), items[i].1.clone()));
        i = i + 1;
        assert(out@ =~= items@.take(i as int));
    }
    assert(items@.take(items@.len() as int) =~= items@);
    out
}

impl Resolver {
    /// A resolver with an empty cache.
    pub fn new(registry: Arc<Registry>) -> (r: Resolver)
        ensures
            r.registry_view() == *registry,
            r.cache_view() == Map::<Seq<char>, String>::empty(),
    {
        Resolver { registry, cache: StringMap::new() }
    }

    /// The registry that the resolver asks.
    pub closed spec fn registry_view(&self) -> Registry {
        *self.registry
    }

    /// The cached resolutions, by `name@spec`.
    pub closed spec fn cache_view(&self) -> Map<Seq<char>, String> {
        self.cache@
    }

    /// The registry that the resolver asks.
    pub fn registry(&self) -> (r: &Registry)
        ensures
            *r == self.registry_view(),
    {
        &self.registry
    }

    /// The key under which a resolution is cached: `name@spec`.
    pub fn cache_key(name: &str, spec: &str) -> (k: String)
        ensures
            k@ == cache_key_view(name@, spec@),
    {
        let mut k = concat(name, "@");
        k.append(spec);
        k
    }

    /// The answer the cache holds for `name` and `spec`: the cached
    /// version, with no nested dependencies.
    pub fn cached_resolution(&self, name: &str, spec: &str) -> (r: Option<ResolvedDependency>)
        ensures
            r is Some <==> self.cache_view().contains_key(cache_key_view(name@, spec@)),
            r matches Some(d) ==> d.name@ == name@ && d.version == self.cache_view()[cache_key_view(name@, spec@)]
                && d.dependencies@.len() == 0,
    {
        let key = Self::cache_key(name, spec);
        match self.cache.get(key.as_str()) {
            Some(v) => Some(ResolvedDependency { name: owned(name), version: v.clone(), dependencies: Vec::new() }),
            None => None,
        }
    }

    /// The dependencies a resolved version asks for, `(name, spec)` in
    /// the order of its manifest.
    pub fn requests_of(version: &PackageVersion) -> (v: Vec<(String, String)>)
        ensures
            pairs_view(v@) == (match version.dependencies {
                Some(m) => pairs_view(m.items()),
                None => Seq::empty(),
            }),
    {
        match &version.dependencies {
            Some(m) => copy_entries(m),
            None => Vec::new(),
        }
    }

    /// The dependencies that resolving a whole project starts from: its
    /// regular, peer and optional dependencies.
    pub fn project_requests(package: &Package) -> (v: Vec<(String, String)>)
        ensures
            pairs_view(v@).len() == v@.len(),
            forall|i: int| 0 <= i < v@.len() ==> all_dependencies_view(*package).contains_key(#[trigger] v@[i].0@)
                && all_dependencies_view(*package)[v@[i].0@] == v@[i].1,
            forall|k: Seq<char>| all_dependencies_view(*package).contains_key(k) ==> exists|i: int|
                0 <= i < v@.len() && #[trigger] v@[i].0@ == k,
    {
        let all = package.all_dependencies();
        let items = all.entries();
        let mut out: Vec<(String, String)> = Vec::new();
        let mut i: usize = 0;
        while i < items.len()
            invariant
                i <= items@.len(),
                all@ == entries_map(items@),
                distinct_keys(items@),
                all@ == all_dependencies_view(*package),
                out@.len() == i,
                forall|j: int| 0 <= j < i ==> #[trigger] out@[j].0@ == items@[j].0@ && out@[j].1 == items@[j].1,
            decreases items@.len() - i,
        {
            out.push((items[i].0.clone(), items[i].1.clone()));
            i = i + 1;
        }
        proof {
            assert forall|j: int| 0 <= j < out@.len() implies all_dependencies_view(*package).contains_key(#[trigger] out@[j].0@)
                && all_dependencies_view(*package)[out@[j].0@] == out@[j].1 by {
                lemma_entries_map_at(items@, j);
            }
            assert forall|k: Seq<char>| all_dependencies_view(*package).contains_key(k) implies exists|i: int|
                0 <= i < out@.len() && #[trigger] out@[i].0@ == k by {
                crate::strmap::lemma_entries_map_dom(items@, k);
                let j = choose|j: int| 0 <= j < items@.len() && items@[j].0@ == k;
                assert(out@[j].0@ == k);
            }
        }
        out
    }

    /// Records that `name` at `spec` resolved to `version`, unless the
    /// cache answers them already, and assembles the resolved package with
    /// its nested resolutions.
    pub fn record_resolution(
        &mut self,
        name: &str,
        spec: &str,
        version: String,
        nested: Vec<ResolvedDependency>,
    ) -> (d: ResolvedDependency)
        ensures
            final(self).cache_view() == recorded(old(self).cache_view(), cache_key_view(name@, spec@), version),
            final(self).registry_view() == old(self).registry_view(),
            d.name@ == name@,
            d.version == version,
            d.dependencies == nested,
    {
        let key = Self::cache_key(name, spec);
        if !self.cache.contains_key(key.as_str()) {
            self.cache.insert(key, version.clone());
        }
        ResolvedDependency { name: owned(name), version, dependencies: nested }
    }

    /// Every package of the trees with its version, a later occurrence of a
    /// name overriding an earlier one.
    pub fn flatten_dependencies(&self, deps: &[ResolvedDependency]) -> (m: StringMap<String>)
        ensures
            text_map(m@) == insert_entries(Map::empty(), forest_entries(deps@, 0)),
    {
        let mut m: StringMap<String> = StringMap::new();
        assert(text_map(m@) =~= Map::<Seq<char>, Seq<char>>::empty());
        assert(deps@.take(0) =~= Seq::<ResolvedDependency>::empty());
        let mut i: usize = 0;
        while i < deps.len()
            invariant
                i <= deps@.len(),
                text_map(m@) == insert_entries(Map::empty(), forest_entries(deps@.take(i as int), 0)),
            decreases deps@.len() - i,
        {
            let ghost prefix = forest_entries(deps@.take(i as int), 0);
            flatten_into(&deps[i], &mut m, Ghost(0));
            proof {
                let ds = deps@.take(i + 1);
                assert(ds.drop_last() =~= deps@.take(i as int));
                assert(ds.last() == deps@[i as int]);
                lemma_insert_entries_concat(Map::empty(), prefix, tree_entries(deps@[i as int], 0));
            }
            i = i + 1;
        }
        assert(deps@.take(deps@.len() as int) =~= deps@);
        m
    }

    /// Every package of the trees, in pre-order, with its depth (the roots
    /// at depth 0).
    pub fn collect_tree(&self, deps: &[ResolvedDependency]) -> (t: Vec<(String, String, usize)>)
        requires
            forest_height(deps@) <= usize::MAX + 1,
        ensures
            listing_view(t@) == forest_entries(deps@, 0),
    {
        let mut t: Vec<(String, String, usize)> = Vec::new();
        assert(listing_view(t@) =~= Seq::<(Seq<char>, Seq<char>, int)>::empty());
        assert(deps@.take(0) =~= Seq::<ResolvedDependency>::empty());
        let mut i: usize = 0;
        while i < deps.len()
            invariant
                i <= deps@.len(),
                forest_height(deps@) <= usize::MAX + 1,
                listing_view(t@) == forest_entries(deps@.take(i as int), 0),
            decreases deps@.len() - i,
        {
            proof {
                lemma_forest_height_bounds(deps@, i as int);
            }
            walk(&deps[i], 0, &mut t);
            proof {
                let ds = deps@.take(i + 1);
                assert(ds.drop_last() =~= deps@.take(i as int));
                assert(ds.last() == deps@[i as int]);
            }
            i = i + 1;
        }
        assert(deps@.take(deps@.len() as int) =~= deps@);
        t
    }

    /// The names that hold more than one version, each with its versions
    /// sorted. A map holds one version per name, so there are never any.
    pub fn detect_conflicts(&self, resolved: &StringMap<String>) -> (c: Vec<(String, Vec<String>)>)
        ensures
            c@.len() == 0,
    {
        let items = resolved.entries();
        let mut groups: StringMap<Vec<String>> = StringMap::new();
        let mut i: usize = 0;
        while i < items.len()
            invariant
                i <= items@.len(),
                distinct_keys(items@),
                forall|k: Seq<char>| #[trigger] groups@.contains_key(k) ==> groups@[k]@.len() == 1 && exists|j: int|
                    0 <= j < i && items@[j].0@ == k,
            decreases items@.len() - i,
        {
            let name = items[i].0.as_str();
            let version = items[i].1.clone();
            match groups.replace_value(name, Vec::new()) {
                Some(mut list) => {
                    proof {
                        let j = choose|j: int| 0 <= j < i && items@[j].0@ == name@;
                        assert(items@[j].0@ == items@[i as int].0@);
                    }
                    list.push(version);
                    groups.insert(items[i].0.clone(), list);
                },
                None => {
                    let mut list: Vec<String> = Vec::new();
                    list.push(version);
                    groups.insert(items[i].0.clone(), list);
                    proof {
                        assert forall|k: Seq<char>| #[trigger] groups@.contains_key(k) implies groups@[k]@.len() == 1
                            && exists|j: int| 0 <= j < i + 1 && items@[j].0@ == k by {
                            if k != name@ {
                                let j = choose|j: int| 0 <= j < i && items@[j].0@ == k;
                                assert(0 <= j < i + 1 && items@[j].0@ == k);
                            } else {
                                assert(items@[i as int].0@ == k);
                            }
                        }
                    }
                },
            }
            i = i + 1;
        }
        let group_items = groups.entries();
        let mut conflicts: Vec<(String, Vec<String>)> = Vec::new();
        let mut g: usize = 0;
        while g < group_items.len()
            invariant
                g <= group_items@.len(),
                groups@ == entries_map(group_items@),
                distinct_keys(group_items@),
                forall|k: Seq<char>| #[trigger] groups@.contains_key(k) ==> groups@[k]@.len() == 1,
                conflicts@.len() == 0,
            decreases group_items@.len() - g,
        {
            proof {
                lemma_entries_map_at(group_items@, g as int);
            }
            if group_items[g].1.len() > 1 {
                let versions = sort_strings(group_items[g].1.clone());
                conflicts.push((group_items[g].0.clone(), versions));
            }
            g = g + 1;
        }
        conflicts
    }
}

/// The requests that a resolved version's dependencies make, seen through
/// their text, in the order of its manifest.
pub open spec fn version_requests(version: PackageVersion) -> Seq<(Seq<char>, Seq<char>)> {
    match version.dependencies {
        Some(m) => pairs_view(m.items()),
        None => Seq::empty(),
    }
}

/// The expansion of one package being resolved: the version chosen for
/// it, the requests of that version's dependencies, and the resolutions
/// of the first of them, one per request and in its order. Resolving the
/// requests one after the other, stopping at the first that fails, and
/// then finishing, gives the package's tree.
pub struct Expansion {
    name: String,
    spec: String,
    version: String,
    requests: Vec<(String, String)>,
    nested: Vec<ResolvedDependency>,
}

impl Expansion {
    #[verifier::type_invariant]
    spec fn one_per_request(self) -> bool {
        &&& self.nested@.len() <= self.requests@.len()
        &&& forall|i: int| 0 <= i < self.nested@.len() ==> (#[trigger] self.nested@[i]).name@ == self.requests@[i].0@
    }

    /// The name of the package being resolved.
    pub closed spec fn name_view(&self) -> Seq<char> {
        self.name@
    }

    /// The specification it was asked for with.
    pub closed spec fn spec_view(&self) -> Seq<char> {
        self.spec@
    }

    /// The version chosen for it.
    pub closed spec fn version_view(&self) -> String {
        self.version
    }

    /// The requests of the chosen version's dependencies, in order.
    pub closed spec fn requests_view(&self) -> Seq<(Seq<char>, Seq<char>)> {
        pairs_view(self.requests@)
    }

    /// The resolutions gathered so far, one per request from the first.
    pub closed spec fn nested_view(&self) -> Seq<ResolvedDependency> {
        self.nested@
    }

    /// Starts expanding `name`, asked for at `spec` and resolved to
    /// `version`, whose metadata is `version_info`: nothing resolved yet.
    pub fn begin(name: &str, spec: &str, version: String, version_info: &PackageVersion) -> (e: Expansion)
        ensures
            e.name_view() == name@,
            e.spec_view() == spec@,
            e.version_view() == version,
            e.requests_view() == version_requests(*version_info),
            e.nested_view().len() == 0,
    {
        let requests = Resolver::requests_of(version_info);
        Expansion { name: owned(name), spec: owned(spec), version, requests, nested: Vec::new() }
    }

    /// The request to resolve next: the first one without a resolution,
    /// or none when every request has one.
    pub fn next_request(&self) -> (r: Option<(String, String)>)
        ensures
            self.nested_view().len() < self.requests_view().len() ==> (r matches Some(p) && (p.0@, p.1@)
                == self.requests_view()[self.nested_view().len() as int]),
            self.nested_view().len() >= self.requests_view().len() ==> r is None,
    {
        proof {
            use_type_invariant(self);
        }
        let k = self.nested.len();
        if k < self.requests.len() {
            Some((self.requests[k].0.clone(), self.requests[k].1.clone()))
        } else {
            None
        }
    }

    /// Adds the resolution of the next request. It is refused, and nothing
    /// changes, when every request has one already or when it resolves a
    /// package of another name.
    pub fn add(&mut self, dep: ResolvedDependency) -> (accepted: bool)
        ensures
            accepted == (old(self).nested_view().len() < old(self).requests_view().len() && dep.name@
                == old(self).requests_view()[old(self).nested_view().len() as int].0),
            accepted ==> final(self).nested_view() == old(self).nested_view().push(dep),
            !accepted ==> final(self).nested_view() == old(self).nested_view(),
            final(self).requests_view() == old(self).requests_view(),
            final(self).name_view() == old(self).name_view(),
            final(self).spec_view() == old(self).spec_view(),
            final(self).version_view() == old(self).version_view(),
    {
        proof {
            use_type_invariant(&*self);
        }
        let k = self.nested.len();
        if k < self.requests.len() && str_eq(dep.name.as_str(), self.requests[k].0.as_str()) {
            let mut nested: Vec<ResolvedDependency> = Vec::new();
            std::mem::swap(&mut nested, &mut self.nested);
            let ghost before = nested@;
            nested.push(dep);
            proof {
                assert forall|i: int| 0 <= i < nested@.len() implies (#[trigger] nested@[i]).name@
                    == self.requests@[i].0@ by {
                    if i < before.len() {
                        assert(nested@[i] == before[i]);
                    }
                }
            }
            self.nested = nested;
            true
        } else {
            false
        }
    }

    /// Finishes the expansion once every request has its resolution:
    /// records the package's version in the resolver's cache (unless the
    /// cache answers its name and specification already) and gives the
    /// package with its dependencies, one per request of the chosen
    /// version and in their order. An unfinished expansion gives nothing
    /// and leaves the resolver as it was.
    pub fn finish(self, resolver: &mut Resolver) -> (r: Option<ResolvedDependency>)
        ensures
            r is Some <==> self.nested_view().len() == self.requests_view().len(),
            r matches Some(d) ==> {
                &&& d.name@ == self.name_view()
                &&& d.version == self.version_view()
                &&& d.dependencies@ == self.nested_view()
                &&& d.dependencies@.len() == self.requests_view().len()
                &&& forall|i: int| 0 <= i < d.dependencies@.len() ==> (#[trigger] d.dependencies@[i]).name@ == self.requests_view()[i].0
                &&& final(resolver).cache_view() == recorded(
                    old(resolver).cache_view(),
                    cache_key_view(self.name_view(), self.spec_view()),
                    self.version_view(),
                )
            },
            r is None ==> final(resolver).cache_view() == old(resolver).cache_view(),
            final(resolver).registry_view() == old(resolver).registry_view(),
    {
        proof {
            use_type_invariant(&self);
        }
        if self.nested.len() == self.requests.len() {
            let Expansion { name, spec, version, requests, nested } = self;
            Some(resolver.record_resolution(name.as_str(), spec.as_str(), version, nested))
        } else {
            None
        }
    }
}

} // verus!
