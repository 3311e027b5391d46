//! The rules of `audit`: which versions of which packages are sent to the
//! advisory database.
use vstd::prelude::*;
use crate::cli::commands::install::declared_spec;
use crate::strmap::StringMap;
use crate::text::{chars_of, owned, string_from_chars, tail_from};

verus! {

/// `s` without the run of `c` it starts with.
pub open spec fn trim_leading(s: Seq<char>, c: char) -> Seq<char>
    decreases s.len(),
{
    if s.len() > 0 && s[0] == c {
        trim_leading(s.drop_first(), c)
    } else {
        s
    }
}

/// The version sent for a declared specification: the specification
/// without its leading `^`, then `~`, `>`, `<` and `=` characters.
pub open spec fn audit_version_spec(v: Seq<char>) -> Seq<char> {
    trim_leading(trim_leading(trim_leading(trim_leading(trim_leading(v, '^'), '~'), '>'), '<'), '=')
}

fn trim_leading_chars(s: Vec<char>, c: char) -> (t: Vec<char>)
    ensures
        t@ == trim_leading(s@, c),
{
    let mut i: usize = 0;
    assert(s@.skip(0) =~= s@);
    while i < s.len() && s[i] == c
        invariant
            i <= s@.len(),
            trim_leading(s@, c) == trim_leading(s@.skip(i as int), c),
        decreases s@.len() - i,
    {
        assert(s@.skip(i as int).drop_first() =~= s@.skip(i + 1));
        i = i + 1;
    }
    tail_from(s.as_slice(), i)
}

/// The version sent to the advisory database for a declared
/// specification, as `^1.2.0` gives `1.2.0`.
pub fn audit_version(v: &str) -> (r: String)
    ensures
        r@ == audit_version_spec(v@),
{
    let c = chars_of(v);
    let c = trim_leading_chars(c, '^');
    let c = trim_leading_chars(c, '~');
    let c = trim_leading_chars(c, '>');
    let c = trim_leading_chars(c, '<');
    let c = trim_leading_chars(c, '=');
    string_from_chars(c.as_slice())
}

/// The map that inserting each declared dependency, with the version sent
/// for it, into `m` in order gives.
pub open spec fn insert_audit_targets(m: Map<Seq<char>, String>, declared: Seq<(String, Option<String>)>) -> Map<Seq<char>, Seq<char>>
    decreases declared.len(),
{
    if declared.len() == 0 {
        m.map_values(|v: String| v@)
    } else {
        insert_audit_targets(m, declared.drop_last()).insert(
            declared.last().0@,
            audit_version_spec(declared_spec(declared.last().1)),
        )
    }
}

fn add_targets(out: &mut StringMap<String>, declared: &Vec<(String, Option<String>)>)
    ensures
        final(out)@.map_values(|v: String| v@) == insert_audit_targets(old(out)@, declared@),
{
    let mut i: usize = 0;
    assert(declared@.take(0) =~= Seq::<(String, Option<String>)>::empty());
    while i < declared.len()
        invariant
            i <= declared@.len(),
            out@.map_values(|v: String| v@) == insert_audit_targets(old(out)@, declared@.take(i as int)),
        decreases declared@.len() - i,
    {
        let spec = match &declared[i].1 {
            Some(s) => s.clone(),
            None => owned("latest"),
        };
        let version = audit_version(spec.as_str());
        out.insert(declared[i].0.clone(), version);
        proof {
            assert(declared@.take(i + 1).drop_last() =~= declared@.take(i as int));
            assert(declared@.take(i + 1).last() == declared@[i as int]);
        }
        i = i + 1;
        assert(out@.map_values(|v: String| v@) =~= insert_audit_targets(old(out)@, declared@.take(i as int)));
    }
    assert(declared@.take(declared@.len() as int) =~= declared@);
}

/// The packages an audit asks about, name to version: the regular
/// dependencies, then the development ones, a later entry overriding an
/// earlier one.
pub fn audit_targets(
    dependencies: Option<&Vec<(String, Option<String>)>>,
    dev_dependencies: Option<&Vec<(String, Option<String>)>>,
) -> (m: StringMap<String>)
    ensures
        ({
            let first = insert_audit_targets(
                Map::empty(),
                match dependencies {
                    Some(d) => d@,
                    None => Seq::empty(),
                },
            );
            m@.map_values(|v: String| v@) == match dev_dependencies {
                Some(d) => first.union_prefer_right(insert_audit_targets(Map::empty(), d@)),
                None => first,
            }
        }),
{
    let mut m: StringMap<String> = StringMap::new();
    let ghost empty_deps = Seq::<(String, Option<String>)>::empty();
    match dependencies {
        Some(d) => add_targets(&mut m, d),
        None => {
            assert(m@.map_values(|v: String| v@) =~= insert_audit_targets(Map::empty(), empty_deps));
        },
    }
    let ghost after_first = m@;
    match dev_dependencies {
        Some(d) => {
            add_targets(&mut m, d);
            proof {
                lemma_insert_audit_targets_over(after_first, d@);
            }
        },
        None => {},
    }
    m
}

/// Inserting targets over a map is the union of the map with the targets
/// inserted over nothing, the targets winning.
proof fn lemma_insert_audit_targets_over(m: Map<Seq<char>, String>, declared: Seq<(String, Option<String>)>)
    ensures
        insert_audit_targets(m, declared) == m.map_values(|v: String| v@).union_prefer_right(
            insert_audit_targets(Map::empty(), declared),
        ),
    decreases declared.len(),
{
    if declared.len() == 0 {
        assert(Map::<Seq<char>, String>::empty().map_values(|v: String| v@) =~= Map::<Seq<char>, Seq<char>>::empty());
        assert(m.map_values(|v: String| v@).union_prefer_right(Map::<Seq<char>, Seq<char>>::empty()) =~= m.map_values(
            |v: String| v@,
        ));
    } else {
        lemma_insert_audit_targets_over(m, declared.drop_last());
        assert(insert_audit_targets(m, declared) =~= m.map_values(|v: String| v@).union_prefer_right(
            insert_audit_targets(Map::empty(), declared),
        ));
    }
}

} // verus!
