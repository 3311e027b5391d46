//! The rules of `list`: which directories of `node_modules` are packages
//! and how the tree of installed packages is drawn.
use vstd::prelude::*;
use crate::strmap::StringMap;
use crate::text::{chars_of, lex_lt, owned, sorted_strings};

verus! {

/// A directory entry of `node_modules` is listed when it is a directory
/// whose name does not start with `.`.
pub open spec fn listed_spec(name: Seq<char>, is_dir: bool) -> bool {
    is_dir && !(name.len() > 0 && name[0] == '.')
}

/// Whether a directory entry of `node_modules` is listed.
pub fn listed_entry(name: &str, is_dir: bool) -> (b: bool)
    ensures
        b == listed_spec(name@, is_dir),
{
    let c = chars_of(name);
    is_dir && !(c.len() > 0 && c[0] == '.')
}

/// The packages a directory of `node_modules` holds, name to version:
/// its listed entries inserted in order, a later entry of the same name
/// overriding an earlier one.
pub open spec fn listed_map(entries: Seq<(String, bool, Option<String>)>) -> Map<Seq<char>, Option<String>>
    decreases entries.len(),
{
    if entries.len() == 0 {
        Map::empty()
    } else {
        let rest = listed_map(entries.drop_last());
        let e = entries.last();
        if listed_spec(e.0@, e.1) {
            rest.insert(e.0@, e.2)
        } else {
            rest
        }
    }
}

/// A directory of `node_modules` lists a package exactly when some entry of
/// that name is a directory whose name does not start with `.` (so names
/// such as `socket.io` or `lodash.merge` are listed, hidden entries and
/// plain files are not).
pub proof fn lemma_listing_keeps_visible_directories(entries: Seq<(String, bool, Option<String>)>, k: Seq<char>)
    ensures
        listed_map(entries).contains_key(k) <==> exists|j: int|
            #![trigger entries[j]]
            0 <= j < entries.len() && entries[j].0@ == k && entries[j].1 && (k.len() == 0 || k[0] != '.'),
    decreases entries.len(),
{
    if entries.len() > 0 {
        let pre = entries.drop_last();
        lemma_listing_keeps_visible_directories(pre, k);
        if exists|j: int|
            #![trigger entries[j]]
            0 <= j < entries.len() && entries[j].0@ == k && entries[j].1 && (k.len() == 0 || k[0] != '.') {
            let j = choose|j: int|
                #![trigger entries[j]]
                0 <= j < entries.len() && entries[j].0@ == k && entries[j].1 && (k.len() == 0 || k[0] != '.');
            if j < entries.len() - 1 {
                assert(pre[j] == entries[j]);
            } else {
                assert(entries.last() == entries[j]);
            }
        }
        if listed_map(entries).contains_key(k) && !listed_map(pre).contains_key(k) {
            let j = entries.len() - 1;
            assert(entries.last() == entries[j]);
        }
        if listed_map(pre).contains_key(k) {
            let j = choose|j: int|
                #![trigger pre[j]]
                0 <= j < pre.len() && pre[j].0@ == k && pre[j].1 && (k.len() == 0 || k[0] != '.');
            assert(pre[j] == entries[j]);
        }
    }
}

/// The packages of one directory of `node_modules`, from its entries
/// `(name, is a directory, version)`: the listed ones, each name once
/// with the version its last entry gives, in name order, at the given
/// depth.
pub fn directory_listing(entries: &Vec<(String, bool, Option<String>)>, depth: usize) -> (v: Vec<(String, Option<String>, usize)>)
    ensures
        forall|i: int| 0 <= i < v@.len() ==> listed_map(entries@).contains_key(#[trigger] v@[i].0@)
            && listed_map(entries@)[v@[i].0@] == v@[i].1 && v@[i].2 == depth,
        forall|k: Seq<char>| listed_map(entries@).contains_key(k) ==> exists|i: int|
            0 <= i < v@.len() && #[trigger] v@[i].0@ == k,
        forall|i: int, j: int| 0 <= i < j < v@.len() ==> !lex_lt(#[trigger] v@[j].0@, #[trigger] v@[i].0@),
        forall|i: int, j: int| 0 <= i < v@.len() && 0 <= j < v@.len() && i != j ==> #[trigger] v@[i].0@ != #[trigger] v@[j].0@,
{
    let mut m: StringMap<Option<String>> = StringMap::new();
    let mut i: usize = 0;
    while i < entries.len()
        invariant
            i <= entries@.len(),
            m@ == listed_map(entries@.take(i as int)),
        decreases entries@.len() - i,
    {
        proof {
            assert(entries@.take(i + 1).drop_last() =~= entries@.take(i as int));
        }
        if listed_entry(entries[i].0.as_str(), entries[i].1) {
            let version = match &entries[i].2 {
                Some(s) => Some(s.clone()),
                None => None,
            };
            m.insert(entries[i].0.clone(), version);
        }
        i = i + 1;
    }
    assert(entries@.take(entries@.len() as int) =~= entries@);
    let names = m.sorted_keys();
    let mut out: Vec<(String, Option<String>, usize)> = Vec::new();
    let mut k: usize = 0;
    while k < names.len()
        invariant
            k <= names@.len(),
            out@.len() == k,
            m@ == listed_map(entries@),
            sorted_strings(names@),
            forall|i: int| 0 <= i < names@.len() ==> m@.contains_key(#[trigger] names@[i]@),
            forall|i: int, j: int| 0 <= i < names@.len() && 0 <= j < names@.len() && i != j ==> #[trigger] names@[i]@ != #[trigger] names@[j]@,
            forall|j: int| 0 <= j < k ==> #[trigger] out@[j].0 == names@[j] && m@[names@[j]@] == out@[j].1 && out@[j].2 == depth,
        decreases names@.len() - k,
    {
        let version = match m.get(names[k].as_str()) {
            Some(found) => match found {
                Some(s) => Some(s.clone()),
                None => None,
            },
            None => None,
        };
        assert(version == m@[names@[k as int]@]);
        out.push((names[k].clone(), version, depth));
        k = k + 1;
    }
    proof {
        assert forall|key: Seq<char>| listed_map(entries@).contains_key(key) implies exists|i: int|
            0 <= i < out@.len() && #[trigger] out@[i].0@ == key by {
            let j = choose|j: int| 0 <= j < names@.len() && #[trigger] names@[j]@ == key;
            assert(out@[j].0@ == key);
        }
    }
    out
}

/// Two spaces for each level of depth.
pub open spec fn indent_text(depth: nat) -> Seq<char>
    decreases depth,
{
    if depth == 0 {
        Seq::empty()
    } else {
        indent_text((depth - 1) as nat) + "  "@
    }
}

/// Whether entry `i` of a listing is the last of its level: the listing
/// ends after it, or the next entry is not deeper.
pub open spec fn last_of_level(depths: Seq<usize>, i: int) -> bool {
    i == depths.len() - 1 || depths[i + 1] <= depths[i]
}

/// The line that draws entry `i` of a listing of installed packages.
pub open spec fn tree_line_spec(entries: Seq<(String, Option<String>, usize)>, i: int) -> Seq<char> {
    let e = entries[i];
    let depths = Seq::new(entries.len(), |j: int| entries[j].2);
    indent_text(e.2 as nat) + (if last_of_level(depths, i) {
        "\\-- "@
    } else {
        "|-- "@
    }) + e.0@ + "@"@ + (match e.1 {
        Some(v) => v@,
        None => "?"@,
    })
}

/// Two spaces for each level of depth.
fn indent_string(depth: usize) -> (s: String)
    ensures
        s@ == indent_text(depth as nat),
{
    let mut s = String::new();
    let mut i: usize = 0;
    assert(s@ =~= indent_text(0));
    while i < depth
        invariant
            i <= depth,
            s@ == indent_text(i as nat),
        decreases depth - i,
    {
        s.append("  ");
        i = i + 1;
    }
    s
}

/// The lines that draw a listing of installed packages `(name, version,
/// depth)`: indented by depth, `\-- ` before the last entry of a level and
/// `|-- ` before the others, `?` for an unknown version.
pub fn tree_lines(packages: &Vec<(String, Option<String>, usize)>) -> (lines: Vec<String>)
    ensures
        lines@.len() == packages@.len(),
        forall|i: int| 0 <= i < lines@.len() ==> (#[trigger] lines@[i])@ == tree_line_spec(packages@, i),
{
    let mut lines: Vec<String> = Vec::new();
    let mut i: usize = 0;
    let ghost depths = Seq::new(packages@.len(), |j: int| packages@[j].2);
    while i < packages.len()
        invariant
            i <= packages@.len(),
            lines@.len() == i,
            depths == Seq::new(packages@.len(), |j: int| packages@[j].2),
            forall|j: int| 0 <= j < i ==> (#[trigger] lines@[j])@ == tree_line_spec(packages@, j),
        decreases packages@.len() - i,
    {
        let indent = packages[i].2;
        let is_last = i == packages.len() - 1 || packages[i + 1].2 <= indent;
        assert(is_last == last_of_level(depths, i as int));
        let mut line = indent_string(indent);
        if is_last {
            line.append("\\-- ");
        } else {
            line.append("|-- ");
        }
        line.append(packages[i].0.as_str());
        line.append("@");
        match &packages[i].1 {
            Some(v) => line.append(v.as_str()),
            None => line.append("?"),
        }
        lines.push(line);
        i = i + 1;
    }
    lines
}

} // verus!

verus! {

/// The depth at which the packages nested under a package of the given
/// depth are listed: one level deeper, or none (they are not listed) when
/// that level would pass the limit.
pub fn nested_level(depth: usize, max_depth: usize) -> (r: Option<usize>)
    ensures
        r == (if depth < max_depth {
            Some((depth + 1) as usize)
        } else {
            None::<usize>
        }),
{
    if depth < max_depth {
        Some(depth + 1)
    } else {
        None
    }
}

/// How deep `list` goes: the given depth, or without limit; listing the
/// global packages is refused.
pub fn depth_limit(depth: Option<usize>, global: bool) -> (r: Result<usize, crate::error::CNodeError>)
    ensures
        global ==> (r matches Err(e) && e@ == (crate::error::ErrorKind::Custom, "Global mode not supported yet"@)),
        !global ==> r == Ok::<usize, crate::error::CNodeError>(match depth {
            Some(d) => d,
            None => usize::MAX,
        }),
{
    if global {
        return Err(crate::error::CNodeError::Custom(owned("Global mode not supported yet")));
    }
    match depth {
        Some(d) => Ok(d),
        None => Ok(usize::MAX),
    }
}

} // verus!
