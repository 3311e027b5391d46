//! The rules of `cache`: which files are cached tarballs and the order
//! they are listed in.
use vstd::prelude::*;
use crate::cli::commands::install::last_index_of;
use crate::text::{chars_of, sort_strings, sorted_strings, str_eq, string_from_chars, tail_from};

verus! {

/// A file name has the extension `gz`, as `Path::extension` reads it: the
/// text after its last `.`, when something comes before that `.`.
pub open spec fn has_gz_extension_spec(file_name: Seq<char>) -> bool {
    match last_index_of(file_name, '.') {
        Some(i) => i > 0 && file_name.skip(i + 1) == "gz"@,
        None => false,
    }
}

/// Whether a file of the cache directory is a cached tarball.
pub fn has_gz_extension(file_name: &str) -> (b: bool)
    ensures
        b == has_gz_extension_spec(file_name@),
{
    let c = chars_of(file_name);
    let mut last: Option<usize> = None;
    let mut i: usize = 0;
    while i < c.len()
        invariant
            i <= c@.len(),
            last matches Some(j) ==> j < i && last_index_of(c@.take(i as int), '.') == Some(j as int),
            last is None ==> last_index_of(c@.take(i as int), '.') is None,
        decreases c@.len() - i,
    {
        proof {
            assert(c@.take(i + 1).drop_last() =~= c@.take(i as int));
            assert(c@.take(i + 1).last() == c@[i as int]);
        }
        if c[i] == '.' {
            last = Some(i);
        }
        i = i + 1;
    }
    assert(c@.take(c@.len() as int) =~= c@);
    match last {
        Some(j) => {
            if j == 0 {
                return false;
            }
            let ext = string_from_chars(tail_from(c.as_slice(), j + 1).as_slice());
            str_eq(ext.as_str(), "gz")
        },
        None => false,
    }
}

/// The cached tarballs among the files of the cache directory, in name
/// order.
pub fn cache_listing(file_names: &Vec<String>) -> (v: Vec<String>)
    ensures
        sorted_strings(v@),
        forall|i: int| 0 <= i < v@.len() ==> has_gz_extension_spec(#[trigger] v@[i]@),
        v@.to_multiset() == file_names@.filter(|s: String| has_gz_extension_spec(s@)).to_multiset(),
{
    let mut kept: Vec<String> = Vec::new();
    let mut i: usize = 0;
    let ghost pred = |s: String| has_gz_extension_spec(s@);
    proof {
        reveal(Seq::filter);
        assert(file_names@.take(0).filter(pred) =~= Seq::<String>::empty());
    }
    while i < file_names.len()
        invariant
            i <= file_names@.len(),
            pred == (|s: String| has_gz_extension_spec(s@)),
            kept@ == file_names@.take(i as int).filter(pred),
        decreases file_names@.len() - i,
    {
        proof {
            reveal(Seq::filter);
            assert(file_names@.take(i + 1).drop_last() =~= file_names@.take(i as int));
        }
        if has_gz_extension(file_names[i].as_str()) {
            kept.push(file_names[i].clone());
        }
        i = i + 1;
    }
    assert(file_names@.take(file_names@.len() as int) =~= file_names@);
    proof {
        assert forall|k: int| 0 <= k < kept@.len() implies has_gz_extension_spec(#[trigger] kept@[k]@) by {
            file_names@.lemma_filter_pred(pred, k);
        }
    }
    let ghost before = kept@;
    let sorted = sort_strings(kept);
    proof {
        assert forall|k: int| 0 <= k < sorted@.len() implies has_gz_extension_spec(#[trigger] sorted@[k]@) by {
            broadcast use vstd::seq_lib::group_to_multiset_ensures;
            vstd::seq_lib::to_multiset_contains(sorted@, sorted@[k]);
            vstd::seq_lib::to_multiset_contains(before, sorted@[k]);
            assert(sorted@.contains(sorted@[k]));
            assert(before.contains(sorted@[k]));
        }
    }
    sorted
}

} // verus!
