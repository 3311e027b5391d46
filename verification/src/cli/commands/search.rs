//! The rules of `search`: the width of the name column and how long
//! descriptions are shortened.
use vstd::prelude::*;

verus! {

/// The longest byte length (as `str::len` gives it) among the names, at
/// least `floor`.
pub open spec fn widest(names: Seq<String>, floor: nat) -> nat
    decreases names.len(),
{
    if names.len() == 0 {
        floor
    } else {
        let w = widest(names.drop_last(), floor);
        let b = (vstd::utf8::encode_utf8(names.last()@).len() as usize) as nat;
        if b > w {
            b
        } else {
            w
        }
    }
}

/// The width of the name column: the widest name, at least 20 and at most
/// 50 bytes, plus 2.
pub open spec fn name_column_width_spec(names: Seq<String>) -> nat {
    (if widest(names, 20) < 50 {
        widest(names, 20)
    } else {
        50
    }) + 2
}

/// The width of the name column of search results.
pub fn name_column_width(names: &Vec<String>) -> (w: usize)
    ensures
        w == name_column_width_spec(names@),
{
    let mut widest_so_far: usize = 20;
    let mut i: usize = 0;
    assert(names@.take(0) =~= Seq::<String>::empty());
    while i < names.len()
        invariant
            i <= names@.len(),
            widest_so_far == widest(names@.take(i as int), 20),
        decreases names@.len() - i,
    {
        let l = names[i].as_str().len();
        proof {
            assert(names@.take(i + 1).drop_last() =~= names@.take(i as int));
            assert(names@.take(i + 1).last() == names@[i as int]);
        }
        if l > widest_so_far {
            widest_so_far = l;
        }
        i = i + 1;
    }
    assert(names@.take(names@.len() as int) =~= names@);
    let capped = if widest_so_far < 50 {
        widest_so_far
    } else {
        50
    };
    capped + 2
}

/// A description as the results show it: one longer than 60 bytes is cut
/// to its first 57 bytes. The cut must fall between two characters.
pub fn short_description(desc: &str) -> (s: &str)
    requires
        vstd::utf8::encode_utf8(desc@).len() as usize > 60 ==> vstd::utf8::is_char_boundary(vstd::utf8::encode_utf8(desc@), 57),
    ensures
        vstd::utf8::encode_utf8(s@) == (if vstd::utf8::encode_utf8(desc@).len() as usize > 60 {
            vstd::utf8::encode_utf8(desc@).take(57)
        } else {
            vstd::utf8::encode_utf8(desc@)
        }),
{
    if desc.len() > 60 {
        let (head, _) = desc.split_at(57);
        head
    } else {
        desc
    }
}

} // verus!
