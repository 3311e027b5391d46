//! A map from strings to values that remembers the order in which keys
//! were first inserted. Package manifests and resolution results are kept
//! in it, so that walking a map is deterministic.
use vstd::prelude::*;
use crate::text::{sort_strings, sorted_strings, str_eq};

verus! {

/// The map that a list of entries describes, a later entry overriding an
/// earlier one with the same key.
pub open spec fn entries_map<V>(s: Seq<(String, V)>) -> Map<Seq<char>, V>
    decreases s.len(),
{
    if s.len() == 0 {
        Map::empty()
    } else {
        entries_map(s.drop_last()).insert(s.last().0@, s.last().1)
    }
}

/// No two entries share a key.
pub open spec fn distinct_keys<V>(s: Seq<(String, V)>) -> bool {
    forall|i: int, j: int| 0 <= i < s.len() && 0 <= j < s.len() && i != j ==> s[i].0@ != s[j].0@
}

/// The keys of a list of entries, in order.
pub open spec fn entry_keys<V>(s: Seq<(String, V)>) -> Seq<Seq<char>> {
    Seq::new(s.len(), |i: int| s[i].0@)
}

/// A key is in the map exactly when some entry carries it.
pub proof fn lemma_entries_map_dom<V>(s: Seq<(String, V)>, k: Seq<char>)
    ensures
        entries_map(s).contains_key(k) <==> exists|i: int| 0 <= i < s.len() && s[i].0@ == k,
    decreases s.len(),
{
    if s.len() > 0 {
        lemma_entries_map_dom(s.drop_last(), k);
        if entries_map(s).contains_key(k) && s.last().0@ != k {
            let i = choose|i: int| 0 <= i < s.drop_last().len() && s.drop_last()[i].0@ == k;
            assert(s[i].0@ == k);
        }
        if exists|i: int| 0 <= i < s.len() && s[i].0@ == k {
            let i = choose|i: int| 0 <= i < s.len() && s[i].0@ == k;
            if i < s.len() - 1 {
                assert(s.drop_last()[i].0@ == k);
            }
        }
    }
}

/// With distinct keys, each entry's value is what the map holds for its key.
pub proof fn lemma_entries_map_at<V>(s: Seq<(String, V)>, i: int)
    requires
        distinct_keys(s),
        0 <= i < s.len(),
    ensures
        entries_map(s).contains_key(s[i].0@),
        entries_map(s)[s[i].0@] == s[i].1,
    decreases s.len(),
{
    if i < s.len() - 1 {
        assert(distinct_keys(s.drop_last()));
        assert(s.drop_last()[i] == s[i]);
        lemma_entries_map_at(s.drop_last(), i);
        assert(s.last().0@ != s[i].0@);
    }
}

/// Replacing the value of an existing key is an insert into the map.
pub proof fn lemma_entries_map_update<V>(s: Seq<(String, V)>, i: int, e: (String, V))
    requires
        distinct_keys(s),
        0 <= i < s.len(),
        s[i].0@ == e.0@,
    ensures
        entries_map(s.update(i, e)) == entries_map(s).insert(e.0@, e.1),
    decreases s.len(),
{
    let t = s.update(i, e);
    if i == s.len() - 1 {
        assert(t.drop_last() =~= s.drop_last());
        assert(entries_map(t) =~= entries_map(s).insert(e.0@, e.1));
    } else {
        assert(t.drop_last() =~= s.drop_last().update(i, e));
        assert(distinct_keys(s.drop_last()));
        lemma_entries_map_update(s.drop_last(), i, e);
        assert(s.last().0@ != e.0@);
        assert(entries_map(t) =~= entries_map(s).insert(e.0@, e.1));
    }
}

/// With distinct keys the map has as many keys as there are entries.
pub proof fn lemma_entries_map_len<V>(s: Seq<(String, V)>)
    requires
        distinct_keys(s),
    ensures
        entries_map(s).dom().finite(),
        entries_map(s).dom().len() == s.len(),
    decreases s.len(),
{
    if s.len() > 0 {
        assert(distinct_keys(s.drop_last()));
        lemma_entries_map_len(s.drop_last());
        lemma_entries_map_dom(s.drop_last(), s.last().0@);
        if entries_map(s.drop_last()).contains_key(s.last().0@) {
            let i = choose|i: int| 0 <= i < s.drop_last().len() && s.drop_last()[i].0@ == s.last().0@;
            assert(s[i].0@ == s[s.len() - 1].0@);
        }
    }
}

/// A map from strings to values, kept in first-insertion order.
pub struct StringMap<V> {
    entries: Vec<(String, V)>,
}

impl<V> View for StringMap<V> {
    type V = Map<Seq<char>, V>;

    closed spec fn view(&self) -> Map<Seq<char>, V> {
        entries_map(self.entries@)
    }
}

impl<V> StringMap<V> {
    #[verifier::type_invariant]
    spec fn keys_are_distinct(self) -> bool {
        distinct_keys(self.entries@)
    }

    /// The entries, in first-insertion order.
    pub closed spec fn items(self) -> Seq<(String, V)> {
        self.entries@
    }

    /// The keys, in first-insertion order.
    pub open spec fn key_order(self) -> Seq<Seq<char>> {
        entry_keys(self.items())
    }

    /// An empty map.
    pub fn new() -> (m: Self)
        ensures
            m@ == Map::<Seq<char>, V>::empty(),
            m.items() == Seq::<(String, V)>::empty(),
    {
        StringMap { entries: Vec::new() }
    }

    /// The entries, in first-insertion order; their keys are distinct and
    /// they make up the map.
    pub fn entries(&self) -> (r: &Vec<(String, V)>)
        ensures
            r@ == self.items(),
            distinct_keys(r@),
            self@ == entries_map(r@),
    {
        proof {
            use_type_invariant(self);
        }
        &self.entries
    }

    /// The number of keys.
    pub fn len(&self) -> (n: usize)
        ensures
            n == self.items().len(),
            n == self@.dom().len(),
            self@.dom().finite(),
    {
        proof {
            use_type_invariant(self);
            lemma_entries_map_len(self.entries@);
        }
        self.entries.len()
    }

    /// Whether the map has no key.
    pub fn is_empty(&self) -> (b: bool)
        ensures
            b == (self@.dom().len() == 0),
            b == (self.items().len() == 0),
    {
        self.len() == 0
    }

    /// The position of `key` among the entries, if it is a key.
    pub fn position(&self, key: &str) -> (r: Option<usize>)
        ensures
            r is None <==> !self@.contains_key(key@),
            r matches Some(i) ==> i < self.items().len() && self.items()[i as int].0@ == key@
                && self@[key@] == self.items()[i as int].1,
    {
        proof {
            use_type_invariant(self);
            lemma_entries_map_dom(self.entries@, key@);
        }
        let mut i: usize = 0;
        while i < self.entries.len()
            invariant
                i <= self.entries@.len(),
                forall|j: int| 0 <= j < i ==> self.entries@[j].0@ != key@,
            decreases self.entries@.len() - i,
        {
            if str_eq(self.entries[i].0.as_str(), key) {
                proof {
                    use_type_invariant(self);
                    lemma_entries_map_at(self.entries@, i as int);
                }
                return Some(i);
            }
            i = i + 1;
        }
        None
    }

    /// Whether `key` is a key of the map.
    pub fn contains_key(&self, key: &str) -> (b: bool)
        ensures
            b == self@.contains_key(key@),
    {
        self.position(key).is_some()
    }

    /// The value held for `key`, if any.
    pub fn get(&self, key: &str) -> (r: Option<&V>)
        ensures
            r is Some <==> self@.contains_key(key@),
            r matches Some(v) ==> *v == self@[key@],
    {
        match self.position(key) {
            Some(i) => Some(&self.entries[i].1),
            None => None,
        }
    }

    /// Sets the value of `key`; a new key goes after all existing ones, an
    /// existing key keeps its place.
    pub fn insert(&mut self, key: String, value: V)
        ensures
            final(self)@ == old(self)@.insert(key@, value),
            old(self)@.contains_key(key@) ==> final(self).key_order() == old(self).key_order(),
            !old(self)@.contains_key(key@) ==> final(self).key_order() == old(self).key_order().push(key@),
    {
        proof {
            use_type_invariant(&*self);
        }
        match self.position(key.as_str()) {
            Some(i) => {
                proof {
                    lemma_entries_map_update(self.entries@, i as int, (key, value));
                }
                let ghost before = self.entries@;
                let mut entries: Vec<(String, V)> = Vec::new();
                std::mem::swap(&mut entries, &mut self.entries);
                entries.set(i, (key, value));
                proof {
                    assert(entries@ == before.update(i as int, (key, value)));
                    assert(entry_keys(entries@) =~= entry_keys(before));
                    assert(distinct_keys(entries@));
                }
                self.entries = entries;
            },
            None => {
                let ghost before = self.entries@;
                proof {
                    lemma_entries_map_dom(before, key@);
                }
                let mut entries: Vec<(String, V)> = Vec::new();
                std::mem::swap(&mut entries, &mut self.entries);
                entries.push((key, value));
                proof {
                    assert(entries@.drop_last() =~= before);
                    assert(entry_keys(entries@) =~= entry_keys(before).push(key@));
                }
                self.entries = entries;
            },
        }
    }

    /// The keys in name order, each once.
    pub fn sorted_keys(&self) -> (r: Vec<String>)
        ensures
            sorted_strings(r@),
            r@.len() == self.items().len(),
            forall|i: int| 0 <= i < r@.len() ==> self@.contains_key(#[trigger] r@[i]@),
            forall|k: Seq<char>| self@.contains_key(k) ==> exists|i: int| 0 <= i < r@.len() && #[trigger] r@[i]@ == k,
            forall|i: int, j: int| 0 <= i < r@.len() && 0 <= j < r@.len() && i != j ==> #[trigger] r@[i]@ != #[trigger] r@[j]@,
    {
        broadcast use vstd::seq_lib::group_to_multiset_ensures;

        proof {
            use_type_invariant(self);
        }
        let mut names: Vec<String> = Vec::new();
        let mut i: usize = 0;
        while i < self.entries.len()
            invariant
                i <= self.entries@.len(),
                names@.len() == i,
                forall|j: int| 0 <= j < i ==> #[trigger] names@[j] == self.entries@[j].0,
            decreases self.entries@.len() - i,
        {
            names.push(self.entries[i].0.clone());
            i = i + 1;
        }
        let ghost unsorted = names@;
        proof {
            assert(unsorted.no_duplicates());
            unsorted.lemma_multiset_has_no_duplicates();
        }
        let sorted = sort_strings(names);
        proof {
            sorted@.lemma_multiset_has_no_duplicates_conv();
            assert forall|i: int| 0 <= i < sorted@.len() implies exists|j: int|
                0 <= j < unsorted.len() && unsorted[j] == #[trigger] sorted@[i] by {
                vstd::seq_lib::to_multiset_contains(sorted@, sorted@[i]);
                vstd::seq_lib::to_multiset_contains(unsorted, sorted@[i]);
            }
            assert forall|i: int| 0 <= i < sorted@.len() implies self@.contains_key(#[trigger] sorted@[i]@) by {
                let j = choose|j: int| 0 <= j < unsorted.len() && unsorted[j] == sorted@[i];
                lemma_entries_map_dom(self.entries@, sorted@[i]@);
                assert(self.entries@[j].0@ == sorted@[i]@);
            }
            assert forall|k: Seq<char>| self@.contains_key(k) implies exists|i: int|
                0 <= i < sorted@.len() && #[trigger] sorted@[i]@ == k by {
                lemma_entries_map_dom(self.entries@, k);
                let j = choose|j: int| 0 <= j < self.entries@.len() && self.entries@[j].0@ == k;
                assert(unsorted[j] == self.entries@[j].0);
                vstd::seq_lib::to_multiset_contains(unsorted, unsorted[j]);
                vstd::seq_lib::to_multiset_contains(sorted@, unsorted[j]);
                let m = choose|m: int| 0 <= m < sorted@.len() && sorted@[m] == unsorted[j];
                assert(sorted@[m]@ == k);
            }
            assert forall|i: int, j: int| 0 <= i < sorted@.len() && 0 <= j < sorted@.len() && i != j implies
                #[trigger] sorted@[i]@ != #[trigger] sorted@[j]@ by {
                let a = choose|a: int| 0 <= a < unsorted.len() && unsorted[a] == sorted@[i];
                let b = choose|b: int| 0 <= b < unsorted.len() && unsorted[b] == sorted@[j];
                assert(sorted@[i] != sorted@[j]);
                assert(a != b);
                assert(self.entries@[a].0@ != self.entries@[b].0@);
            }
            assert(sorted@.len() == unsorted.len()) by {
                assert(sorted@.to_multiset().len() == unsorted.to_multiset().len());
            }
        }
        sorted
    }

    /// Replaces the value of an existing key, handing back the value it
    /// had; a missing key leaves the map unchanged and gives nothing back.
    pub fn replace_value(&mut self, key: &str, value: V) -> (r: Option<V>)
        ensures
            r is Some <==> old(self)@.contains_key(key@),
            r matches Some(v) ==> v == old(self)@[key@] && final(self)@ == old(self)@.insert(key@, value),
            r is None ==> final(self)@ == old(self)@,
            final(self).key_order() == old(self).key_order(),
    {
        proof {
            use_type_invariant(&*self);
        }
        match self.position(key) {
            Some(i) => {
                let ghost before = self.entries@;
                let mut entries: Vec<(String, V)> = Vec::new();
                std::mem::swap(&mut entries, &mut self.entries);
                let mut slot: (String, V) = (crate::text::owned(key), value);
                let ghost fresh = slot;
                entries.set_and_swap(i, &mut slot);
                proof {
                    lemma_entries_map_at(before, i as int);
                    lemma_entries_map_update(before, i as int, fresh);
                    assert(entries@ == before.update(i as int, fresh));
                    assert(entry_keys(entries@) =~= entry_keys(before));
                    assert(distinct_keys(entries@));
                }
                self.entries = entries;
                Some(slot.1)
            },
            None => None,
        }
    }
}

impl StringMap<String> {
    /// Inserts every entry of `other`, in its order, over this map.
    pub fn extend_from(&mut self, other: &StringMap<String>)
        ensures
            final(self)@ == old(self)@.union_prefer_right(other@),
    {
        let items = other.entries();
        let mut i: usize = 0;
        while i < items.len()
            invariant
                i <= items@.len(),
                other@ == entries_map(items@),
                self@ == old(self)@.union_prefer_right(entries_map(items@.take(i as int))),
            decreases items@.len() - i,
        {
            let k = items[i].0.clone();
            let v = items[i].1.clone();
            self.insert(k, v);
            proof {
                assert(items@.take(i + 1).drop_last() =~= items@.take(i as int));
            }
            i = i + 1;
            assert(self@ =~= old(self)@.union_prefer_right(entries_map(items@.take(i as int))));
        }
        assert(items@.take(items@.len() as int) =~= items@);
    }
}

} // verus!
