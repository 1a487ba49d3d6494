//! Maps keyed by text, kept in key order: what the tool reports per parent
//! device, in the order in which it reports it.

use vstd::prelude::*;
use crate::text::{lemma_text_less_order, text_less, text_lt};

verus! {

/// Keys in strictly increasing order (so no key occurs twice).
pub open spec fn key_order<V>(s: Seq<(Seq<char>, V)>) -> bool {
    forall|i: int, j: int| 0 <= i < j < s.len() ==> text_less(#[trigger] s[i].0, #[trigger] s[j].0)
}

/// The value of the first entry with key `k`.
pub open spec fn lookup<V>(s: Seq<(Seq<char>, V)>, k: Seq<char>) -> Option<V>
    decreases s.len(),
{
    if s.len() == 0 {
        None
    } else if s[0].0 == k {
        Some(s[0].1)
    } else {
        lookup(s.drop_first(), k)
    }
}

/// The entries as a map from keys to values.
pub open spec fn as_map<V>(s: Seq<(Seq<char>, V)>) -> Map<Seq<char>, V> {
    Map::new(|k: Seq<char>| lookup(s, k) is Some, |k: Seq<char>| lookup(s, k)->Some_0)
}

/// In keys kept in order, the lookup of an entry's key finds that entry.
pub proof fn lemma_lookup_at<V>(s: Seq<(Seq<char>, V)>, k: Seq<char>, i: int)
    requires
        key_order(s),
        0 <= i < s.len(),
        s[i].0 == k,
    ensures
        lookup(s, k) == Some(s[i].1),
    decreases s.len(),
{
    if i > 0 {
        assert(text_less(s[0].0, s[i].0));
        lemma_text_less_order(k, k, k);
        assert(s[0].0 != k);
        let t = s.drop_first();
        assert(key_order(t)) by {
            assert forall|a: int, b: int| 0 <= a < b < t.len() implies text_less(
                #[trigger] t[a].0,
                #[trigger] t[b].0,
            ) by {
                assert(t[a] == s[a + 1] && t[b] == s[b + 1]);
            }
        }
        lemma_lookup_at(t, k, i - 1);
    }
}

/// A key that no entry has is not found.
pub proof fn lemma_lookup_missing<V>(s: Seq<(Seq<char>, V)>, k: Seq<char>)
    requires
        forall|i: int| 0 <= i < s.len() ==> #[trigger] s[i].0 != k,
    ensures
        lookup(s, k) is None,
    decreases s.len(),
{
    if s.len() > 0 {
        let t = s.drop_first();
        assert forall|i: int| 0 <= i < t.len() implies #[trigger] t[i].0 != k by {
            assert(t[i] == s[i + 1]);
        }
        lemma_lookup_missing(t, k);
    }
}

/// How many keys the map of `s` has, told apart as none, one or more.
pub proof fn lemma_map_shape<V>(s: Seq<(Seq<char>, V)>)
    requires
        key_order(s),
    ensures
        s.len() == 0 ==> as_map(s).dom() == Set::<Seq<char>>::empty(),
        s.len() == 1 ==> as_map(s).dom() == set![s[0].0] && as_map(s)[s[0].0] == s[0].1,
        s.len() >= 2 ==> as_map(s).dom() != Set::<Seq<char>>::empty() && !(exists|p: Seq<char>|
            as_map(s).dom() == set![p]),
{
    if s.len() == 0 {
        assert(as_map(s).dom() =~= Set::<Seq<char>>::empty());
    } else if s.len() == 1 {
        lemma_lookup_at(s, s[0].0, 0);
        assert forall|k: Seq<char>| k != s[0].0 implies lookup(s, k) is None by {
            lemma_lookup_missing(s, k);
        }
        assert(as_map(s).dom() =~= set![s[0].0]);
    } else {
        lemma_lookup_at(s, s[0].0, 0);
        lemma_lookup_at(s, s[1].0, 1);
        assert(text_less(s[0].0, s[1].0));
        lemma_text_less_order(s[0].0, s[0].0, s[0].0);
        assert(as_map(s).dom().contains(s[0].0));
        assert(as_map(s).dom().contains(s[1].0));
        if exists|p: Seq<char>| as_map(s).dom() == set![p] {
            let p = choose|p: Seq<char>| as_map(s).dom() == set![p];
            assert(set![p].contains(s[0].0));
            assert(set![p].contains(s[1].0));
        }
    }
}

/// A map from text keys to values, iterated in key order (the order of the
/// keys' code points, as `BTreeMap<String, _>` iterates).
#[derive(Debug)]
pub struct TextMap<V> {
    entries: Vec<(String, V)>,
}

/// An entry with its key as a sequence of characters.
pub open spec fn entry_view<V>(e: (String, V)) -> (Seq<char>, V) {
    (e.0@, e.1)
}

impl<V> View for TextMap<V> {
    type V = Seq<(Seq<char>, V)>;

    closed spec fn view(&self) -> Seq<(Seq<char>, V)> {
        self.entries@.map_values(|e: (String, V)| entry_view(e))
    }
}

impl<V> TextMap<V> {
    #[verifier::type_invariant]
    closed spec fn keys_in_order(&self) -> bool {
        key_order(self@)
    }

    /// The empty map.
    pub fn new() -> (m: Self)
        ensures
            m@ == Seq::<(Seq<char>, V)>::empty(),
    {
        let m = TextMap { entries: Vec::new() };
        assert(m@ =~= Seq::<(Seq<char>, V)>::empty());
        m
    }

    pub fn len(&self) -> (n: usize)
        ensures
            n == self@.len(),
    {
        self.entries.len()
    }

    pub fn is_empty(&self) -> (b: bool)
        ensures
            b == (self@.len() == 0),
    {
        self.entries.len() == 0
    }

    /// The entries, in key order.
    pub fn entries(&self) -> (v: &Vec<(String, V)>)
        ensures
            v@.map_values(|e: (String, V)| entry_view(e)) == self@,
            key_order(self@),
    {
        proof {
            use_type_invariant(self);
        }
        &self.entries
    }

    /// The entries, in key order, taken out of the map.
    pub fn into_entries(self) -> (v: Vec<(String, V)>)
        ensures
            v@.map_values(|e: (String, V)| entry_view(e)) == self@,
            key_order(self@),
    {
        proof {
            use_type_invariant(&self);
        }
        self.entries
    }

    /// Puts `value` under `key`, in place of any value that was there.
    pub fn insert(&mut self, key: String, value: V)
        ensures
            key_order(final(self)@),
            as_map(final(self)@) == as_map(old(self)@).insert(key@, value),
    {
        proof {
            use_type_invariant(&*self);
        }
        let ghost old_view = self@;
        let mut entries = Vec::new();
        std::mem::swap(&mut entries, &mut self.entries);
        let n: usize = entries.len();
        let mut i: usize = 0;
        while i < n && text_lt(entries[i].0.as_str(), key.as_str())
            invariant
                n == entries.len(),
                i <= n,
                entries@.map_values(|e: (String, V)| entry_view(e)) == old_view,
                key_order(old_view),
                forall|j: int| 0 <= j < i ==> text_less(#[trigger] old_view[j].0, key@),
            decreases n - i,
        {
            i = i + 1;
        }
        let ghost new_view: Seq<(Seq<char>, V)>;
        if i < n && entries[i].0 == key {
            entries.set(i, (key, value));
            proof {
                new_view = old_view.update(i as int, (key@, value));
            }
        } else {
            entries.insert(i, (key, value));
            proof {
                new_view = old_view.insert(i as int, (key@, value));
            }
        }
        assert(entries@.map_values(|e: (String, V)| entry_view(e)) =~= new_view);
        assert(key_order(new_view)) by {
            assert forall|a: int, b: int| 0 <= a < b < new_view.len() implies text_less(
                #[trigger] new_view[a].0,
                #[trigger] new_view[b].0,
            ) by {
                if i < n {
                    lemma_text_less_order(old_view[i as int].0, key@, key@);
                }
                if i < n && old_view[i as int].0 == key@ {
                } else {
                    // the new key sits between the smaller keys and the larger ones
                    if a < i && b > i {
                        lemma_text_less_order(old_view[a].0, key@, old_view[b - 1].0);
                        if b - 1 > i {
                            lemma_text_less_order(key@, old_view[i as int].0, old_view[b - 1].0);
                        }
                    } else if a == i && b > i {
                        if b - 1 > i {
                            lemma_text_less_order(key@, old_view[i as int].0, old_view[b - 1].0);
                        }
                    }
                }
            }
        }
        assert(as_map(new_view) =~= as_map(old_view).insert(key@, value)) by {
            assert forall|k: Seq<char>| #![auto] lookup(new_view, k) == if k == key@ {
                Some(value)
            } else {
                lookup(old_view, k)
            } by {
                if k == key@ {
                    lemma_lookup_at(new_view, k, i as int);
                } else {
                    if exists|j: int| 0 <= j < old_view.len() && old_view[j].0 == k {
                        let j = choose|j: int| 0 <= j < old_view.len() && old_view[j].0 == k;
                        lemma_lookup_at(old_view, k, j);
                        if i < n && old_view[i as int].0 == key@ {
                            lemma_lookup_at(new_view, k, j);
                        } else if j < i {
                            lemma_lookup_at(new_view, k, j);
                        } else {
                            lemma_lookup_at(new_view, k, j + 1);
                        }
                    } else {
                        lemma_lookup_missing(old_view, k);
                        assert forall|j: int| 0 <= j < new_view.len() implies #[trigger] new_view[j].0
                            != k by {
                            if i < n && old_view[i as int].0 == key@ {
                            } else if j < i {
                            } else if j > i {
                                assert(new_view[j] == old_view[j - 1]);
                            }
                        }
                        lemma_lookup_missing(new_view, k);
                    }
                }
            }
        }
        self.entries = entries;
    }
}

impl<V> TextMap<V> {
    /// Takes the value under `key` out of the map, if there is one.
    pub fn take(&mut self, key: &String) -> (r: Option<V>)
        ensures
            key_order(final(self)@),
            as_map(final(self)@) == as_map(old(self)@).remove(key@),
            r == lookup(old(self)@, key@),
    {
        proof {
            use_type_invariant(&*self);
        }
        let ghost old_view = self@;
        let mut entries = Vec::new();
        std::mem::swap(&mut entries, &mut self.entries);
        let n: usize = entries.len();
        let mut i: usize = 0;
        while i < n && entries[i].0 != *key
            invariant
                n == entries.len(),
                i <= n,
                entries@.map_values(|e: (String, V)| entry_view(e)) == old_view,
                key_order(old_view),
                forall|j: int| 0 <= j < i ==> #[trigger] old_view[j].0 != key@,
            decreases n - i,
        {
            i = i + 1;
        }
        if i == n {
            proof {
                lemma_lookup_missing(old_view, key@);
                assert(as_map(old_view) =~= as_map(old_view).remove(key@));
            }
            self.entries = entries;
            return None;
        }
        let (_, v) = entries.remove(i);
        let ghost new_view = old_view.remove(i as int);
        assert(entries@.map_values(|e: (String, V)| entry_view(e)) =~= new_view);
        proof {
            lemma_lookup_at(old_view, key@, i as int);
        }
        assert(key_order(new_view)) by {
            assert forall|a: int, b: int| 0 <= a < b < new_view.len() implies text_less(
                #[trigger] new_view[a].0,
                #[trigger] new_view[b].0,
            ) by {
                let a0 = if a < i { a } else { a + 1 };
                let b0 = if b < i { b } else { b + 1 };
                assert(new_view[a] == old_view[a0] && new_view[b] == old_view[b0]);
            }
        }
        assert(as_map(new_view) =~= as_map(old_view).remove(key@)) by {
            assert forall|k: Seq<char>| #![auto] lookup(new_view, k) == if k == key@ {
                None
            } else {
                lookup(old_view, k)
            } by {
                if k == key@ {
                    assert forall|j: int| 0 <= j < new_view.len() implies #[trigger] new_view[j].0
                        != k by {
                        let j0 = if j < i { j } else { j + 1 };
                        assert(new_view[j] == old_view[j0]);
                        if j0 < i {
                            assert(text_less(old_view[j0].0, old_view[i as int].0));
                        } else {
                            assert(text_less(old_view[i as int].0, old_view[j0].0));
                        }
                        lemma_text_less_order(key@, key@, key@);
                    }
                    lemma_lookup_missing(new_view, k);
                } else if exists|j: int| 0 <= j < old_view.len() && old_view[j].0 == k {
                    let j = choose|j: int| 0 <= j < old_view.len() && old_view[j].0 == k;
                    lemma_lookup_at(old_view, k, j);
                    if j < i {
                        lemma_lookup_at(new_view, k, j);
                    } else {
                        lemma_lookup_at(new_view, k, j - 1);
                    }
                } else {
                    lemma_lookup_missing(old_view, k);
                    assert forall|j: int| 0 <= j < new_view.len() implies #[trigger] new_view[j].0
                        != k by {
                        let j0 = if j < i { j } else { j + 1 };
                        assert(new_view[j] == old_view[j0]);
                    }
                    lemma_lookup_missing(new_view, k);
                }
            }
        }
        self.entries = entries;
        Some(v)
    }
}

impl<T> TextMap<Vec<T>> {
    /// Adds `item` at the end of the list under `key`, starting a list
    /// where there is none.
    pub fn push_into(&mut self, key: String, item: T)
        ensures
            key_order(final(self)@),
            as_map(final(self)@).dom() == as_map(old(self)@).dom().insert(key@),
            forall|k: Seq<char>| k != key@ ==> #[trigger] as_map(final(self)@).index(k) == as_map(
                old(self)@,
            ).index(k),
            as_map(final(self)@)[key@]@ == (match lookup(old(self)@, key@) {
                Some(v) => v@,
                None => Seq::<T>::empty(),
            }).push(item),
    {
        let taken = self.take(&key);
        let mut list = match taken {
            Some(v) => v,
            None => Vec::new(),
        };
        list.push(item);
        let ghost mid = as_map(self@);
        self.insert(key, list);
        assert(as_map(self@).dom() =~= as_map(old(self)@).dom().insert(key@));
    }
}

} // verus!
