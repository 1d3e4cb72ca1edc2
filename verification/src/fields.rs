//! Named values, kept in the order of their names.
use crate::order::{self, relate, Relation};
use crate::text;
use vstd::prelude::*;

verus! {

/// A map from names to values, without duplicate names, that is walked in the
/// order of the names.
#[derive(Debug, PartialEq, Eq)]
pub struct FieldMap {
    entries: Vec<(String, String)>,
}

/// The names of a list of entries.
pub closed spec fn names(entries: Seq<(String, String)>) -> Seq<Seq<char>> {
    entries.map_values(|e: (String, String)| e.0@)
}

impl View for FieldMap {
    type V = Map<Seq<char>, Seq<char>>;

    closed spec fn view(&self) -> Map<Seq<char>, Seq<char>> {
        let entries = self.entries@;
        Map::new(
            |k: Seq<char>| names(entries).contains(k),
            |k: Seq<char>| entries[names(entries).index_of(k)].1@,
        )
    }
}

/// Whether `list` holds the names of `m`, each once and in ascending order.
pub open spec fn lists_names(m: Map<Seq<char>, Seq<char>>, list: Seq<Seq<char>>) -> bool {
    &&& order::ascending(list)
    &&& forall|k: Seq<char>| #![auto] list.contains(k) <==> m.contains_key(k)
}

/// The names of `m` in ascending order.
pub open spec fn sorted_names(m: Map<Seq<char>, Seq<char>>) -> Seq<Seq<char>> {
    choose|list: Seq<Seq<char>>| lists_names(m, list)
}

/// There is only one way to list the names in order.
pub proof fn lemma_sorted_names(m: Map<Seq<char>, Seq<char>>, list: Seq<Seq<char>>)
    requires
        lists_names(m, list),
    ensures
        sorted_names(m) == list,
{
    order::lemma_ascending_unique(sorted_names(m), list);
}

/// The value under `key`, if there is one.
pub open spec fn lookup(m: Map<Seq<char>, Seq<char>>, key: Seq<char>) -> Option<Seq<char>> {
    if m.contains_key(key) {
        Some(m[key])
    } else {
        None
    }
}

/// In a strictly ascending list every text stands once.
proof fn lemma_index_of(list: Seq<Seq<char>>, i: int)
    requires
        order::ascending(list),
        0 <= i < list.len(),
    ensures
        list.contains(list[i]),
        list.index_of(list[i]) == i,
{
    let j = list.index_of(list[i]);
    assert(list.contains(list[i]));
    assert(0 <= j < list.len() && list[j] == list[i]);
    order::lemma_irreflexive(list[i]);
    if j < i {
        assert(order::precedes(list[j], list[i]));
    } else if i < j {
        assert(order::precedes(list[i], list[j]));
    }
}

impl FieldMap {
    #[verifier::type_invariant]
    closed spec fn in_order(self) -> bool {
        order::ascending(names(self.entries@))
    }

    /// An empty map.
    pub fn new() -> (m: FieldMap)
        ensures
            m@ == Map::<Seq<char>, Seq<char>>::empty(),
    {
        let m = FieldMap { entries: Vec::new() };
        assert(m@ =~= Map::<Seq<char>, Seq<char>>::empty());
        m
    }

    /// The index of the first entry whose name is not before `key`.
    fn seek(&self, key: &str) -> (i: usize)
        ensures
            i <= self.entries@.len(),
            forall|k: int| 0 <= k < i ==> order::precedes(#[trigger] names(self.entries@)[k], key@),
            i < self.entries@.len() ==> !order::precedes(names(self.entries@)[i as int], key@),
    {
        let mut i: usize = 0;
        while i < self.entries.len() && relate(self.entries[i].0.as_str(), key) == Relation::Before
            invariant
                i <= self.entries@.len(),
                forall|k: int| 0 <= k < i ==> order::precedes(#[trigger] names(self.entries@)[k], key@),
            decreases self.entries@.len() - i,
        {
            i = i + 1;
        }
        i
    }

    /// The value under `key`.
    pub fn get(&self, key: &str) -> (r: Option<&String>)
        ensures
            match r {
                Some(v) => lookup(self@, key@) == Some(v@),
                None => lookup(self@, key@) is None,
            },
    {
        proof {
            use_type_invariant(self);
        }
        let i: usize = self.seek(key);
        let ghost list = names(self.entries@);
        if i < self.entries.len() && relate(self.entries[i].0.as_str(), key) == Relation::Same {
            proof {
                lemma_index_of(list, i as int);
            }
            Some(&self.entries[i].1)
        } else {
            proof {
                if list.contains(key@) {
                    let k = choose|k: int| 0 <= k < list.len() && list[k] == key@;
                    order::lemma_irreflexive(key@);
                    if k > i {
                        assert(order::precedes(list[i as int], list[k]));
                    }
                }
            }
            None
        }
    }

    /// Puts `value` under `key`, in place of what stood there.
    pub fn insert(&mut self, key: String, value: String)
        ensures
            final(self)@ == old(self)@.insert(key@, value@),
    {
        proof {
            use_type_invariant(&*self);
        }
        let i: usize = self.seek(key.as_str());
        let mut entries: Vec<(String, String)> = Vec::new();
        core::mem::swap(&mut entries, &mut self.entries);
        let ghost before = entries@;
        let ghost list = names(before);
        let ghost k = key@;
        let ghost v = value@;
        if i < entries.len() && relate(entries[i].0.as_str(), key.as_str()) == Relation::Same {
            entries.set(i, (key, value));
            proof {
                assert(names(entries@) == list);
                lemma_index_of(list, i as int);
                assert forall|x: Seq<char>| #[trigger] list.contains(x) && x != k implies
                    list.index_of(x) != i by {
                    assert(list[list.index_of(x)] == x);
                }
            }
        } else {
            entries.insert(i, (key, value));
            proof {
                lemma_inserted(list, i as int, k);
                assert(names(entries@) == list.insert(i as int, k));
                let new_list = names(entries@);
                lemma_index_of(new_list, i as int);
                assert forall|x: Seq<char>| #[trigger] list.contains(x) implies {
                    &&& x != k
                    &&& new_list.contains(x)
                    &&& entries@[new_list.index_of(x)] == before[list.index_of(x)]
                } by {
                    let p = list.index_of(x);
                    assert(list[p] == x);
                    order::lemma_irreflexive(x);
                    if p < i {
                        lemma_index_of(new_list, p);
                    } else {
                        lemma_index_of(new_list, p + 1);
                        assert(new_list[p + 1] == x);
                        if p > i {
                            assert(order::precedes(list[i as int], list[p]));
                        }
                    }
                }
                assert forall|x: Seq<char>| #[trigger] new_list.contains(x) && x != k implies
                    list.contains(x) by {
                    let p = new_list.index_of(x);
                    assert(new_list[p] == x);
                    if p < i {
                        assert(list[p] == x);
                    } else {
                        assert(list[p - 1] == x);
                    }
                }
            }
        }
        self.entries = entries;
        assert(self@ =~= old(self)@.insert(k, v));
    }

    /// The names, in ascending order.
    pub fn keys(&self) -> (r: Vec<String>)
        ensures
            text::texts(r@) == sorted_names(self@),
            lists_names(self@, text::texts(r@)),
    {
        proof {
            use_type_invariant(self);
        }
        let mut r: Vec<String> = Vec::new();
        let mut i: usize = 0;
        while i < self.entries.len()
            invariant
                i <= self.entries@.len(),
                text::texts(r@) == names(self.entries@).take(i as int),
            decreases self.entries@.len() - i,
        {
            broadcast use text::lemma_texts_push;

            let name: String = self.entries[i].0.clone();
            r.push(name);
            i = i + 1;
        }
        proof {
            assert(text::texts(r@) == names(self.entries@));
            lemma_sorted_names(self@, text::texts(r@));
        }
        r
    }
}

impl Clone for FieldMap {
    fn clone(&self) -> (r: FieldMap)
        ensures
            r@ == self@,
    {
        proof {
            use_type_invariant(self);
        }
        let mut entries: Vec<(String, String)> = Vec::new();
        let mut i: usize = 0;
        while i < self.entries.len()
            invariant
                i <= self.entries@.len(),
                entries@ == self.entries@.take(i as int),
            decreases self.entries@.len() - i,
        {
            let name: String = self.entries[i].0.clone();
            let value: String = self.entries[i].1.clone();
            entries.push((name, value));
            i = i + 1;
        }
        assert(entries@ == self.entries@);
        FieldMap { entries }
    }
}

/// A new name put where it belongs keeps the list ascending.
pub proof fn lemma_inserted(list: Seq<Seq<char>>, i: int, key: Seq<char>)
    requires
        order::ascending(list),
        0 <= i <= list.len(),
        forall|k: int| 0 <= k < i ==> order::precedes(#[trigger] list[k], key),
        i < list.len() ==> order::precedes(key, list[i]),
    ensures
        order::ascending(list.insert(i, key)),
{
    let new_list = list.insert(i, key);
    assert forall|a: int, b: int| 0 <= a < b < new_list.len() implies order::precedes(
        #[trigger] new_list[a],
        #[trigger] new_list[b],
    ) by {
        if b < i {
            assert(order::precedes(list[a], list[b]));
        } else if b == i {
            assert(order::precedes(list[a], key));
        } else if a < i {
            assert(order::precedes(list[a], list[b - 1]));
        } else if a == i {
            if b - 1 > i {
                assert(order::precedes(list[i], list[b - 1]));
                order::lemma_transitive(key, list[i], list[b - 1]);
            }
        } else {
            assert(order::precedes(list[a - 1], list[b - 1]));
        }
    }
}

/// Where a new name belongs in an ascending list.
proof fn lemma_place(list: Seq<Seq<char>>, key: Seq<char>) -> (i: int)
    requires
        order::ascending(list),
        !list.contains(key),
    ensures
        0 <= i <= list.len(),
        forall|k: int| 0 <= k < i ==> order::precedes(#[trigger] list[k], key),
        i < list.len() ==> order::precedes(key, list[i]),
    decreases list.len(),
{
    if list.len() == 0 {
        0
    } else {
        let front = list.drop_last();
        assert forall|k: int| 0 <= k < front.len() implies front[k] == #[trigger] list[k] by {}
        assert(!front.contains(key)) by {
            if front.contains(key) {
                let k = choose|k: int| 0 <= k < front.len() && front[k] == key;
                assert(list[k] == key);
            }
        }
        let i = lemma_place(front, key);
        assert forall|k: int| 0 <= k < i implies order::precedes(#[trigger] list[k], key) by {
            assert(list[k] == front[k]);
        }
        if i < front.len() {
            i
        } else {
            let last = list.last();
            assert(list[list.len() - 1] == last);
            assert(last != key) by {
                if last == key {
                    assert(list.contains(key));
                }
            }
            order::lemma_total(last, key);
            if order::precedes(last, key) {
                list.len() as int
            } else {
                i
            }
        }
    }
}

/// The names of a field more can be listed too.
pub proof fn lemma_names_with(
    m: Map<Seq<char>, Seq<char>>,
    list: Seq<Seq<char>>,
    key: Seq<char>,
    value: Seq<char>,
) -> (longer: Seq<Seq<char>>)
    requires
        lists_names(m, list),
    ensures
        lists_names(m.insert(key, value), longer),
{
    if list.contains(key) {
        assert(m.contains_key(key));
        assert forall|k: Seq<char>| #![auto] list.contains(k) <==> m.insert(key, value).contains_key(
            k,
        ) by {}
        list
    } else {
        let i = lemma_place(list, key);
        lemma_inserted(list, i, key);
        let longer = list.insert(i, key);
        assert forall|k: Seq<char>| #![auto] longer.contains(k) <==> m.insert(
            key,
            value,
        ).contains_key(k) by {
            if longer.contains(k) {
                let j = choose|j: int| 0 <= j < longer.len() && longer[j] == k;
                if j < i {
                    assert(list[j] == k);
                } else if j > i {
                    assert(list[j - 1] == k);
                }
            }
            if list.contains(k) {
                let j = choose|j: int| 0 <= j < list.len() && list[j] == k;
                if j < i {
                    assert(longer[j] == k);
                } else {
                    assert(longer[j + 1] == k);
                }
            }
            if k == key {
                assert(longer[i] == k);
            }
        }
        longer
    }
}

} // verus!
