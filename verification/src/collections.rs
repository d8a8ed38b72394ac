//! Maps keyed by strings that keep the order in which keys came, and the
//! trie of directories.

use crate::text::{chars_of, is_prefix, string_of};
use crate::util::{normalize_chars, normalized};
use vstd::prelude::*;

verus! {

/// `indexmap::IndexMap`, a hash table that keeps its keys in the order in
/// which they came.
#[verifier::external_type_specification]
#[verifier::external_body]
#[verifier::reject_recursive_types(K)]
#[verifier::reject_recursive_types(V)]
#[verifier::reject_recursive_types(S)]
pub struct ExIndexMap<K, V, S>(indexmap::IndexMap<K, V, S>);

/// `rustc_hash::FxBuildHasher`, the hasher of the index.
#[verifier::external_type_specification]
#[verifier::external_body]
pub struct ExFxBuildHasher(rustc_hash::FxBuildHasher);

/// `radix_trie::Trie`, a trie that finds the longest key that a text starts
/// with.
#[verifier::external_type_specification]
#[verifier::external_body]
#[verifier::reject_recursive_types(K)]
#[verifier::reject_recursive_types(V)]
pub struct ExRadixTrie<K, V>(radix_trie::Trie<K, V>);

/// The keys of an index with the number kept for each, in the order in
/// which the keys came.
pub uninterp spec fn index_entries(
    m: indexmap::IndexMap<String, usize, rustc_hash::FxBuildHasher>,
) -> Seq<(Seq<char>, usize)>;

/// `IndexMap::with_hasher`: a new index holds nothing.
#[verifier::external_body]
fn index_new() -> (m: indexmap::IndexMap<String, usize, rustc_hash::FxBuildHasher>)
    ensures
        index_entries(m) == Seq::<(Seq<char>, usize)>::empty(),
{
    indexmap::IndexMap::with_hasher(rustc_hash::FxBuildHasher)
}

/// `IndexMap::insert` of a key that the index does not hold yet: the pair
/// comes last in order.
#[verifier::external_body]
fn index_insert(
    m: &mut indexmap::IndexMap<String, usize, rustc_hash::FxBuildHasher>,
    key: String,
    value: usize,
)
    requires
        forall|i: int|
            0 <= i < index_entries(*old(m)).len() ==> (#[trigger] index_entries(*old(m))[i]).0
                != key@,
    ensures
        index_entries(*final(m)) == index_entries(*old(m)).push((key@, value)),
{
    m.insert(key, value);
}

/// `IndexMap::get`: the number kept for a key, if the index holds the key.
#[verifier::external_body]
fn index_get(m: &indexmap::IndexMap<String, usize, rustc_hash::FxBuildHasher>, key: &str) -> (r:
    Option<usize>)
    ensures
        match r {
            Some(v) => exists|i: int|
                0 <= i < index_entries(*m).len() && #[trigger] index_entries(*m)[i] == (key@, v),
            None => forall|i: int|
                0 <= i < index_entries(*m).len() ==> (#[trigger] index_entries(*m)[i]).0 != key@,
        },
{
    m.get(key).copied()
}

/// `IndexMap::get_index`: the key at a position, if the position is taken.
#[verifier::external_body]
fn index_key(m: &indexmap::IndexMap<String, usize, rustc_hash::FxBuildHasher>, i: usize) -> (r:
    Option<&String>)
    ensures
        match r {
            Some(k) => i < index_entries(*m).len() && k@ == index_entries(*m)[i as int].0,
            None => i >= index_entries(*m).len(),
        },
{
    m.get_index(i).map(|e| e.0)
}

/// `IndexMap::clone`: a copy of an index holds what the index holds.
#[verifier::external_body]
fn index_clone(m: &indexmap::IndexMap<String, usize, rustc_hash::FxBuildHasher>) -> (r:
    indexmap::IndexMap<String, usize, rustc_hash::FxBuildHasher>)
    ensures
        index_entries(r) == index_entries(*m),
{
    m.clone()
}

/// The views of a sequence of strings.
pub open spec fn text_views(v: Seq<String>) -> Seq<Seq<char>> {
    Seq::new(v.len(), |i: int| v[i]@)
}

/// A map from strings to values that keeps the order in which its keys
/// came. The values stand in a vector; an index finds the position of a key.
#[derive(Debug)]
pub struct OrderedMap<V> {
    index: indexmap::IndexMap<String, usize, rustc_hash::FxBuildHasher>,
    values: Vec<V>,
}

impl<V: Clone> Clone for OrderedMap<V> {
    /// A copy with the same keys in the same order, and a copy of each
    /// value.
    fn clone(&self) -> (r: Self)
        ensures
            r.keys() == self.keys(),
            r.values().len() == self.values().len(),
            self.wf() ==> r.wf(),
    {
        OrderedMap { index: index_clone(&self.index), values: self.values.clone() }
    }
}

impl<V> View for OrderedMap<V> {
    type V = Map<Seq<char>, V>;

    /// The map from each key to its value.
    open spec fn view(&self) -> Map<Seq<char>, V> {
        Map::new(
            |k: Seq<char>| self.keys().contains(k),
            |k: Seq<char>| self.values()[self.keys().index_of(k)],
        )
    }
}

impl<V> OrderedMap<V> {
    /// The keys, in the order in which they came.
    pub closed spec fn keys(&self) -> Seq<Seq<char>> {
        Seq::new(index_entries(self.index).len(), |i: int| index_entries(self.index)[i].0)
    }

    /// The values, each at the position of its key.
    pub closed spec fn values(&self) -> Seq<V> {
        self.values@
    }

    /// The index holds each key once, with the position of its value.
    pub closed spec fn wf(&self) -> bool {
        let e = index_entries(self.index);
        &&& e.len() == self.values.len()
        &&& forall|i: int| 0 <= i < e.len() ==> (#[trigger] e[i]).1 == i
        &&& forall|i: int, j: int|
            0 <= i < j < e.len() ==> (#[trigger] e[i]).0 != (#[trigger] e[j]).0
    }

    /// Whether the map has a value for `k`.
    pub open spec fn contains_key(&self, k: Seq<char>) -> bool {
        self.keys().contains(k)
    }

    /// The value for `k`, if the map has one.
    pub open spec fn lookup(&self, k: Seq<char>) -> Option<V> {
        if self.keys().contains(k) {
            Some(self.values()[self.keys().index_of(k)])
        } else {
            None
        }
    }

    /// A well-formed map has as many values as keys, and no key twice.
    pub proof fn lemma_wf(&self)
        requires
            self.wf(),
        ensures
            self.keys().len() == self.values().len(),
            self.keys().no_duplicates(),
    {
        let e = index_entries(self.index);
        assert forall|i: int, j: int|
            0 <= i < self.keys().len() && 0 <= j < self.keys().len() && i != j implies self.keys()[i]
            != self.keys()[j] by {
            if i < j {
                assert(e[i].0 != e[j].0);
            } else {
                assert(e[j].0 != e[i].0);
            }
        }
    }

    /// In a well-formed map the value for the key at position `i` is the
    /// value at position `i`.
    pub proof fn lemma_lookup_at(&self, i: int)
        requires
            self.wf(),
            0 <= i < self.keys().len(),
        ensures
            self.lookup(self.keys()[i]) == Some(self.values()[i]),
    {
        self.lemma_wf();
        let k = self.keys()[i];
        assert(self.keys().contains(k));
        let j = self.keys().index_of(k);
        assert(self.keys()[j] == k);
    }

    /// A map without keys.
    pub fn new() -> (m: Self)
        ensures
            m.wf(),
            m.keys() == Seq::<Seq<char>>::empty(),
            m.values() == Seq::<V>::empty(),
            m@ == Map::<Seq<char>, V>::empty(),
    {
        let m = OrderedMap { index: index_new(), values: Vec::new() };
        assert(m.keys() =~= Seq::<Seq<char>>::empty());
        assert(m@ =~= Map::<Seq<char>, V>::empty());
        m
    }

    /// The number of keys.
    pub fn len(&self) -> (n: usize)
        requires
            self.wf(),
        ensures
            n == self.keys().len(),
    {
        self.values.len()
    }

    /// The position of `key`, if the map holds it.
    pub fn find(&self, key: &str) -> (r: Option<usize>)
        requires
            self.wf(),
        ensures
            match r {
                Some(i) => i < self.keys().len() && self.keys()[i as int] == key@,
                None => !self.keys().contains(key@),
            },
    {
        let r = index_get(&self.index, key);
        proof {
            let e = index_entries(self.index);
            match r {
                Some(v) => {
                    let i = choose|i: int| 0 <= i < e.len() && #[trigger] e[i] == (key@, v);
                    assert(e[i].1 == i);
                },
                None => {
                    assert forall|i: int| 0 <= i < self.keys().len() implies self.keys()[i]
                        != key@ by {
                        assert(e[i].0 != key@);
                    }
                },
            }
        }
        r
    }

    /// The value for `key`, if the map holds one.
    pub fn get(&self, key: &str) -> (r: Option<&V>)
        requires
            self.wf(),
        ensures
            match r {
                Some(v) => self.lookup(key@) == Some(*v),
                None => self.lookup(key@) is None,
            },
    {
        match self.find(key) {
            Some(i) => {
                proof {
                    self.lemma_lookup_at(i as int);
                }
                Some(&self.values[i])
            },
            None => None,
        }
    }

    /// Gives `key` the value `value`. A key that the map held keeps its
    /// place; a new key comes last.
    pub fn insert(&mut self, key: String, value: V)
        requires
            old(self).wf(),
        ensures
            final(self).wf(),
            old(self).contains_key(key@) ==> final(self).keys() == old(self).keys()
                && final(self).values() == old(self).values().update(
                old(self).keys().index_of(key@),
                value,
            ),
            !old(self).contains_key(key@) ==> final(self).keys() == old(self).keys().push(key@)
                && final(self).values() == old(self).values().push(value),
            forall|k: Seq<char>|
                #[trigger] final(self).lookup(k) == if k == key@ {
                    Some(value)
                } else {
                    old(self).lookup(k)
                },
            final(self)@ == old(self)@.insert(key@, value),
    {
        let ghost before = *self;
        proof {
            before.lemma_wf();
        }
        self.put(key, value);
        proof {
            assert forall|k: Seq<char>| #[trigger] self.keys().contains(k) == (k == key@
                || before.keys().contains(k)) by {
                assert(self.lookup(k) == if k == key@ {
                    Some(value)
                } else {
                    before.lookup(k)
                });
            }
            assert forall|k: Seq<char>| self@.contains_key(k) implies #[trigger] self@[k]
                == before@.insert(key@, value)[k] by {
                assert(self.lookup(k) == if k == key@ {
                    Some(value)
                } else {
                    before.lookup(k)
                });
            }
            assert(self@ =~= before@.insert(key@, value));
        }
    }

    fn put(&mut self, key: String, value: V)
        requires
            old(self).wf(),
        ensures
            final(self).wf(),
            old(self).contains_key(key@) ==> final(self).keys() == old(self).keys()
                && final(self).values() == old(self).values().update(
                old(self).keys().index_of(key@),
                value,
            ),
            !old(self).contains_key(key@) ==> final(self).keys() == old(self).keys().push(key@)
                && final(self).values() == old(self).values().push(value),
            forall|k: Seq<char>|
                #[trigger] final(self).lookup(k) == if k == key@ {
                    Some(value)
                } else {
                    old(self).lookup(k)
                },
    {
        let ghost before = *self;
        proof {
            before.lemma_wf();
        }
        match self.find(key.as_str()) {
            Some(i) => {
                self.values.set(i, value);
                proof {
                    let j = before.keys().index_of(key@);
                    assert(before.keys()[j] == key@);
                    assert(j == i);
                    assert(self.keys() == before.keys());
                    self.lemma_wf();
                    assert forall|k: Seq<char>|
                        #[trigger] self.lookup(k) == if k == key@ {
                            Some(value)
                        } else {
                            before.lookup(k)
                        } by {
                        if self.keys().contains(k) {
                            let x = self.keys().index_of(k);
                            assert(self.keys()[x] == k);
                        }
                    }
                }
            },
            None => {
                let n = self.values.len();
                proof {
                    let e = index_entries(self.index);
                    assert forall|i: int| 0 <= i < e.len() implies (#[trigger] e[i]).0 != key@ by {
                        assert(before.keys()[i] == e[i].0);
                    }
                }
                index_insert(&mut self.index, key, n);
                self.values.push(value);
                proof {
                    let e0 = index_entries(before.index);
                    let e = index_entries(self.index);
                    assert(self.keys() =~= before.keys().push(key@));
                    assert(self.wf()) by {
                        assert forall|i: int, j: int| 0 <= i < j < e.len() implies (#[trigger] e[i]).0
                            != (#[trigger] e[j]).0 by {
                            if j < e0.len() {
                                assert(e0[i].0 != e0[j].0);
                            } else {
                                assert(before.keys()[i] == e0[i].0);
                            }
                        }
                    }
                    self.lemma_wf();
                    assert forall|k: Seq<char>|
                        #[trigger] self.lookup(k) == if k == key@ {
                            Some(value)
                        } else {
                            before.lookup(k)
                        } by {
                        if self.keys().contains(k) {
                            let x = self.keys().index_of(k);
                            assert(self.keys()[x] == k);
                            if k != key@ {
                                assert(before.keys()[x] == k);
                                let y = before.keys().index_of(k);
                                assert(before.keys()[y] == k);
                                assert(self.keys()[y] == k);
                            } else {
                                assert(self.keys()[n as int] == k);
                            }
                        } else if before.keys().contains(k) {
                            let y = before.keys().index_of(k);
                            assert(before.keys()[y] == k);
                            assert(self.keys()[y] == k);
                        } else {
                            assert(self.keys()[n as int] == key@);
                        }
                    }
                }
            },
        }
    }

    /// The keys, in the order in which they came.
    pub fn key_list(&self) -> (r: Vec<String>)
        requires
            self.wf(),
        ensures
            text_views(r@) == self.keys(),
    {
        let mut r: Vec<String> = Vec::new();
        let mut i: usize = 0;
        let n = self.len();
        while i < n
            invariant
                self.wf(),
                n == self.keys().len(),
                i <= n,
                text_views(r@) == self.keys().take(i as int),
            decreases n - i,
        {
            let ghost before = text_views(r@);
            r.push(self.key_at(i).clone());
            assert(text_views(r@) =~= before.push(self.keys()[i as int]));
            assert(self.keys().take(i + 1) =~= self.keys().take(i as int).push(
                self.keys()[i as int],
            ));
            i = i + 1;
        }
        assert(self.keys().take(n as int) =~= self.keys());
        r
    }

    /// The key at position `i`.
    pub fn key_at(&self, i: usize) -> (k: &String)
        requires
            self.wf(),
            i < self.keys().len(),
        ensures
            k@ == self.keys()[i as int],
    {
        match index_key(&self.index, i) {
            Some(k) => k,
            None => vstd::pervasive::unreached(),
        }
    }

    /// The value at position `i`.
    pub fn value_at(&self, i: usize) -> (v: &V)
        requires
            self.wf(),
            i < self.keys().len(),
        ensures
            *v == self.values()[i as int],
    {
        &self.values[i]
    }

    /// The value at position `i`, to be changed in place.
    pub fn value_at_mut(&mut self, i: usize) -> (v: &mut V)
        requires
            old(self).wf(),
            i < old(self).keys().len(),
        ensures
            *v == old(self).values()[i as int],
            final(self).wf(),
            final(self).keys() == old(self).keys(),
            final(self).values() == old(self).values().update(i as int, *final(v)),
    {
        &mut self.values[i]
    }
}

/// The map that pairs of a key and a value make when they are entered in
/// order: of two pairs with one key the later one stays.
pub open spec fn map_of_pairs<V>(items: Seq<(Seq<char>, V)>) -> Map<Seq<char>, V>
    decreases items.len(),
{
    if items.len() == 0 {
        Map::empty()
    } else {
        map_of_pairs(items.drop_last()).insert(items.last().0, items.last().1)
    }
}

/// Pairs with the views of their keys.
pub open spec fn pair_views<V>(items: Seq<(String, V)>) -> Seq<(Seq<char>, V)> {
    Seq::new(items.len(), |i: int| (items[i].0@, items[i].1))
}

/// Every value of the map of pairs is the value of one of the pairs.
pub proof fn lemma_map_of_pairs_values<V>(items: Seq<(Seq<char>, V)>, k: Seq<char>)
    requires
        map_of_pairs(items).contains_key(k),
    ensures
        exists|i: int| 0 <= i < items.len() && (#[trigger] items[i]).1 == map_of_pairs(items)[k],
    decreases items.len(),
{
    if items.len() > 0 {
        if items.last().0 == k {
            assert(items[items.len() - 1].1 == map_of_pairs(items)[k]);
        } else {
            lemma_map_of_pairs_values(items.drop_last(), k);
            let i = choose|i: int|
                0 <= i < items.drop_last().len() && (#[trigger] items.drop_last()[i]).1
                    == map_of_pairs(items.drop_last())[k];
            assert(items[i] == items.drop_last()[i]);
        }
    }
}

/// The keys of pairs in the order in which each is first met.
pub open spec fn keys_of_pairs<V>(items: Seq<(Seq<char>, V)>) -> Seq<Seq<char>>
    decreases items.len(),
{
    if items.len() == 0 {
        Seq::empty()
    } else {
        let before = keys_of_pairs(items.drop_last());
        if before.contains(items.last().0) {
            before
        } else {
            before.push(items.last().0)
        }
    }
}

impl<V> OrderedMap<V> {
    /// The map that the pairs make when they are entered in order.
    pub fn from_pairs(items: Vec<(String, V)>) -> (m: Self)
        ensures
            m.wf(),
            m@ == map_of_pairs(pair_views(items@)),
            m.keys() == keys_of_pairs(pair_views(items@)),
    {
        let mut m: OrderedMap<V> = OrderedMap::new();
        let ghost all = pair_views(items@);
        assert(all.take(0) =~= Seq::<(Seq<char>, V)>::empty());
        for item in it: items
            invariant
                pair_views(it.seq()) == all,
                m.wf(),
                m@ == map_of_pairs(all.take(it.index() as int)),
                m.keys() == keys_of_pairs(all.take(it.index() as int)),
        {
            let ghost k = it.index() as int;
            assert(all.take(k + 1).drop_last() =~= all.take(k));
            assert(all.take(k + 1).last() == all[k]);
            m.insert(item.0, item.1);
        }
        assert(all.take(all.len() as int) =~= all);
        m
    }

    /// Every value of a well-formed map is the value of one of its keys.
    pub proof fn lemma_values_in_map(&self, j: int)
        requires
            self.wf(),
            0 <= j < self.values().len(),
        ensures
            self.keys().len() == self.values().len(),
            self@.contains_key(self.keys()[j]),
            self@[self.keys()[j]] == self.values()[j],
    {
        self.lemma_wf();
        self.lemma_lookup_at(j);
    }
}

/// The keys of a trie, each with the number kept for it.
pub uninterp spec fn trie_entries(t: radix_trie::Trie<String, usize>) -> Map<Seq<char>, usize>;

/// `Trie::new`: a new trie holds nothing.
#[verifier::external_body]
fn trie_new() -> (r: radix_trie::Trie<String, usize>)
    ensures
        (trie_entries(r) == Map::<Seq<char>, usize>::empty()),
{
    radix_trie::Trie::new()
}

/// `Trie::insert`: the key has the new number, whether or not the trie
/// held the key before.
#[verifier::external_body]
fn trie_insert(t: &mut radix_trie::Trie<String, usize>, key: String, value: usize)
    ensures
        trie_entries(*final(t)) == trie_entries(*old(t)).insert(key@, value),
{
    t.insert(key, value);
}

/// `Trie::get_ancestor_value`: the number kept for the longest key of the
/// trie that `key` starts with, if there is such a key. The trie compares
/// the bytes of keys; of two strings one starts with the other by bytes
/// exactly when it does by characters.
#[verifier::external_body]
fn trie_ancestor(t: &radix_trie::Trie<String, usize>, key: &str) -> (r: Option<usize>)
    ensures
        match r {
            Some(v) => exists|k: Seq<char>|
                {
                    &&& #[trigger] trie_entries(*t).contains_key(k)
                    &&& is_prefix(k, key@)
                    &&& trie_entries(*t)[k] == v
                    &&& forall|other: Seq<char>|
                        #[trigger] trie_entries(*t).contains_key(other) && is_prefix(other, key@)
                            ==> other.len() <= k.len()
                },
            None => forall|k: Seq<char>|
                #[trigger] trie_entries(*t).contains_key(k) ==> !is_prefix(k, key@),
        },
{
    t.get_ancestor_value(key).copied()
}

/// `Trie::clone`: a copy of a trie holds what the trie holds.
#[verifier::external_body]
fn trie_clone(t: &radix_trie::Trie<String, usize>) -> (r: radix_trie::Trie<String, usize>)
    ensures
        trie_entries(r) == trie_entries(*t),
{
    t.clone()
}

/// The key under which a directory stands in the trie: its normal form,
/// with a slash at the end.
pub open spec fn trie_key(p: Seq<char>) -> Seq<char> {
    let n = normalized(p);
    if n.len() > 0 && n.last() == '/' {
        n
    } else {
        n.push('/')
    }
}

/// The longest of the first `len` or fewer characters of `q` that is a key
/// in `dom`.
pub open spec fn ancestor_key(dom: Set<Seq<char>>, q: Seq<char>, len: nat) -> Option<Seq<char>>
    decreases len,
{
    if dom.contains(q.take(len as int)) {
        Some(q.take(len as int))
    } else if len == 0 {
        None
    } else {
        ancestor_key(dom, q, (len - 1) as nat)
    }
}

/// The value of the longest key of `m` that `q` starts with.
pub open spec fn ancestor_value<T>(m: Map<Seq<char>, T>, q: Seq<char>) -> Option<T> {
    match ancestor_key(m.dom(), q, q.len()) {
        Some(k) => Some(m[k]),
        None => None,
    }
}

/// What `ancestor_key` finds is the longest key among the initial parts of
/// `q` of length `len` or less.
pub proof fn lemma_ancestor_key(dom: Set<Seq<char>>, q: Seq<char>, len: nat)
    requires
        len <= q.len(),
    ensures
        match ancestor_key(dom, q, len) {
            Some(k) => dom.contains(k) && k.len() <= len && k == q.take(k.len() as int) && forall|
                l: int,
            |
                k.len() < l <= len ==> !dom.contains(#[trigger] q.take(l)),
            None => forall|l: int| 0 <= l <= len ==> !dom.contains(#[trigger] q.take(l)),
        },
    decreases len,
{
    if !dom.contains(q.take(len as int)) && len > 0 {
        lemma_ancestor_key(dom, q, (len - 1) as nat);
    }
}

/// Values found by the directories under which they stand: a lookup gives
/// the value of the nearest directory at or above a path.
#[derive(Debug)]
pub struct PathTrie<T> {
    inner: radix_trie::Trie<String, usize>,
    values: Vec<T>,
}

impl<T: Clone> Clone for PathTrie<T> {
    /// A copy with the same directories, and a copy of the value of each.
    fn clone(&self) -> (r: Self)
        ensures
            r@.dom() == self@.dom(),
            self.wf() ==> r.wf(),
    {
        let r = PathTrie { inner: trie_clone(&self.inner), values: self.values.clone() };
        assert(r@.dom() =~= self@.dom());
        r
    }
}

impl<T> View for PathTrie<T> {
    type V = Map<Seq<char>, T>;

    closed spec fn view(&self) -> Map<Seq<char>, T> {
        Map::new(
            |k: Seq<char>| trie_entries(self.inner).contains_key(k),
            |k: Seq<char>| self.values@[trie_entries(self.inner)[k] as int],
        )
    }
}

impl<T> PathTrie<T> {
    /// Every number in the trie is the position of a value.
    pub closed spec fn wf(&self) -> bool {
        forall|k: Seq<char>| #[trigger]
            trie_entries(self.inner).contains_key(k) ==> trie_entries(self.inner)[k]
                < self.values.len()
    }

    /// A trie without keys.
    pub fn new() -> (t: Self)
        ensures
            t.wf(),
            t@ == Map::<Seq<char>, T>::empty(),
    {
        let t = PathTrie { inner: trie_new(), values: Vec::new() };
        assert(t@ =~= Map::<Seq<char>, T>::empty());
        t
    }

    fn key(path: &str) -> (k: String)
        ensures
            k@ == trie_key(path@),
    {
        let chars = chars_of(path);
        let mut n = normalize_chars(&chars);
        if n.len() == 0 || n[n.len() - 1] != '/' {
            n.push('/');
        }
        string_of(&n)
    }

    /// Puts `value` at the directory `key`, in place of what stood there.
    pub fn insert(&mut self, key: &str, value: T)
        requires
            old(self).wf(),
        ensures
            final(self).wf(),
            final(self)@ == old(self)@.insert(trie_key(key@), value),
    {
        let k = Self::key(key);
        let ghost before = *self;
        let n = self.values.len();
        self.values.push(value);
        trie_insert(&mut self.inner, k, n);
        proof {
            assert forall|x: Seq<char>| #[trigger]
                trie_entries(self.inner).contains_key(x) implies trie_entries(self.inner)[x]
                < self.values.len() by {
                if x != k@ {
                    assert(trie_entries(before.inner).contains_key(x));
                }
            }
            assert(self@ =~= before@.insert(trie_key(key@), value)) by {
                assert forall|x: Seq<char>| #[trigger] self@.contains_key(x) && x != k@ implies self@[x]
                    == before@[x] by {
                    assert(trie_entries(before.inner).contains_key(x));
                }
            }
        }
    }

    /// The value of the nearest directory at or above `key`.
    pub fn get_ancestor_value(&self, key: &str) -> (r: Option<&T>)
        requires
            self.wf(),
        ensures
            match r {
                Some(v) => ancestor_value(self@, trie_key(key@)) == Some(*v),
                None => ancestor_value(self@, trie_key(key@)) is None,
            },
    {
        let k = Self::key(key);
        let found = trie_ancestor(&self.inner, k.as_str());
        proof {
            let q = trie_key(key@);
            let e = trie_entries(self.inner);
            lemma_ancestor_key(self@.dom(), q, q.len());
            assert forall|x: Seq<char>| self@.dom().contains(x) == e.contains_key(x) by {}
            match found {
                Some(v) => {
                    let w = choose|w: Seq<char>|
                        {
                            &&& #[trigger] e.contains_key(w)
                            &&& is_prefix(w, q)
                            &&& e[w] == v
                            &&& forall|other: Seq<char>|
                                #[trigger] e.contains_key(other) && is_prefix(other, q)
                                    ==> other.len() <= w.len()
                        };
                    assert(q.take(w.len() as int) =~= q.subrange(0, w.len() as int));
                    assert(self@.dom().contains(q.take(w.len() as int)));
                    let a = ancestor_key(self@.dom(), q, q.len())->Some_0;
                    assert(e.contains_key(a));
                    assert(is_prefix(a, q)) by {
                        assert(q.take(a.len() as int) =~= q.subrange(0, a.len() as int));
                    }
                    assert(a.len() == w.len());
                },
                None => {
                    if ancestor_key(self@.dom(), q, q.len()) is Some {
                        let a = ancestor_key(self@.dom(), q, q.len())->Some_0;
                        assert(e.contains_key(a));
                        assert(is_prefix(a, q)) by {
                            assert(q.take(a.len() as int) =~= q.subrange(0, a.len() as int));
                        }
                    }
                },
            }
        }
        match found {
            Some(i) => {
                proof {
                    let q = trie_key(key@);
                    let a = ancestor_key(self@.dom(), q, q.len())->Some_0;
                    assert(trie_entries(self.inner).contains_key(a));
                }
                Some(&self.values[i])
            },
            None => None,
        }
    }
}

} // verus!
