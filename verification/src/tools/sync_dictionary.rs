//! Dictionary generic over its backing associative container (`BTreeMap` by
//! default, or `HashMap`), with batch insertion.

use crate::tools::order::lawful_order;
use std::collections::hash_map::RandomState;
use std::collections::{BTreeMap, HashMap};
use std::hash::Hash;
use std::marker::PhantomData;
use vstd::prelude::*;
use vstd::std_specs::hash::{builds_valid_hashers, obeys_key_model};
use vstd::std_specs::iter::IteratorSpec;

verus! {

/// `m` after inserting the pairs of `s` in order (a later pair wins over an
/// earlier one with the same key).
pub open spec fn insert_all<K, T>(m: Map<K, T>, s: Seq<(K, T)>) -> Map<K, T>
    decreases s.len(),
{
    if s.len() == 0 {
        m
    } else {
        insert_all(m, s.drop_last()).insert(s.last().0, s.last().1)
    }
}

/// After a batch of insertions, a key maps to the value of its last pair
/// in the batch.
pub proof fn law_batch_insert_last_wins<K, T>(m: Map<K, T>, s: Seq<(K, T)>, j: int)
    requires
        0 <= j < s.len(),
        forall|l: int| j < l < s.len() ==> s[l].0 != s[j].0,
    ensures
        insert_all(m, s).contains_key(s[j].0),
        insert_all(m, s)[s[j].0] == s[j].1,
    decreases s.len(),
{
    if j < s.len() - 1 {
        law_batch_insert_last_wins(m, s.drop_last(), j);
    }
}

/// A batch of insertions leaves every key that none of its pairs names as
/// it was (present with the same value, or absent).
pub proof fn law_batch_insert_keeps_other_keys<K, T>(m: Map<K, T>, s: Seq<(K, T)>, key: K)
    requires
        forall|i: int| 0 <= i < s.len() ==> s[i].0 != key,
    ensures
        insert_all(m, s).contains_key(key) == m.contains_key(key),
        m.contains_key(key) ==> insert_all(m, s)[key] == m[key],
    decreases s.len(),
{
    if s.len() > 0 {
        let front = s.drop_last();
        assert forall|i: int| 0 <= i < front.len() implies front[i].0 != key by {
            assert(s[i].0 != key);
        }
        law_batch_insert_keeps_other_keys(m, front, key);
        assert(s.last().0 != key);
    }
}

/// `e` is a clone of the entry of `m` at key `k`.
pub open spec fn clone_of_entry<K: Clone, T: Clone>(m: Map<K, T>, k: K, e: (K, T)) -> bool {
    m.contains_key(k) && cloned(k, e.0) && cloned(m[k], e.1)
}

/// `s[i]` is a clone of the entry of `m` at `keys[i]`, and `keys` lists
/// every key of `m` once.
pub open spec fn cloned_entries_at<K: Clone, T: Clone>(
    s: Seq<(K, T)>,
    m: Map<K, T>,
    keys: Seq<K>,
) -> bool {
    &&& keys.len() == s.len()
    &&& keys.no_duplicates()
    &&& keys.to_set() == m.dom()
    &&& forall|i: int| 0 <= i < s.len() ==> #[trigger] clone_of_entry(m, keys[i], s[i])
}

/// `s` lists one clone of each entry of `m`.
pub open spec fn cloned_entries<K: Clone, T: Clone>(s: Seq<(K, T)>, m: Map<K, T>) -> bool {
    exists|keys: Seq<K>| #[trigger] cloned_entries_at(s, m, keys)
}

/// Takes the next item of an iterator that obeys its laws: the head of what
/// remains.
fn advance<I: Iterator>(it: &mut I) -> (r: Option<I::Item>)
    ensures
        (*old(it)).obeys_prophetic_iter_laws() && (*old(it)).remaining().len() > 0 ==> {
            &&& (*final(it)).remaining() == (*old(it)).remaining().drop_first()
            &&& r == Some((*old(it)).remaining()[0])
        },
{
    it.next()
}

/// Clones the entries of a `BTreeMap`, in key order.
pub fn btree_entries<K: Ord + Clone, T: Clone>(m: &BTreeMap<K, T>) -> (r: Vec<(K, T)>)
    ensures
        lawful_order::<K>() ==> cloned_entries(r@, m@),
{
    let n = m.len();
    let mut entries = m.iter();
    let ghost v = entries.remaining();
    let mut r: Vec<(K, T)> = Vec::new();
    let mut i: usize = 0;
    while i < n
        invariant
            i <= n,
            lawful_order::<K>() ==> {
                &&& v == vstd::std_specs::btree::spec_btree_map_iter(m).remaining()
                &&& v.no_duplicates()
                &&& v.len() == n
                &&& entries.remaining() == v.skip(i as int)
                &&& r@.len() == i
                &&& forall|j: int|
                    0 <= j < i ==> cloned(*v[j].0, (#[trigger] r@[j]).0) && cloned(
                        *v[j].1,
                        r@[j].1,
                    )
            },
        decreases n - i,
    {
        let ghost rest = entries.remaining();
        proof {
            if lawful_order::<K>() {
                assert(rest.drop_first() =~= v.skip(i + 1));
                assert(rest[0] == v[i as int]);
            }
        }
        match advance(&mut entries) {
            Some(kv) => {
                let (k, value) = kv;
                r.push((k.clone(), value.clone()));
            },
            None => {},
        }
        i = i + 1;
    }
    proof {
        if lawful_order::<K>() {
            lemma_cloned_entries(r@, v, m@);
        }
    }
    r
}

/// Clones, taken in order, of the pairs listed by an iteration over all of
/// `m` are cloned entries of `m`.
proof fn lemma_cloned_entries<K: Clone, T: Clone>(r: Seq<(K, T)>, v: Seq<(&K, &T)>, m: Map<K, T>)
    requires
        r.len() == v.len(),
        v.no_duplicates(),
        forall|j: int|
            0 <= j < v.len() ==> cloned(*v[j].0, (#[trigger] r[j]).0) && cloned(*v[j].1, r[j].1),
        forall|i: int|
            0 <= i < v.len() ==> m.contains_key(*(#[trigger] v[i]).0) && m[*v[i].0] == *v[i].1,
        forall|k: K| #[trigger] m.contains_key(k) ==> v.contains((&k, &m[k])),
    ensures
        cloned_entries(r, m),
{
    let keys = Seq::new(v.len(), |i: int| *v[i].0);
    assert forall|i: int| 0 <= i < r.len() implies #[trigger] clone_of_entry(m, keys[i], r[i]) by {
        assert(m.contains_key(*v[i].0) && m[*v[i].0] == *v[i].1);
    }
    assert forall|i: int, j: int| 0 <= i < keys.len() && 0 <= j < keys.len() && i != j implies keys[i]
        != keys[j] by {
        if keys[i] == keys[j] {
            assert(m[*v[i].0] == *v[i].1);
            assert(m[*v[j].0] == *v[j].1);
            assert(v[i] == v[j]);
        }
    }
    assert forall|k: K| keys.to_set().contains(k) <==> m.dom().contains(k) by {
        if m.dom().contains(k) {
            assert(v.contains((&k, &m[k])));
            let i = choose|i: int| 0 <= i < v.len() && v[i] == (&k, &m[k]);
            assert(keys[i] == k);
        }
        if keys.to_set().contains(k) {
            let i = choose|i: int| 0 <= i < keys.len() && keys[i] == k;
            assert(m.contains_key(*v[i].0));
        }
    }
    assert(keys.to_set() =~= m.dom());
    assert(cloned_entries_at(r, m, keys));
}


/// Clones the entries of a `HashMap`, in iteration order.
pub fn hash_entries<K: Eq + Hash + Clone, T: Clone>(m: &HashMap<K, T>) -> (r: Vec<(K, T)>)
    ensures
        obeys_key_model::<K>() ==> cloned_entries(r@, m@),
{
    let n = m.len();
    let mut entries = m.iter();
    let ghost v = entries.remaining();
    let mut r: Vec<(K, T)> = Vec::new();
    let mut i: usize = 0;
    while i < n
        invariant
            i <= n,
            obeys_key_model::<K>() ==> {
                &&& v == vstd::std_specs::hash::spec_hash_map_iter(m).remaining()
                &&& v.no_duplicates()
                &&& v.len() == n
                &&& entries.remaining() == v.skip(i as int)
                &&& r@.len() == i
                &&& forall|j: int|
                    0 <= j < i ==> cloned(*v[j].0, (#[trigger] r@[j]).0) && cloned(
                        *v[j].1,
                        r@[j].1,
                    )
            },
        decreases n - i,
    {
        let ghost rest = entries.remaining();
        proof {
            if obeys_key_model::<K>() {
                assert(rest.drop_first() =~= v.skip(i + 1));
                assert(rest[0] == v[i as int]);
            }
        }
        match advance(&mut entries) {
            Some(kv) => {
                let (k, value) = kv;
                r.push((k.clone(), value.clone()));
            },
            None => {},
        }
        i = i + 1;
    }
    proof {
        if obeys_key_model::<K>() {
            lemma_cloned_entries(r@, v, m@);
        }
    }
    r
}

/// Minimal associative-container abstraction so `SyncDictionary` can be
/// backed by `BTreeMap`, `HashMap`, or any other compatible container.
/// Its contracts hold when the container's key laws (`keys_lawful`) do.
pub trait DictionaryContainer<K, T>: Default {
    /// The entries of the container.
    spec fn entries(&self) -> Map<K, T>;

    /// The key type behaves as the container needs (e.g. a lawful `Ord` for
    /// a `BTreeMap`, a lawful `Hash` and `Eq` for a `HashMap`).
    spec fn keys_lawful() -> bool;

    /// Inserts a key-value pair, replacing the value of an existing key.
    fn insert(&mut self, key: K, value: T)
        ensures
            Self::keys_lawful() ==> final(self).entries() == old(self).entries().insert(key, value),
    ;

    /// Returns the value associated with the key, if any.
    fn get(&self, key: &K) -> (r: Option<&T>)
        ensures
            Self::keys_lawful() ==> r == (if self.entries().contains_key(*key) {
                Some(&self.entries()[*key])
            } else {
                None
            }),
    ;

    /// Removes the key and its value, if present.
    fn remove(&mut self, key: &K)
        ensures
            Self::keys_lawful() ==> final(self).entries() == old(self).entries().remove(*key),
    ;

    /// Whether the key is present.
    fn contains_key(&self, key: &K) -> (r: bool)
        ensures
            Self::keys_lawful() ==> r == self.entries().contains_key(*key),
    ;

    /// Number of entries.
    fn len(&self) -> (r: usize)
        ensures
            Self::keys_lawful() ==> r == self.entries().len(),
    ;

    /// Removes every entry.
    fn clear(&mut self)
        ensures
            final(self).entries() == Map::<K, T>::empty(),
    ;

    /// The container holds finitely many entries.
    proof fn lemma_entries_finite(&self)
        ensures
            self.entries().dom().finite(),
    ;

    /// Clones of all entries.
    fn to_vec(&self) -> (r: Vec<(K, T)>) where K: Clone, T: Clone
        ensures
            Self::keys_lawful() ==> cloned_entries(r@, self.entries()),
    ;
}

impl<K: Ord, T> DictionaryContainer<K, T> for BTreeMap<K, T> {
    open spec fn entries(&self) -> Map<K, T> {
        self@
    }

    open spec fn keys_lawful() -> bool {
        lawful_order::<K>()
    }

    fn insert(&mut self, key: K, value: T) {
        BTreeMap::insert(self, key, value);
    }

    fn get(&self, key: &K) -> (r: Option<&T>) {
        BTreeMap::get(self, key)
    }

    fn remove(&mut self, key: &K) {
        BTreeMap::remove(self, key);
    }

    fn contains_key(&self, key: &K) -> (r: bool) {
        BTreeMap::contains_key(self, key)
    }

    fn len(&self) -> (r: usize) {
        BTreeMap::len(self)
    }

    fn clear(&mut self) {
        BTreeMap::clear(self);
    }

    proof fn lemma_entries_finite(&self) {
        vstd::std_specs::btree::axiom_btree_map_view_finite_dom(*self);
    }

    fn to_vec(&self) -> (r: Vec<(K, T)>) where K: Clone, T: Clone {
        btree_entries(self)
    }
}

impl<K: Eq + Hash, T> DictionaryContainer<K, T> for HashMap<K, T> {
    open spec fn entries(&self) -> Map<K, T> {
        self@
    }

    open spec fn keys_lawful() -> bool {
        obeys_key_model::<K>()
    }

    fn insert(&mut self, key: K, value: T) {
        HashMap::insert(self, key, value);
    }

    fn get(&self, key: &K) -> (r: Option<&T>) {
        HashMap::get(self, key)
    }

    fn remove(&mut self, key: &K) {
        HashMap::remove(self, key);
    }

    fn contains_key(&self, key: &K) -> (r: bool) {
        HashMap::contains_key(self, key)
    }

    fn len(&self) -> (r: usize) {
        HashMap::len(self)
    }

    fn clear(&mut self) {
        HashMap::clear(self);
    }

    proof fn lemma_entries_finite(&self) {
        vstd::std_specs::hash::axiom_hashmap_view_finite_dom(*self);
    }

    fn to_vec(&self) -> (r: Vec<(K, T)>) where K: Clone, T: Clone {
        hash_entries(self)
    }
}


/// Dictionary generic over its backing associative container (`BTreeMap` by
/// default, or `HashMap`, ...). The methods that change the dictionary take
/// `&mut self`: callers that share it between threads hold it behind a lock
/// of their choice.
#[derive(Debug)]
pub struct SyncDictionary<K, T, Container = BTreeMap<K, T>> {
    dictionary: Container,
    _marker: PhantomData<(K, T)>,
}

impl<K, T, Container: DictionaryContainer<K, T>> SyncDictionary<K, T, Container> {
    /// The entries of the dictionary.
    pub closed spec fn entries(&self) -> Map<K, T> {
        self.dictionary.entries()
    }

    /// The backing container.
    pub closed spec fn backing(&self) -> Container {
        self.dictionary
    }

    /// Creates a new, empty SyncDictionary.
    pub fn new() -> (r: Self)
        ensures
            r.entries() == Map::<K, T>::empty(),
            r.entries().dom().finite(),
    {
        let mut dictionary = Container::default();
        dictionary.clear();
        SyncDictionary { dictionary, _marker: PhantomData }
    }

    /// The dictionary holds finitely many entries.
    pub proof fn lemma_entries_finite(&self)
        ensures
            self.entries().dom().finite(),
    {
        self.dictionary.lemma_entries_finite();
    }

    /// Inserts a key-value pair into the dictionary.
    pub fn insert(&mut self, key: K, value: T)
        ensures
            final(self).entries().dom().finite(),
            Container::keys_lawful() ==> final(self).entries() == old(self).entries().insert(
                key,
                value,
            ),
    {
        self.dictionary.insert(key, value);
        proof {
            self.dictionary.lemma_entries_finite();
        }
    }

    /// Retrieves a copy of the value associated with the given key.
    pub fn get(&self, key: &K) -> (r: Option<T>) where T: Clone
        ensures
            Container::keys_lawful() ==> {
                &&& self.entries().contains_key(*key) ==> r is Some && cloned(
                    self.entries()[*key],
                    r->0,
                )
                &&& !self.entries().contains_key(*key) ==> r is None
            },
    {
        match self.dictionary.get(key) {
            Some(value) => Some(value.clone()),
            None => None,
        }
    }

    /// Removes a key-value pair from the dictionary.
    pub fn remove(&mut self, key: &K)
        ensures
            final(self).entries().dom().finite(),
            Container::keys_lawful() ==> final(self).entries() == old(self).entries().remove(*key),
    {
        self.dictionary.remove(key);
        proof {
            self.dictionary.lemma_entries_finite();
        }
    }

    /// Checks if the dictionary contains a key.
    pub fn contains_key(&self, key: &K) -> (r: bool)
        ensures
            Container::keys_lawful() ==> r == self.entries().contains_key(*key),
    {
        self.dictionary.contains_key(key)
    }

    /// Checks if the dictionary is empty.
    pub fn is_empty(&self) -> (r: bool)
        ensures
            Container::keys_lawful() ==> r == (self.entries().len() == 0),
    {
        self.size() == 0
    }

    /// Returns the number of key-value pairs in the dictionary.
    pub fn size(&self) -> (r: usize)
        ensures
            Container::keys_lawful() ==> r == self.entries().len(),
    {
        self.dictionary.len()
    }

    /// Clears all key-value pairs from the dictionary.
    pub fn clear(&mut self)
        ensures
            final(self).entries() == Map::<K, T>::empty(),
            final(self).entries().dom().finite(),
    {
        self.dictionary.clear();
    }

    /// Inserts key-value pairs in order (a later pair wins over an earlier
    /// one with the same key). Returns the number of pairs inserted.
    pub fn add_range(&mut self, entries: Vec<(K, T)>) -> (count: usize)
        ensures
            count == entries@.len(),
            final(self).entries().dom().finite(),
            Container::keys_lawful() ==> final(self).entries() == insert_all(
                old(self).entries(),
                entries@,
            ),
    {
        let mut count: usize = 0;
        let ghost all = entries@;
        let ghost start = self.entries();
        proof {
            assert(all.len() == entries.len());
            assert(all.take(0) =~= Seq::<(K, T)>::empty());
        }
        for entry in it: entries
            invariant
                it.seq() == all,
                all.len() <= usize::MAX,
                it.index() <= all.len(),
                count == it.index(),
                start == old(self).entries(),
                Container::keys_lawful() ==> self.entries() == insert_all(
                    start,
                    all.take(it.index()),
                ),
        {
            let ghost i = it.index();
            let (key, value) = entry;
            self.dictionary.insert(key, value);
            count = count + 1;
            proof {
                assert(all.take(i + 1).drop_last() =~= all.take(i));
            }
        }
        proof {
            assert(all.take(all.len() as int) =~= all);
            self.dictionary.lemma_entries_finite();
        }
        count
    }

    /// Adds clones of the key-value pairs of a BTreeMap to the dictionary.
    pub fn add_btree_collection(&mut self, other: &BTreeMap<K, T>) where K: Ord + Clone, T: Clone
        ensures
            final(self).entries().dom().finite(),
            Container::keys_lawful() && lawful_order::<K>() ==> exists|pairs: Seq<(K, T)>|
                cloned_entries(pairs, other@) && final(self).entries() == #[trigger] insert_all(
                    old(self).entries(),
                    pairs,
                ),
    {
        let pairs = btree_entries(other);
        let ghost p = pairs@;
        self.add_range(pairs);
        proof {
            if Container::keys_lawful() && lawful_order::<K>() {
                assert(cloned_entries(p, other@) && self.entries() == insert_all(
                    old(self).entries(),
                    p,
                ));
            }
        }
    }

    /// Adds clones of the key-value pairs of a HashMap to the dictionary.
    pub fn add_hash_collection(&mut self, other: &HashMap<K, T>) where K: Eq + Hash + Clone, T: Clone
        ensures
            final(self).entries().dom().finite(),
            Container::keys_lawful() && obeys_key_model::<K>() ==> exists|pairs: Seq<(K, T)>|
                cloned_entries(pairs, other@) && final(self).entries() == #[trigger] insert_all(
                    old(self).entries(),
                    pairs,
                ),
    {
        let pairs = hash_entries(other);
        let ghost p = pairs@;
        self.add_range(pairs);
        proof {
            if Container::keys_lawful() && obeys_key_model::<K>() {
                assert(cloned_entries(p, other@) && self.entries() == insert_all(
                    old(self).entries(),
                    p,
                ));
            }
        }
    }

    /// Returns a clone of the internal backing container.
    pub fn snapshot(&self) -> (r: Container) where Container: Clone
        ensures
            cloned(self.backing(), r),
    {
        self.dictionary.clone()
    }

    /// Converts the dictionary to a BTreeMap of cloned entries.
    pub fn to_btree_collection(&self) -> (r: BTreeMap<K, T>) where K: Ord + Clone, T: Clone
        ensures
            Container::keys_lawful() && lawful_order::<K>() ==> exists|pairs: Seq<(K, T)>|
                cloned_entries(pairs, self.entries()) && r@ == #[trigger] insert_all(
                    Map::<K, T>::empty(),
                    pairs,
                ),
    {
        let pairs = self.dictionary.to_vec();
        let ghost p = pairs@;
        let mut r: BTreeMap<K, T> = BTreeMap::new();
        proof {
            assert(p.take(0) =~= Seq::<(K, T)>::empty());
            assert(p.len() == pairs.len());
        }
        for entry in it: pairs
            invariant
                it.seq() == p,
                it.index() <= p.len(),
                lawful_order::<K>() ==> r@ == insert_all(Map::<K, T>::empty(), p.take(it.index())),
        {
            let ghost i = it.index();
            let (key, value) = entry;
            r.insert(key, value);
            proof {
                assert(p.take(i + 1).drop_last() =~= p.take(i));
            }
        }
        proof {
            assert(p.take(p.len() as int) =~= p);
            if Container::keys_lawful() && lawful_order::<K>() {
                assert(cloned_entries(p, self.entries()) && r@ == insert_all(
                    Map::<K, T>::empty(),
                    p,
                ));
            }
        }
        r
    }

    /// Converts the dictionary to a HashMap of cloned entries.
    pub fn to_hash_collection(&self) -> (r: HashMap<K, T>) where K: Eq + Hash + Clone, T: Clone
        ensures
            Container::keys_lawful() && obeys_key_model::<K>() ==> exists|pairs: Seq<(K, T)>|
                cloned_entries(pairs, self.entries()) && r@ == #[trigger] insert_all(
                    Map::<K, T>::empty(),
                    pairs,
                ),
    {
        let pairs = self.dictionary.to_vec();
        let ghost p = pairs@;
        let mut r: HashMap<K, T> = HashMap::new();
        proof {
            assert(p.take(0) =~= Seq::<(K, T)>::empty());
            assert(p.len() == pairs.len());
        }
        for entry in it: pairs
            invariant
                it.seq() == p,
                it.index() <= p.len(),
                obeys_key_model::<K>() ==> r@ == insert_all(
                    Map::<K, T>::empty(),
                    p.take(it.index()),
                ),
        {
            let ghost i = it.index();
            let (key, value) = entry;
            r.insert(key, value);
            proof {
                assert(p.take(i + 1).drop_last() =~= p.take(i));
            }
        }
        proof {
            assert(p.take(p.len() as int) =~= p);
            if Container::keys_lawful() && obeys_key_model::<K>() {
                assert(cloned_entries(p, self.entries()) && r@ == insert_all(
                    Map::<K, T>::empty(),
                    p,
                ));
            }
        }
        r
    }
}

impl<K, T, Container: DictionaryContainer<K, T>> Default for SyncDictionary<K, T, Container> {
    fn default() -> (r: Self)
        ensures
            r.entries() == Map::<K, T>::empty(),
    {
        Self::new()
    }
}

} // verus!
