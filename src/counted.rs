//! A map item paired with a counter entry that holds how many entries the map has.

use vstd::prelude::*;
use vstd::string::StringSliceAdditionalSpecFns;
use vstd::relations::injective_on;
use vstd::set_lib::lemma_map_size;
use crate::bytes::{append_bytes, is_prefix};
use crate::codec::Codec;
use crate::info::StorageInfo;
use crate::hashing::{lemma_hash_len, Hasher};
use crate::key::lemma_item_prefix_len;
use crate::map::{lemma_map_entry_decodes, StorageMap};
use crate::query::{QueryKind, Queried, StorageError};
use crate::store::{lookup, without_prefix, MemoryStore};
use crate::value::StorageValue;

verus! {

/// What the name of a counter entry starts with, before the map's name.
pub const COUNTER_PREFIX: &'static str = "CounterFor";

/// A map of `K` to `V` with a counter entry, named `CounterFor` followed by the
/// map's name, kept equal to the number of entries.
pub struct CountedStorageMap<K, V, E> {
    pub map: StorageMap<K, V, E>,
    pub counter: StorageValue<u32, E>,
}

/// One write to a counted map.
pub enum CountedOp<K, V> {
    Insert(K, V),
    Remove(K),
}

impl<K: Codec, V: Codec, E: Copy> CountedStorageMap<K, V, E> {
    pub open spec fn wf(&self) -> bool {
        self.counter.query == QueryKind::<u32, E>::ValueQuery(0)
    }

    /// Whether the store key `key` is the key of some entry of the map.
    pub open spec fn is_entry_key(&self, key: Seq<u8>) -> bool {
        exists|k: K| key == self.map.key_spec(k)
    }

    /// The store keys that hold entries of the map.
    pub open spec fn entry_keys(&self, m: Map<Seq<u8>, Seq<u8>>) -> Set<Seq<u8>> {
        m.dom().filter(|key: Seq<u8>| self.is_entry_key(key))
    }

    /// The keys at which the map holds a value.
    pub open spec fn present_keys(&self, m: Map<Seq<u8>, Seq<u8>>) -> Set<K> {
        Set::new(|k: K| m.contains_key(self.map.key_spec(k)))
    }

    /// The counter as stored: absent reads as zero.
    pub open spec fn counter_spec(&self, m: Map<Seq<u8>, Seq<u8>>) -> Option<u32> {
        match lookup(m, self.counter.key_spec()) {
            None => Some(0),
            Some(b) => u32::decode_spec(b),
        }
    }

    /// The counter holds the number of entries.
    pub open spec fn consistent(&self, m: Map<Seq<u8>, Seq<u8>>) -> bool {
        &&& m.dom().finite()
        &&& self.counter_spec(m) == Some(self.entry_keys(m).len() as u32)
        &&& self.entry_keys(m).len() <= u32::MAX
    }

    pub open spec fn insert_spec(&self, m: Map<Seq<u8>, Seq<u8>>, k: K, v: V) -> Map<Seq<u8>, Seq<u8>> {
        let n = self.entry_keys(m).len();
        let m1 = m.insert(self.map.key_spec(k), v.encode_spec());
        if m.contains_key(self.map.key_spec(k)) {
            m1
        } else {
            m1.insert(self.counter.key_spec(), ((n + 1) as u32).encode_spec())
        }
    }

    pub open spec fn remove_spec(&self, m: Map<Seq<u8>, Seq<u8>>, k: K) -> Map<Seq<u8>, Seq<u8>> {
        let n = self.entry_keys(m).len();
        let m1 = m.remove(self.map.key_spec(k));
        if m.contains_key(self.map.key_spec(k)) {
            m1.insert(self.counter.key_spec(), ((n - 1) as u32).encode_spec())
        } else {
            m1
        }
    }

    /// The contents after applying `ops` in order.
    pub open spec fn apply_spec(&self, m: Map<Seq<u8>, Seq<u8>>, ops: Seq<CountedOp<K, V>>) -> Map<
        Seq<u8>,
        Seq<u8>,
    >
        decreases ops.len(),
    {
        if ops.len() == 0 {
            m
        } else {
            let m0 = self.apply_spec(m, ops.drop_last());
            match ops.last() {
                CountedOp::Insert(k, v) => self.insert_spec(m0, k, v),
                CountedOp::Remove(k) => self.remove_spec(m0, k),
            }
        }
    }

    pub fn new(module: &[u8], name: &[u8], hasher: Hasher, query: QueryKind<V, E>) -> (r: Self)
        ensures
            r.wf(),
            r.map.module@ == module@,
            r.map.name@ == name@,
            r.map.hasher == hasher,
            r.map.query == query,
            r.counter.module@ == module@,
            r.counter.name@ == COUNTER_PREFIX.spec_bytes() + name@,
    {
        let mut counter_name: Vec<u8> = Vec::new();
        append_bytes(&mut counter_name, COUNTER_PREFIX.as_bytes());
        append_bytes(&mut counter_name, name);
        CountedStorageMap {
            map: StorageMap::new(module, name, hasher, query),
            counter: StorageValue::new(module, counter_name.as_slice(), QueryKind::ValueQuery(0)),
        }
    }

    /// The counter key is never the key of an entry: it is shorter.
    pub proof fn lemma_counter_not_entry(&self)
        ensures
            !self.is_entry_key(self.counter.key_spec()),
    {
        lemma_item_prefix_len(self.counter.module@, self.counter.name@);
        if self.is_entry_key(self.counter.key_spec()) {
            let k = choose|k: K| self.counter.key_spec() == self.map.key_spec(k);
            lemma_item_prefix_len(self.map.module@, self.map.name@);
            lemma_hash_len(self.map.hasher, k.encode_spec());
            K::lemma_round_trip(k);
        }
    }

    proof fn lemma_insert_keeps_count(&self, m: Map<Seq<u8>, Seq<u8>>, k: K, v: V)
        requires
            self.wf(),
            self.consistent(m),
            m.contains_key(self.map.key_spec(k)) || self.entry_keys(m).len() < u32::MAX,
        ensures
            self.consistent(self.insert_spec(m, k, v)),
    {
        self.lemma_counter_not_entry();
        let key = self.map.key_spec(k);
        let m2 = self.insert_spec(m, k, v);
        let old_keys = self.entry_keys(m);
        assert(self.is_entry_key(key));
        if m.contains_key(key) {
            assert(self.entry_keys(m2) =~= old_keys);
        } else {
            let n = old_keys.len();
            assert(self.entry_keys(m2) =~= old_keys.insert(key));
            u32::lemma_round_trip((n + 1) as u32);
        }
    }

    proof fn lemma_remove_keeps_count(&self, m: Map<Seq<u8>, Seq<u8>>, k: K)
        requires
            self.wf(),
            self.consistent(m),
        ensures
            self.consistent(self.remove_spec(m, k)),
    {
        self.lemma_counter_not_entry();
        let key = self.map.key_spec(k);
        let m2 = self.remove_spec(m, k);
        let old_keys = self.entry_keys(m);
        assert(self.is_entry_key(key));
        if m.contains_key(key) {
            let n = old_keys.len();
            assert(self.entry_keys(m2) =~= old_keys.remove(key));
            assert(old_keys.contains(key));
            u32::lemma_round_trip((n - 1) as u32);
        } else {
            assert(self.entry_keys(m2) =~= old_keys);
        }
    }

    /// The number of entries, read from the counter alone.
    pub fn count(&self, store: &MemoryStore) -> (r: u32)
        requires
            store.wf(),
            self.wf(),
            self.consistent(store@),
        ensures
            r == self.entry_keys(store@).len(),
    {
        match self.counter.get(store) {
            Ok(Queried::Found(c)) => c,
            _ => 0,
        }
    }

    pub fn get(&self, store: &MemoryStore, k: &K) -> (r: Result<Queried<V, E>, StorageError>)
        requires
            store.wf(),
        ensures
            r == self.map.get_spec(store@, *k),
    {
        self.map.get(store, k)
    }

    pub fn contains_key(&self, store: &MemoryStore, k: &K) -> (r: bool)
        requires
            store.wf(),
        ensures
            r == store@.contains_key(self.map.key_spec(*k)),
    {
        self.map.contains_key(store, k)
    }

    /// Writes `v` at `k`; the counter grows only if `k` was absent.
    pub fn insert(&self, store: &mut MemoryStore, k: &K, v: &V)
        requires
            old(store).wf(),
            self.wf(),
            self.consistent(old(store)@),
            old(store)@.contains_key(self.map.key_spec(*k)) || self.entry_keys(old(store)@).len()
                < u32::MAX,
        ensures
            final(store).wf(),
            final(store)@ == self.insert_spec(old(store)@, *k, *v),
            self.consistent(final(store)@),
    {
        proof {
            self.lemma_insert_keeps_count(store@, *k, *v);
            self.lemma_counter_not_entry();
        }
        let present = self.map.contains_key(store, k);
        let n = self.count(store);
        self.map.insert(store, k, v);
        if !present {
            self.counter.put(store, n + 1);
        }
    }

    /// Removes the entry at `k`; the counter shrinks only if `k` was present.
    pub fn remove(&self, store: &mut MemoryStore, k: &K)
        requires
            old(store).wf(),
            self.wf(),
            self.consistent(old(store)@),
        ensures
            final(store).wf(),
            final(store)@ == self.remove_spec(old(store)@, *k),
            self.consistent(final(store)@),
    {
        proof {
            self.lemma_remove_keeps_count(store@, *k);
            self.lemma_counter_not_entry();
            assert(self.is_entry_key(self.map.key_spec(*k)));
        }
        let present = self.map.contains_key(store, k);
        let n = self.count(store);
        self.map.remove(store, k);
        if present {
            proof {
                assert(self.entry_keys(old(store)@).contains(self.map.key_spec(*k)));
            }
            self.counter.put(store, n - 1);
        }
    }
}

impl<K: Codec, V: Codec, E: Copy> CountedStorageMap<K, V, E> {
    /// The footprint of the map followed by that of its counter.
    pub fn storage_info(&self) -> (r: Vec<StorageInfo>)
        ensures
            r@.len() == 2,
            self.map.info_spec(r@[0]),
            self.counter.info_spec(r@[1]),
            r@[1].max_size == Some(4u32),
    {
        let mut r: Vec<StorageInfo> = Vec::new();
        r.push(self.map.storage_info());
        r.push(self.counter.storage_info());
        r
    }

    /// Removes every entry of the map and the counter.
    pub fn clear(&self, store: &mut MemoryStore) -> (r: usize)
        requires
            old(store).wf(),
            self.wf(),
        ensures
            final(store).wf(),
            final(store)@ == without_prefix(old(store)@, self.map.prefix_spec()).remove(
                self.counter.key_spec(),
            ),
            self.consistent(final(store)@),
    {
        let n = self.map.clear(store);
        self.counter.kill(store);
        proof {
            let m = store@;
            store.lemma_entries_match();
            self.lemma_counter_not_entry();
            assert forall|key: Seq<u8>| #[trigger] m.contains_key(key) implies !self.is_entry_key(key) by {
                if self.is_entry_key(key) {
                    let k = choose|k: K| key == self.map.key_spec(k);
                    lemma_item_prefix_len(self.map.module@, self.map.name@);
                    let p = self.map.prefix_spec();
                    assert(key.subrange(0, 32) =~= p);
                    assert(is_prefix(p, key));
                }
            }
            assert(self.entry_keys(m) =~= Set::empty());
        }
        n
    }
}

/// A map with no entries and no counter reads as empty and consistent.
pub proof fn lemma_empty_is_consistent<K: Codec, V: Codec, E: Copy>(map: CountedStorageMap<K, V, E>)
    ensures
        map.consistent(Map::<Seq<u8>, Seq<u8>>::empty()),
        map.entry_keys(Map::<Seq<u8>, Seq<u8>>::empty()).len() == 0,
{
    assert(map.entry_keys(Map::<Seq<u8>, Seq<u8>>::empty()) =~= Set::empty());
}

/// After any sequence of inserts and removes on a map whose counter was right,
/// the counter still holds the number of entries; an insert of a key already
/// present does not count twice and a remove of an absent key does not count.
pub proof fn lemma_count_tracks_entries<K: Codec, V: Codec, E: Copy>(
    map: CountedStorageMap<K, V, E>,
    m: Map<Seq<u8>, Seq<u8>>,
    ops: Seq<CountedOp<K, V>>,
)
    requires
        map.wf(),
        map.consistent(m),
        map.entry_keys(m).len() + ops.len() <= u32::MAX,
    ensures
        map.consistent(map.apply_spec(m, ops)),
        map.entry_keys(map.apply_spec(m, ops)).len() <= map.entry_keys(m).len() + ops.len(),
    decreases ops.len(),
{
    if ops.len() > 0 {
        let init = ops.drop_last();
        lemma_count_tracks_entries(map, m, init);
        let m0 = map.apply_spec(m, init);
        let n0 = map.entry_keys(m0).len();
        match ops.last() {
            CountedOp::Insert(k, v) => {
                map.lemma_insert_keeps_count(m0, k, v);
                let m1 = map.insert_spec(m0, k, v);
                map.lemma_counter_not_entry();
                if m0.contains_key(map.map.key_spec(k)) {
                    assert(map.entry_keys(m1) =~= map.entry_keys(m0));
                } else {
                    assert(map.entry_keys(m1) =~= map.entry_keys(m0).insert(map.map.key_spec(k)));
                }
            },
            CountedOp::Remove(k) => {
                map.lemma_remove_keeps_count(m0, k);
                let m1 = map.remove_spec(m0, k);
                map.lemma_counter_not_entry();
                if m0.contains_key(map.map.key_spec(k)) {
                    assert(map.entry_keys(m1) =~= map.entry_keys(m0).remove(map.map.key_spec(k)));
                } else {
                    assert(map.entry_keys(m1) =~= map.entry_keys(m0));
                }
            },
        }
    }
}

/// With a reversible hasher, the keys at which the map holds a value are as
/// many as the store entries of the map: so a consistent counter equals the
/// number of keys whose read finds a stored value.
pub proof fn lemma_count_is_number_of_present_keys<K: Codec, V: Codec, E: Copy>(
    map: CountedStorageMap<K, V, E>,
    m: Map<Seq<u8>, Seq<u8>>,
)
    requires
        map.map.hasher.is_reversible(),
        m.dom().finite(),
    ensures
        map.present_keys(m).finite(),
        map.present_keys(m).len() == map.entry_keys(m).len(),
        map.wf() && map.consistent(m) ==> map.counter_spec(m) == Some(map.present_keys(m).len() as u32),
{
    let v: V = arbitrary();
    let f = |raw: Seq<u8>| choose|k: K| raw == map.map.key_spec(k);
    let entries = map.entry_keys(m);
    let present = map.present_keys(m);
    assert(entries.finite()) by {
        vstd::set_lib::lemma_len_subset(entries, m.dom());
    }
    assert forall|k1: K, k2: K| map.map.key_spec(k1) == map.map.key_spec(k2) implies k1 == k2 by {
        lemma_map_entry_decodes(map.map, k1, v);
        lemma_map_entry_decodes(map.map, k2, v);
    }
    assert(injective_on(f, entries)) by {
        assert forall|a: Seq<u8>, b: Seq<u8>|
            entries.contains(a) && entries.contains(b) && #[trigger] f(a) == #[trigger] f(b) implies a
            == b by {
            assert(map.is_entry_key(a));
            assert(map.is_entry_key(b));
        }
    }
    assert(entries.map(f) =~= present) by {
        assert forall|k: K| present.contains(k) implies entries.map(f).contains(k) by {
            let raw = map.map.key_spec(k);
            assert(map.is_entry_key(raw));
            assert(entries.contains(raw));
            assert(f(raw) == k);
        }
        assert forall|k: K| entries.map(f).contains(k) implies present.contains(k) by {
            let raw = choose|raw: Seq<u8>| entries.contains(raw) && f(raw) == k;
            assert(map.is_entry_key(raw));
        }
    }
    lemma_map_size(entries, present, f);
}

} // verus!
