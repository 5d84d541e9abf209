//! An N-key map item paired with a counter entry that holds how many entries
//! the map has.

use vstd::prelude::*;
use vstd::string::StringSliceAdditionalSpecFns;
use crate::bytes::append_bytes;
use crate::codec::Codec;
use crate::info::StorageInfo;
use crate::hashing::{lemma_hash_len, Hasher};
use crate::key::{hashed_parts, lemma_item_prefix_len};
use crate::nmap::{encodings, StorageNMap};
use crate::query::{QueryKind, Queried, StorageError};
use crate::store::{lookup, MemoryStore};
use crate::value::StorageValue;
use crate::counted::COUNTER_PREFIX;

verus! {

/// An N-key map with a counter entry, named `CounterFor` followed by the map's
/// name, kept equal to the number of entries.
pub struct CountedStorageNMap<K, V, E> {
    pub map: StorageNMap<K, V, E>,
    pub counter: StorageValue<u32, E>,
}

/// Hashed key components are never empty.
proof fn lemma_hashed_parts_nonempty<K: Codec>(hashers: Seq<Hasher>, keys: Seq<K>)
    requires
        hashers.len() == keys.len(),
        keys.len() >= 1,
    ensures
        hashed_parts(hashers, encodings(keys)).len() >= 1,
{
    let es = encodings(keys);
    let last = hashers.last().hash_spec(es.last());
    K::lemma_round_trip(keys.last());
    lemma_hash_len(hashers.last(), es.last());
    assert(hashed_parts(hashers, es) == hashed_parts(hashers.drop_last(), es.drop_last()) + last);
}

impl<K: Codec, V: Codec, E: Copy> CountedStorageNMap<K, V, E> {
    pub open spec fn wf(&self) -> bool {
        &&& self.counter.query == QueryKind::<u32, E>::ValueQuery(0)
        &&& self.map.hashers@.len() >= 1
    }

    /// Whether the store key `key` is the key of some entry of the map.
    pub open spec fn is_entry_key(&self, key: Seq<u8>) -> bool {
        exists|keys: Seq<K>| keys.len() == self.map.hashers@.len() && key == self.map.key_spec(keys)
    }

    /// The store keys that hold entries of the map.
    pub open spec fn entry_keys(&self, m: Map<Seq<u8>, Seq<u8>>) -> Set<Seq<u8>> {
        m.dom().filter(|key: Seq<u8>| self.is_entry_key(key))
    }

    /// The counter as stored: absent reads as zero.
    pub open spec fn counter_spec(&self, m: Map<Seq<u8>, Seq<u8>>) -> Option<u32> {
        match lookup(m, self.counter.key_spec()) {
            None => Some(0),
            Some(b) => u32::decode_spec(b),
        }
    }

    /// The counter holds the number of entries.
    pub open spec fn consistent(&self, m: Map<Seq<u8>, Seq<u8>>) -> bool {
        &&& m.dom().finite()
        &&& self.counter_spec(m) == Some(self.entry_keys(m).len() as u32)
        &&& self.entry_keys(m).len() <= u32::MAX
    }

    pub open spec fn insert_spec(&self, m: Map<Seq<u8>, Seq<u8>>, keys: Seq<K>, v: V) -> Map<
        Seq<u8>,
        Seq<u8>,
    > {
        let n = self.entry_keys(m).len();
        let m1 = m.insert(self.map.key_spec(keys), v.encode_spec());
        if m.contains_key(self.map.key_spec(keys)) {
            m1
        } else {
            m1.insert(self.counter.key_spec(), ((n + 1) as u32).encode_spec())
        }
    }

    pub open spec fn remove_spec(&self, m: Map<Seq<u8>, Seq<u8>>, keys: Seq<K>) -> Map<
        Seq<u8>,
        Seq<u8>,
    > {
        let n = self.entry_keys(m).len();
        let m1 = m.remove(self.map.key_spec(keys));
        if m.contains_key(self.map.key_spec(keys)) {
            m1.insert(self.counter.key_spec(), ((n - 1) as u32).encode_spec())
        } else {
            m1
        }
    }

    pub fn new(module: &[u8], name: &[u8], hashers: Vec<Hasher>, query: QueryKind<V, E>) -> (r: Self)
        requires
            hashers@.len() >= 1,
        ensures
            r.wf(),
            r.map.module@ == module@,
            r.map.name@ == name@,
            r.map.hashers@ == hashers@,
            r.map.query == query,
            r.counter.module@ == module@,
            r.counter.name@ == COUNTER_PREFIX.spec_bytes() + name@,
    {
        let mut counter_name: Vec<u8> = Vec::new();
        append_bytes(&mut counter_name, COUNTER_PREFIX.as_bytes());
        append_bytes(&mut counter_name, name);
        CountedStorageNMap {
            map: StorageNMap::new(module, name, hashers, query),
            counter: StorageValue::new(module, counter_name.as_slice(), QueryKind::ValueQuery(0)),
        }
    }

    /// The counter key is never the key of an entry: it is shorter.
    pub proof fn lemma_counter_not_entry(&self)
        requires
            self.wf(),
        ensures
            !self.is_entry_key(self.counter.key_spec()),
    {
        lemma_item_prefix_len(self.counter.module@, self.counter.name@);
        if self.is_entry_key(self.counter.key_spec()) {
            let keys = choose|keys: Seq<K>|
                keys.len() == self.map.hashers@.len() && self.counter.key_spec() == self.map.key_spec(
                    keys,
                );
            lemma_item_prefix_len(self.map.module@, self.map.name@);
            lemma_hashed_parts_nonempty(self.map.hashers@, keys);
        }
    }

    proof fn lemma_insert_keeps_count(&self, m: Map<Seq<u8>, Seq<u8>>, keys: Seq<K>, v: V)
        requires
            self.wf(),
            self.consistent(m),
            keys.len() == self.map.hashers@.len(),
            m.contains_key(self.map.key_spec(keys)) || self.entry_keys(m).len() < u32::MAX,
        ensures
            self.consistent(self.insert_spec(m, keys, v)),
    {
        self.lemma_counter_not_entry();
        let key = self.map.key_spec(keys);
        let m2 = self.insert_spec(m, keys, v);
        let old_keys = self.entry_keys(m);
        assert(self.is_entry_key(key));
        if m.contains_key(key) {
            assert(self.entry_keys(m2) =~= old_keys);
        } else {
            let n = old_keys.len();
            assert(self.entry_keys(m2) =~= old_keys.insert(key));
            u32::lemma_round_trip((n + 1) as u32);
        }
    }

    proof fn lemma_remove_keeps_count(&self, m: Map<Seq<u8>, Seq<u8>>, keys: Seq<K>)
        requires
            self.wf(),
            self.consistent(m),
            keys.len() == self.map.hashers@.len(),
        ensures
            self.consistent(self.remove_spec(m, keys)),
    {
        self.lemma_counter_not_entry();
        let key = self.map.key_spec(keys);
        let m2 = self.remove_spec(m, keys);
        let old_keys = self.entry_keys(m);
        assert(self.is_entry_key(key));
        if m.contains_key(key) {
            let n = old_keys.len();
            assert(self.entry_keys(m2) =~= old_keys.remove(key));
            assert(old_keys.contains(key));
            u32::lemma_round_trip((n - 1) as u32);
        } else {
            assert(self.entry_keys(m2) =~= old_keys);
        }
    }

    /// The number of entries, read from the counter alone.
    pub fn count(&self, store: &MemoryStore) -> (r: u32)
        requires
            store.wf(),
            self.wf(),
            self.consistent(store@),
        ensures
            r == self.entry_keys(store@).len(),
    {
        match self.counter.get(store) {
            Ok(Queried::Found(c)) => c,
            _ => 0,
        }
    }

    pub fn get(&self, store: &MemoryStore, keys: &Vec<K>) -> (r: Result<Queried<V, E>, StorageError>)
        requires
            store.wf(),
            keys@.len() == self.map.hashers@.len(),
        ensures
            r == self.map.get_spec(store@, keys@),
    {
        self.map.get(store, keys)
    }

    pub fn contains_key(&self, store: &MemoryStore, keys: &Vec<K>) -> (r: bool)
        requires
            store.wf(),
            keys@.len() == self.map.hashers@.len(),
        ensures
            r == store@.contains_key(self.map.key_spec(keys@)),
    {
        self.map.contains_key(store, keys)
    }

    /// Writes `v` at `keys`; the counter grows only if `keys` were absent.
    pub fn insert(&self, store: &mut MemoryStore, keys: &Vec<K>, v: &V)
        requires
            old(store).wf(),
            self.wf(),
            self.consistent(old(store)@),
            keys@.len() == self.map.hashers@.len(),
            old(store)@.contains_key(self.map.key_spec(keys@)) || self.entry_keys(old(store)@).len()
                < u32::MAX,
        ensures
            final(store).wf(),
            final(store)@ == self.insert_spec(old(store)@, keys@, *v),
            self.consistent(final(store)@),
    {
        proof {
            self.lemma_insert_keeps_count(store@, keys@, *v);
            self.lemma_counter_not_entry();
        }
        let present = self.map.contains_key(store, keys);
        let n = self.count(store);
        self.map.insert(store, keys, v);
        if !present {
            self.counter.put(store, n + 1);
        }
    }

    /// Removes the entry at `keys`; the counter shrinks only if it was present.
    pub fn remove(&self, store: &mut MemoryStore, keys: &Vec<K>)
        requires
            old(store).wf(),
            self.wf(),
            self.consistent(old(store)@),
            keys@.len() == self.map.hashers@.len(),
        ensures
            final(store).wf(),
            final(store)@ == self.remove_spec(old(store)@, keys@),
            self.consistent(final(store)@),
    {
        proof {
            self.lemma_remove_keeps_count(store@, keys@);
            self.lemma_counter_not_entry();
            assert(self.is_entry_key(self.map.key_spec(keys@)));
        }
        let present = self.map.contains_key(store, keys);
        let n = self.count(store);
        self.map.remove(store, keys);
        if present {
            proof {
                assert(self.entry_keys(old(store)@).contains(self.map.key_spec(keys@)));
            }
            self.counter.put(store, n - 1);
        }
    }
}

impl<K: Codec, V: Codec, E: Copy> CountedStorageNMap<K, V, E> {
    /// The footprint of the map followed by that of its counter.
    pub fn storage_info(&self) -> (r: Vec<StorageInfo>)
        ensures
            r@.len() == 2,
            self.map.info_spec(r@[0]),
            self.counter.info_spec(r@[1]),
            r@[1].max_size == Some(4u32),
    {
        let mut r: Vec<StorageInfo> = Vec::new();
        r.push(self.map.storage_info());
        r.push(self.counter.storage_info());
        r
    }
}

/// A map with no entries and no counter reads as empty and consistent.
pub proof fn lemma_empty_nmap_is_consistent<K: Codec, V: Codec, E: Copy>(
    map: CountedStorageNMap<K, V, E>,
)
    ensures
        map.consistent(Map::<Seq<u8>, Seq<u8>>::empty()),
{
    assert(map.entry_keys(Map::<Seq<u8>, Seq<u8>>::empty()) =~= Set::empty());
}

} // verus!
