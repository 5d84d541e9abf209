//! A two-key map item: entries at the item prefix followed by both hashed keys.

use vstd::prelude::*;
use crate::bytes::{append_bytes, copy_bytes, slice_bytes};
use crate::codec::Codec;
use crate::info::{saturate, StorageInfo};
use crate::hashing::{lemma_hash_len, lemma_reversible_recovers_key, Hasher};
use crate::key::{item_prefix, item_prefix_spec, lemma_item_prefix_len};
use crate::query::{lemma_written_reads_back, resolve, resolve_spec, QueryKind, Queried, StorageError};
use crate::store::{lookup, pair_view, with_prefix, without_prefix, MemoryStore};
use crate::value::write_opt;
use crate::map::write_all;

verus! {

/// A storage item mapping pairs of keys `(K1, K2)` to values of type `V`.
pub struct StorageDoubleMap<K1, K2, V, E> {
    pub module: Vec<u8>,
    pub name: Vec<u8>,
    pub hasher1: Hasher,
    pub hasher2: Hasher,
    pub query: QueryKind<V, E>,
    pub marker: Ghost<(K1, K2)>,
}

impl<K1: Codec, K2: Codec, V: Codec, E: Copy> StorageDoubleMap<K1, K2, V, E> {
    pub open spec fn prefix_spec(&self) -> Seq<u8> {
        item_prefix_spec(self.module@, self.name@)
    }

    /// The bytes that every key with first key `k1` starts with.
    pub open spec fn first_key_prefix(&self, k1: K1) -> Seq<u8> {
        self.prefix_spec() + self.hasher1.hash_spec(k1.encode_spec())
    }

    pub open spec fn key_spec(&self, k1: K1, k2: K2) -> Seq<u8> {
        self.first_key_prefix(k1) + self.hasher2.hash_spec(k2.encode_spec())
    }

    pub open spec fn get_spec(&self, m: Map<Seq<u8>, Seq<u8>>, k1: K1, k2: K2) -> Result<
        Queried<V, E>,
        StorageError,
    > {
        resolve_spec(lookup(m, self.key_spec(k1, k2)), self.query)
    }

    /// Where the second key's encoding starts in a store key.
    pub open spec fn second_key_start(&self) -> nat {
        32 + self.hasher1.hashed_len_spec(K1::width()) + self.hasher2.digest_len()
    }

    /// The second key and value that a store entry holds, if it decodes.
    pub open spec fn decode_entry(&self, e: (Seq<u8>, Seq<u8>)) -> Option<(K2, V)> {
        let start = self.second_key_start();
        if e.0.len() < start {
            None
        } else {
            match (K2::decode_spec(e.0.subrange(start as int, e.0.len() as int)), V::decode_spec(e.1)) {
                (Some(k), Some(v)) => Some((k, v)),
                _ => None,
            }
        }
    }

    pub open spec fn decode_entries(&self, s: Seq<(Seq<u8>, Seq<u8>)>) -> Option<Seq<(K2, V)>>
        decreases s.len(),
    {
        if s.len() == 0 {
            Some(Seq::empty())
        } else {
            match (self.decode_entries(s.drop_last()), self.decode_entry(s.last())) {
                (Some(a), Some(x)) => Some(a.push(x)),
                _ => None,
            }
        }
    }

    /// What iteration under first key `k1` yields on `store`.
    pub open spec fn iter_prefix_spec(&self, store: MemoryStore, k1: K1) -> Option<Seq<(K2, V)>> {
        self.decode_entries(with_prefix(store.entries(), self.first_key_prefix(k1)))
    }

    pub fn new(
        module: &[u8],
        name: &[u8],
        hasher1: Hasher,
        hasher2: Hasher,
        query: QueryKind<V, E>,
    ) -> (r: Self)
        ensures
            r.module@ == module@,
            r.name@ == name@,
            r.hasher1 == hasher1,
            r.hasher2 == hasher2,
            r.query == query,
    {
        StorageDoubleMap {
            module: copy_bytes(module),
            name: copy_bytes(name),
            hasher1,
            hasher2,
            query,
            marker: Ghost(arbitrary()),
        }
    }

    pub fn final_prefix(&self) -> (r: Vec<u8>)
        ensures
            r@ == self.prefix_spec(),
    {
        item_prefix(self.module.as_slice(), self.name.as_slice())
    }

    fn first_key_bytes(&self, k1: &K1) -> (r: Vec<u8>)
        ensures
            r@ == self.first_key_prefix(*k1),
    {
        let mut r = self.final_prefix();
        let e1 = k1.encode();
        let h1 = self.hasher1.hash(e1.as_slice());
        append_bytes(&mut r, h1.as_slice());
        r
    }

    pub fn final_key(&self, k1: &K1, k2: &K2) -> (r: Vec<u8>)
        ensures
            r@ == self.key_spec(*k1, *k2),
    {
        let mut r = self.first_key_bytes(k1);
        let e2 = k2.encode();
        let h2 = self.hasher2.hash(e2.as_slice());
        append_bytes(&mut r, h2.as_slice());
        r
    }

    pub fn get(&self, store: &MemoryStore, k1: &K1, k2: &K2) -> (r: Result<Queried<V, E>, StorageError>)
        requires
            store.wf(),
        ensures
            r == self.get_spec(store@, *k1, *k2),
    {
        let key = self.final_key(k1, k2);
        resolve(store.get(key.as_slice()), &self.query)
    }

    pub fn insert(&self, store: &mut MemoryStore, k1: &K1, k2: &K2, v: &V)
        requires
            old(store).wf(),
        ensures
            final(store).wf(),
            final(store)@ == old(store)@.insert(self.key_spec(*k1, *k2), v.encode_spec()),
    {
        let key = self.final_key(k1, k2);
        let b = v.encode();
        store.put(key.as_slice(), b.as_slice());
    }

    pub fn remove(&self, store: &mut MemoryStore, k1: &K1, k2: &K2)
        requires
            old(store).wf(),
        ensures
            final(store).wf(),
            final(store)@ == old(store)@.remove(self.key_spec(*k1, *k2)),
    {
        let key = self.final_key(k1, k2);
        store.remove(key.as_slice());
    }

    pub fn contains_key(&self, store: &MemoryStore, k1: &K1, k2: &K2) -> (r: bool)
        requires
            store.wf(),
        ensures
            r == store@.contains_key(self.key_spec(*k1, *k2)),
    {
        let key = self.final_key(k1, k2);
        store.contains(key.as_slice())
    }

    /// Removes every entry whose first key is `k1`; returns how many there were.
    pub fn clear_prefix(&self, store: &mut MemoryStore, k1: &K1) -> (r: usize)
        requires
            old(store).wf(),
        ensures
            final(store).wf(),
            final(store)@ == without_prefix(old(store)@, self.first_key_prefix(*k1)),
            r == with_prefix(old(store).entries(), self.first_key_prefix(*k1)).len(),
    {
        let p = self.first_key_bytes(k1);
        store.remove_prefix(p.as_slice())
    }

    fn decode_raw(&self, e: &(Vec<u8>, Vec<u8>)) -> (r: Option<(K2, V)>)
        ensures
            r == self.decode_entry(pair_view(*e)),
    {
        proof {
            K1::lemma_width();
        }
        let w1 = K1::width_exec() as usize;
        let d1 = self.hasher1.digest_len_exec();
        let l1 = if self.hasher1.is_reversible_exec() { d1 + w1 } else { d1 };
        let start = 32 + l1 + self.hasher2.digest_len_exec();
        if e.0.len() < start {
            return None;
        }
        let kb = slice_bytes(e.0.as_slice(), start, e.0.len());
        match (K2::decode(kb.as_slice()), V::decode(e.1.as_slice())) {
            (Some(k), Some(v)) => Some((k, v)),
            _ => None,
        }
    }

    proof fn lemma_decode_fails_later(&self, s: Seq<(Seq<u8>, Seq<u8>)>, i: int)
        requires
            0 <= i < s.len(),
            self.decode_entry(s[i]) is None,
        ensures
            self.decode_entries(s) is None,
        decreases s.len(),
    {
        if i < s.len() - 1 {
            self.lemma_decode_fails_later(s.drop_last(), i);
        }
    }

    /// The entries whose first key is `k1`, in store order, with their second
    /// keys recovered. The second hasher must be reversible.
    pub fn iter_prefix(&self, store: &MemoryStore, k1: &K1) -> (r: Result<Vec<(K2, V)>, StorageError>)
        requires
            store.wf(),
            self.hasher2.is_reversible(),
        ensures
            match r {
                Ok(items) => self.iter_prefix_spec(*store, *k1) == Some(items@),
                Err(e) => self.iter_prefix_spec(*store, *k1) is None && e == StorageError::Undecodable,
            },
    {
        let p = self.first_key_bytes(k1);
        let raw = store.iter_prefix(p.as_slice());
        let ghost s = raw@.map_values(|e: (Vec<u8>, Vec<u8>)| pair_view(e));
        let mut out: Vec<(K2, V)> = Vec::new();
        let mut i: usize = 0;
        while i < raw.len()
            invariant
                i <= raw@.len(),
                s == raw@.map_values(|e: (Vec<u8>, Vec<u8>)| pair_view(e)),
                s == with_prefix(store.entries(), self.first_key_prefix(*k1)),
                self.decode_entries(s.subrange(0, i as int)) == Some(out@),
            decreases raw@.len() - i,
        {
            assert(s.subrange(0, i + 1).drop_last() =~= s.subrange(0, i as int));
            match self.decode_raw(&raw[i]) {
                Some(kv) => {
                    out.push(kv);
                },
                None => {
                    proof {
                        assert(s[i as int] == pair_view(raw@[i as int]));
                        self.lemma_decode_fails_later(s, i as int);
                    }
                    return Err(StorageError::Undecodable);
                },
            }
            i = i + 1;
        }
        assert(s.subrange(0, i as int) =~= s);
        Ok(out)
    }
}

impl<K1: Codec, K2: Codec, V: Codec, E: Copy> StorageDoubleMap<K1, K2, V, E> {
    /// Unbounded entries, each of at most both hashed keys and the value,
    /// saturating at `u32::MAX`.
    pub fn storage_info(&self) -> (r: StorageInfo)
        ensures
            r.pallet_name@ == self.module@,
            r.storage_name@ == self.name@,
            r.prefix@ == self.prefix_spec(),
            r.max_values is None,
            r.max_size == Some(
                saturate(
                    saturate(
                        saturate(self.hasher1.hashed_len_spec(K1::width())) + saturate(
                            self.hasher2.hashed_len_spec(K2::width()),
                        ),
                    ) + V::width(),
                ) as u32,
            ),
    {
        let k1 = self.hasher1.max_len(K1::width_exec());
        let k2 = self.hasher2.max_len(K2::width_exec());
        StorageInfo {
            pallet_name: copy_bytes(self.module.as_slice()),
            storage_name: copy_bytes(self.name.as_slice()),
            prefix: self.final_prefix(),
            max_values: None,
            max_size: Some(k1.saturating_add(k2).saturating_add(V::width_exec())),
        }
    }
}

impl<K1: Codec, K2: Codec, V: Codec, E: Copy> StorageDoubleMap<K1, K2, V, E> {
    /// Reads the value at `(k1, k2)`, then removes it.
    pub fn take(&self, store: &mut MemoryStore, k1: &K1, k2: &K2) -> (r: Result<
        Queried<V, E>,
        StorageError,
    >)
        requires
            old(store).wf(),
        ensures
            final(store).wf(),
            r == self.get_spec(old(store)@, *k1, *k2),
            final(store)@ == old(store)@.remove(self.key_spec(*k1, *k2)),
    {
        let r = self.get(store, k1, k2);
        self.remove(store, k1, k2);
        r
    }

    /// Reads the value at `(k1, k2)`, hands it to `f`, and writes what `f`
    /// returns (`None` removes the entry). An undecodable value leaves the store
    /// as it was.
    pub fn mutate<F: FnOnce(Queried<V, E>) -> Option<V>>(
        &self,
        store: &mut MemoryStore,
        k1: &K1,
        k2: &K2,
        f: F,
    ) -> (r: Result<Option<V>, StorageError>)
        requires
            old(store).wf(),
            forall|q: Queried<V, E>| f.requires((q,)),
        ensures
            final(store).wf(),
            match self.get_spec(old(store)@, *k1, *k2) {
                Err(e) => r == Err::<Option<V>, StorageError>(e) && final(store)@ == old(store)@,
                Ok(q) => match r {
                    Ok(o) => f.ensures((q,), o) && final(store)@ == write_opt(
                        old(store)@,
                        self.key_spec(*k1, *k2),
                        o,
                    ),
                    Err(_) => false,
                },
            },
    {
        match self.get(store, k1, k2) {
            Err(e) => Err(e),
            Ok(q) => {
                let o = f(q);
                match o {
                    Some(v) => self.insert(store, k1, k2, &v),
                    None => self.remove(store, k1, k2),
                }
                Ok(o)
            },
        }
    }

    /// Removes every entry of the map; returns how many there were.
    pub fn clear(&self, store: &mut MemoryStore) -> (r: usize)
        requires
            old(store).wf(),
        ensures
            final(store).wf(),
            final(store)@ == without_prefix(old(store)@, self.prefix_spec()),
            r == with_prefix(old(store).entries(), self.prefix_spec()).len(),
    {
        let p = self.final_prefix();
        store.remove_prefix(p.as_slice())
    }
}

impl<K1: Codec, K2: Codec, V: Codec, E: Copy> StorageDoubleMap<K1, K2, V, E> {
    /// Both keys and the value that a store entry holds, if it decodes; the
    /// first key sits after the first digest, the second after the second.
    pub open spec fn decode_full_entry<X: Codec>(&self, e: (Seq<u8>, Seq<u8>)) -> Option<(K1, K2, X)> {
        let a = 32 + self.hasher1.digest_len();
        let b = a + K1::width();
        let c = b + self.hasher2.digest_len();
        if e.0.len() < c {
            None
        } else {
            match (
                K1::decode_spec(e.0.subrange(a as int, b as int)),
                K2::decode_spec(e.0.subrange(c as int, e.0.len() as int)),
                X::decode_spec(e.1),
            ) {
                (Some(k1), Some(k2), Some(v)) => Some((k1, k2, v)),
                _ => None,
            }
        }
    }

    pub open spec fn decode_full_entries<X: Codec>(&self, s: Seq<(Seq<u8>, Seq<u8>)>) -> Option<
        Seq<(K1, K2, X)>,
    >
        decreases s.len(),
    {
        if s.len() == 0 {
            Some(Seq::empty())
        } else {
            match (self.decode_full_entries::<X>(s.drop_last()), self.decode_full_entry::<X>(s.last())) {
                (Some(a), Some(x)) => Some(a.push(x)),
                _ => None,
            }
        }
    }

    /// What iteration over the whole map yields on `store`.
    pub open spec fn iter_spec(&self, store: MemoryStore) -> Option<Seq<(K1, K2, V)>> {
        self.decode_full_entries::<V>(with_prefix(store.entries(), self.prefix_spec()))
    }

    proof fn lemma_full_decode_fails_later<X: Codec>(&self, s: Seq<(Seq<u8>, Seq<u8>)>, i: int)
        requires
            0 <= i < s.len(),
            self.decode_full_entry::<X>(s[i]) is None,
        ensures
            self.decode_full_entries::<X>(s) is None,
        decreases s.len(),
    {
        if i < s.len() - 1 {
            self.lemma_full_decode_fails_later::<X>(s.drop_last(), i);
        }
    }

    fn decode_full_raw<X: Codec>(&self, e: &(Vec<u8>, Vec<u8>)) -> (r: Option<(K1, K2, X)>)
        ensures
            r == self.decode_full_entry::<X>(pair_view(*e)),
    {
        proof {
            K1::lemma_width();
        }
        let a = 32 + self.hasher1.digest_len_exec();
        let b = a + K1::width_exec() as usize;
        let c = b + self.hasher2.digest_len_exec();
        if e.0.len() < c {
            return None;
        }
        let k1b = slice_bytes(e.0.as_slice(), a, b);
        let k2b = slice_bytes(e.0.as_slice(), c, e.0.len());
        match (K1::decode(k1b.as_slice()), K2::decode(k2b.as_slice()), X::decode(e.1.as_slice())) {
            (Some(k1), Some(k2), Some(v)) => Some((k1, k2, v)),
            _ => None,
        }
    }

    /// Every entry of the map in store order, with both keys recovered. Both
    /// hashers must be reversible. Fails if an entry does not decode.
    pub fn iter(&self, store: &MemoryStore) -> (r: Result<Vec<(K1, K2, V)>, StorageError>)
        requires
            store.wf(),
            self.hasher1.is_reversible(),
            self.hasher2.is_reversible(),
        ensures
            match r {
                Ok(items) => self.iter_spec(*store) == Some(items@),
                Err(e) => self.iter_spec(*store) is None && e == StorageError::Undecodable,
            },
    {
        let p = self.final_prefix();
        let raw = store.iter_prefix(p.as_slice());
        let ghost s = raw@.map_values(|e: (Vec<u8>, Vec<u8>)| pair_view(e));
        let mut out: Vec<(K1, K2, V)> = Vec::new();
        let mut i: usize = 0;
        while i < raw.len()
            invariant
                i <= raw@.len(),
                s == raw@.map_values(|e: (Vec<u8>, Vec<u8>)| pair_view(e)),
                s == with_prefix(store.entries(), self.prefix_spec()),
                self.decode_full_entries::<V>(s.subrange(0, i as int)) == Some(out@),
            decreases raw@.len() - i,
        {
            assert(s.subrange(0, i + 1).drop_last() =~= s.subrange(0, i as int));
            assert(s[i as int] == pair_view(raw@[i as int]));
            match self.decode_full_raw::<V>(&raw[i]) {
                Some(x) => {
                    out.push(x);
                },
                None => {
                    proof {
                        self.lemma_full_decode_fails_later::<V>(s, i as int);
                    }
                    return Err(StorageError::Undecodable);
                },
            }
            i = i + 1;
        }
        assert(s.subrange(0, i as int) =~= s);
        Ok(out)
    }

    /// Rewrites every entry of the map: its value, decoded as the old type `O`,
    /// is handed to `f` with both keys, and what `f` returns is written back in
    /// place (`None` removes the entry). Both hashers must be reversible. If an
    /// entry does not decode, the store is left as it was. Returns how many
    /// entries were visited.
    pub fn translate<O: Codec, F: Fn(K1, K2, O) -> Option<V>>(
        &self,
        store: &mut MemoryStore,
        f: F,
    ) -> (r: Result<usize, StorageError>)
        requires
            old(store).wf(),
            self.hasher1.is_reversible(),
            self.hasher2.is_reversible(),
            forall|a: K1, b: K2, o: O| f.requires((a, b, o)),
        ensures
            final(store).wf(),
            match self.decode_full_entries::<O>(with_prefix(old(store).entries(), self.prefix_spec())) {
                None => r == Err::<usize, StorageError>(StorageError::Undecodable) && final(store)@
                    == old(store)@,
                Some(items) => r == Ok::<usize, StorageError>(items.len() as usize) && exists|
                    rs: Seq<Option<V>>,
                |
                    rs.len() == items.len() && (forall|i: int|
                        0 <= i < items.len() ==> f.ensures(
                            (items[i].0, items[i].1, items[i].2),
                            #[trigger] rs[i],
                        )) && final(store)@ == write_all(
                        old(store)@,
                        with_prefix(old(store).entries(), self.prefix_spec()).map_values(
                            |e: (Seq<u8>, Seq<u8>)| e.0,
                        ),
                        rs,
                    ),
            },
    {
        let ghost start_map = store@;
        let p = self.final_prefix();
        let raw = store.iter_prefix(p.as_slice());
        let ghost s = raw@.map_values(|e: (Vec<u8>, Vec<u8>)| pair_view(e));
        let ghost keys = s.map_values(|e: (Seq<u8>, Seq<u8>)| e.0);
        let mut items: Vec<(K1, K2, O)> = Vec::new();
        let mut i: usize = 0;
        while i < raw.len()
            invariant
                i <= raw@.len(),
                store.wf(),
                store@ == start_map,
                s == raw@.map_values(|e: (Vec<u8>, Vec<u8>)| pair_view(e)),
                s == with_prefix(store.entries(), self.prefix_spec()),
                self.decode_full_entries::<O>(s.subrange(0, i as int)) == Some(items@),
            decreases raw@.len() - i,
        {
            assert(s.subrange(0, i + 1).drop_last() =~= s.subrange(0, i as int));
            assert(s[i as int] == pair_view(raw@[i as int]));
            match self.decode_full_raw::<O>(&raw[i]) {
                Some(x) => {
                    items.push(x);
                },
                None => {
                    proof {
                        self.lemma_full_decode_fails_later::<O>(s, i as int);
                    }
                    return Err(StorageError::Undecodable);
                },
            }
            i = i + 1;
        }
        assert(s.subrange(0, i as int) =~= s);
        proof {
            self.lemma_full_decode_len::<O>(s);
        }
        let ghost mut rs: Seq<Option<V>> = Seq::empty();
        let mut j: usize = 0;
        while j < items.len()
            invariant
                store.wf(),
                j <= items@.len(),
                items@.len() == raw@.len(),
                s == raw@.map_values(|e: (Vec<u8>, Vec<u8>)| pair_view(e)),
                keys == s.map_values(|e: (Seq<u8>, Seq<u8>)| e.0),
                forall|a: K1, b: K2, o: O| f.requires((a, b, o)),
                rs.len() == j,
                forall|t: int|
                    0 <= t < j ==> f.ensures(
                        (items@[t].0, items@[t].1, items@[t].2),
                        #[trigger] rs[t],
                    ),
                store@ == write_all(start_map, keys.subrange(0, j as int), rs),
            decreases items@.len() - j,
        {
            let (k1, k2, o) = items[j];
            let out = f(k1, k2, o);
            let ghost before = rs;
            match out {
                Some(v) => {
                    let b = v.encode();
                    store.put(raw[j].0.as_slice(), b.as_slice());
                },
                None => {
                    store.remove(raw[j].0.as_slice());
                },
            }
            proof {
                rs = rs.push(out);
                assert(rs.drop_last() =~= before);
                assert(keys.subrange(0, j + 1).drop_last() =~= keys.subrange(0, j as int));
                assert(keys[j as int] == raw@[j as int].0@);
            }
            j = j + 1;
        }
        assert(keys.subrange(0, j as int) =~= keys);
        Ok(items.len())
    }

    proof fn lemma_full_decode_len<X: Codec>(&self, s: Seq<(Seq<u8>, Seq<u8>)>)
        ensures
            self.decode_full_entries::<X>(s) is Some ==> self.decode_full_entries::<X>(s).unwrap().len()
                == s.len(),
        decreases s.len(),
    {
        if s.len() > 0 {
            self.lemma_full_decode_len::<X>(s.drop_last());
        }
    }
}

/// A value inserted at a pair of keys is read back as itself.
pub proof fn lemma_double_map_insert_then_get<K1: Codec, K2: Codec, V: Codec, E: Copy>(
    map: StorageDoubleMap<K1, K2, V, E>,
    m: Map<Seq<u8>, Seq<u8>>,
    k1: K1,
    k2: K2,
    v: V,
)
    ensures
        map.get_spec(m.insert(map.key_spec(k1, k2), v.encode_spec()), k1, k2) == Ok::<
            Queried<V, E>,
            StorageError,
        >(Queried::Found(v)),
{
    lemma_written_reads_back(m, map.key_spec(k1, k2), v, map.query);
}

/// With a reversible second hasher, the entry written for `k1`, `k2` and `v`
/// decodes back to `k2` and `v`.
pub proof fn lemma_double_map_entry_decodes<K1: Codec, K2: Codec, V: Codec, E: Copy>(
    map: StorageDoubleMap<K1, K2, V, E>,
    k1: K1,
    k2: K2,
    v: V,
)
    requires
        map.hasher2.is_reversible(),
    ensures
        map.decode_entry((map.key_spec(k1, k2), v.encode_spec())) == Some((k2, v)),
{
    let e1 = k1.encode_spec();
    let e2 = k2.encode_spec();
    let h1 = map.hasher1.hash_spec(e1);
    let h2 = map.hasher2.hash_spec(e2);
    let p = map.prefix_spec();
    lemma_item_prefix_len(map.module@, map.name@);
    K1::lemma_round_trip(k1);
    lemma_hash_len(map.hasher1, e1);
    lemma_hash_len(map.hasher2, e2);
    lemma_reversible_recovers_key(map.hasher2, e2);
    K2::lemma_round_trip(k2);
    V::lemma_round_trip(v);
    let key = p + h1 + h2;
    let start = map.second_key_start();
    assert(key.subrange(start as int, key.len() as int) =~= h2.subrange(
        map.hasher2.digest_len() as int,
        h2.len() as int,
    ));
}

/// With both hashers reversible, the entry written for `k1`, `k2` and `v`
/// decodes back to all three.
pub proof fn lemma_double_map_full_entry_decodes<K1: Codec, K2: Codec, V: Codec, E: Copy>(
    map: StorageDoubleMap<K1, K2, V, E>,
    k1: K1,
    k2: K2,
    v: V,
)
    requires
        map.hasher1.is_reversible(),
        map.hasher2.is_reversible(),
    ensures
        map.decode_full_entry::<V>((map.key_spec(k1, k2), v.encode_spec())) == Some((k1, k2, v)),
{
    let e1 = k1.encode_spec();
    let e2 = k2.encode_spec();
    let h1 = map.hasher1.hash_spec(e1);
    let h2 = map.hasher2.hash_spec(e2);
    let p = map.prefix_spec();
    lemma_item_prefix_len(map.module@, map.name@);
    K1::lemma_round_trip(k1);
    K2::lemma_round_trip(k2);
    V::lemma_round_trip(v);
    lemma_hash_len(map.hasher1, e1);
    lemma_hash_len(map.hasher2, e2);
    lemma_reversible_recovers_key(map.hasher1, e1);
    lemma_reversible_recovers_key(map.hasher2, e2);
    let key = p + h1 + h2;
    let a = 32 + map.hasher1.digest_len();
    let b = a + K1::width();
    let c = b + map.hasher2.digest_len();
    assert(key.subrange(a as int, b as int) =~= h1.subrange(
        map.hasher1.digest_len() as int,
        h1.len() as int,
    ));
    assert(key.subrange(c as int, key.len() as int) =~= h2.subrange(
        map.hasher2.digest_len() as int,
        h2.len() as int,
    ));
}

} // verus!
