//! A one-key map item: entries at the item prefix followed by the hashed key.

use vstd::prelude::*;
use crate::bytes::{append_bytes, copy_bytes, slice_bytes};
use crate::codec::Codec;
use crate::info::{saturate, StorageInfo};
use crate::hashing::{lemma_hash_len, lemma_reversible_recovers_key, Hasher};
use crate::key::{item_prefix, item_prefix_spec, lemma_item_prefix_len};
use crate::query::{lemma_written_reads_back, resolve, resolve_spec, QueryKind, Queried, StorageError};
use crate::store::{lookup, pair_view, with_prefix, without_prefix, MemoryStore};
use crate::value::write_opt;

verus! {

/// The key and the value of type `X` that a store entry holds, when the key's
/// encoding starts at byte `start` of the store key.
pub open spec fn decode_pair<K: Codec, X: Codec>(start: nat, e: (Seq<u8>, Seq<u8>)) -> Option<(K, X)> {
    if e.0.len() < start {
        None
    } else {
        match (K::decode_spec(e.0.subrange(start as int, e.0.len() as int)), X::decode_spec(e.1)) {
            (Some(k), Some(v)) => Some((k, v)),
            _ => None,
        }
    }
}

pub open spec fn decode_pairs<K: Codec, X: Codec>(start: nat, s: Seq<(Seq<u8>, Seq<u8>)>) -> Option<
    Seq<(K, X)>,
>
    decreases s.len(),
{
    if s.len() == 0 {
        Some(Seq::empty())
    } else {
        match (decode_pairs::<K, X>(start, s.drop_last()), decode_pair::<K, X>(start, s.last())) {
            (Some(a), Some(x)) => Some(a.push(x)),
            _ => None,
        }
    }
}

proof fn lemma_decode_pairs_fail<K: Codec, X: Codec>(start: nat, s: Seq<(Seq<u8>, Seq<u8>)>, i: int)
    requires
        0 <= i < s.len(),
        decode_pair::<K, X>(start, s[i]) is None,
    ensures
        decode_pairs::<K, X>(start, s) is None,
    decreases s.len(),
{
    if i < s.len() - 1 {
        lemma_decode_pairs_fail::<K, X>(start, s.drop_last(), i);
    }
}

proof fn lemma_decode_pairs_len<K: Codec, X: Codec>(start: nat, s: Seq<(Seq<u8>, Seq<u8>)>)
    ensures
        decode_pairs::<K, X>(start, s) is Some ==> decode_pairs::<K, X>(start, s).unwrap().len()
            == s.len(),
    decreases s.len(),
{
    if s.len() > 0 {
        lemma_decode_pairs_len::<K, X>(start, s.drop_last());
    }
}

/// The contents after writing `rs[i]` at `keys[i]`, in order (`None` removes).
pub open spec fn write_all<V: Codec>(m: Map<Seq<u8>, Seq<u8>>, keys: Seq<Seq<u8>>, rs: Seq<Option<V>>) -> Map<
    Seq<u8>,
    Seq<u8>,
>
    decreases rs.len(),
{
    if rs.len() == 0 || keys.len() == 0 {
        m
    } else {
        write_opt(write_all(m, keys.drop_last(), rs.drop_last()), keys.last(), rs.last())
    }
}

/// A storage item mapping keys of type `K` to values of type `V`.
pub struct StorageMap<K, V, E> {
    pub module: Vec<u8>,
    pub name: Vec<u8>,
    pub hasher: Hasher,
    pub query: QueryKind<V, E>,
    pub marker: Ghost<K>,
}

impl<K: Codec, V: Codec, E: Copy> StorageMap<K, V, E> {
    pub open spec fn prefix_spec(&self) -> Seq<u8> {
        item_prefix_spec(self.module@, self.name@)
    }

    pub open spec fn key_spec(&self, k: K) -> Seq<u8> {
        self.prefix_spec() + self.hasher.hash_spec(k.encode_spec())
    }

    pub open spec fn get_spec(&self, m: Map<Seq<u8>, Seq<u8>>, k: K) -> Result<
        Queried<V, E>,
        StorageError,
    > {
        resolve_spec(lookup(m, self.key_spec(k)), self.query)
    }

    /// The key and value that a store entry of this map holds, if it decodes.
    pub open spec fn decode_entry(&self, e: (Seq<u8>, Seq<u8>)) -> Option<(K, V)> {
        let start = 32 + self.hasher.digest_len();
        if e.0.len() < start {
            None
        } else {
            match (K::decode_spec(e.0.subrange(start as int, e.0.len() as int)), V::decode_spec(e.1)) {
                (Some(k), Some(v)) => Some((k, v)),
                _ => None,
            }
        }
    }

    /// The decoded entries, or `None` if one of them does not decode.
    pub open spec fn decode_entries(&self, s: Seq<(Seq<u8>, Seq<u8>)>) -> Option<Seq<(K, V)>>
        decreases s.len(),
    {
        if s.len() == 0 {
            Some(Seq::empty())
        } else {
            match (self.decode_entries(s.drop_last()), self.decode_entry(s.last())) {
                (Some(a), Some(x)) => Some(a.push(x)),
                _ => None,
            }
        }
    }

    /// What iteration yields on `store`: the entries under the item prefix, in
    /// store order, decoded.
    pub open spec fn iter_spec(&self, store: MemoryStore) -> Option<Seq<(K, V)>> {
        self.decode_entries(with_prefix(store.entries(), self.prefix_spec()))
    }

    pub fn new(module: &[u8], name: &[u8], hasher: Hasher, query: QueryKind<V, E>) -> (r: Self)
        ensures
            r.module@ == module@,
            r.name@ == name@,
            r.hasher == hasher,
            r.query == query,
    {
        StorageMap {
            module: copy_bytes(module),
            name: copy_bytes(name),
            hasher,
            query,
            marker: Ghost(arbitrary()),
        }
    }

    /// The 32 bytes that every key of this map starts with.
    pub fn final_prefix(&self) -> (r: Vec<u8>)
        ensures
            r@ == self.prefix_spec(),
    {
        item_prefix(self.module.as_slice(), self.name.as_slice())
    }

    /// The store key of the entry at `k`.
    pub fn final_key(&self, k: &K) -> (r: Vec<u8>)
        ensures
            r@ == self.key_spec(*k),
    {
        let mut r = self.final_prefix();
        let enc = k.encode();
        let h = self.hasher.hash(enc.as_slice());
        append_bytes(&mut r, h.as_slice());
        r
    }

    /// Reads the value at `k`, resolving absence by the item's policy.
    pub fn get(&self, store: &MemoryStore, k: &K) -> (r: Result<Queried<V, E>, StorageError>)
        requires
            store.wf(),
        ensures
            r == self.get_spec(store@, *k),
    {
        let key = self.final_key(k);
        resolve(store.get(key.as_slice()), &self.query)
    }

    /// Writes `v` at `k`.
    pub fn insert(&self, store: &mut MemoryStore, k: &K, v: &V)
        requires
            old(store).wf(),
        ensures
            final(store).wf(),
            final(store)@ == old(store)@.insert(self.key_spec(*k), v.encode_spec()),
    {
        let key = self.final_key(k);
        let b = v.encode();
        store.put(key.as_slice(), b.as_slice());
    }

    /// Removes the entry at `k`; nothing happens if it is absent.
    pub fn remove(&self, store: &mut MemoryStore, k: &K)
        requires
            old(store).wf(),
        ensures
            final(store).wf(),
            final(store)@ == old(store)@.remove(self.key_spec(*k)),
    {
        let key = self.final_key(k);
        store.remove(key.as_slice());
    }

    pub fn contains_key(&self, store: &MemoryStore, k: &K) -> (r: bool)
        requires
            store.wf(),
        ensures
            r == store@.contains_key(self.key_spec(*k)),
    {
        let key = self.final_key(k);
        store.contains(key.as_slice())
    }

    /// Reads the value at `k`, then removes it.
    pub fn take(&self, store: &mut MemoryStore, k: &K) -> (r: Result<Queried<V, E>, StorageError>)
        requires
            old(store).wf(),
        ensures
            final(store).wf(),
            r == self.get_spec(old(store)@, *k),
            final(store)@ == old(store)@.remove(self.key_spec(*k)),
    {
        let r = self.get(store, k);
        self.remove(store, k);
        r
    }

    /// Reads the value at `k`, hands it to `f`, and writes what `f` returns
    /// (`None` removes the entry). An undecodable value leaves the store as it was.
    pub fn mutate<F: FnOnce(Queried<V, E>) -> Option<V>>(
        &self,
        store: &mut MemoryStore,
        k: &K,
        f: F,
    ) -> (r: Result<Option<V>, StorageError>)
        requires
            old(store).wf(),
            forall|q: Queried<V, E>| f.requires((q,)),
        ensures
            final(store).wf(),
            match self.get_spec(old(store)@, *k) {
                Err(e) => r == Err::<Option<V>, StorageError>(e) && final(store)@ == old(store)@,
                Ok(q) => match r {
                    Ok(o) => f.ensures((q,), o) && final(store)@ == write_opt(
                        old(store)@,
                        self.key_spec(*k),
                        o,
                    ),
                    Err(_) => false,
                },
            },
    {
        match self.get(store, k) {
            Err(e) => Err(e),
            Ok(q) => {
                let o = f(q);
                match o {
                    Some(v) => self.insert(store, k, &v),
                    None => self.remove(store, k),
                }
                Ok(o)
            },
        }
    }

    /// Removes every entry of the map; returns how many there were.
    pub fn clear(&self, store: &mut MemoryStore) -> (r: usize)
        requires
            old(store).wf(),
        ensures
            final(store).wf(),
            final(store)@ == without_prefix(old(store)@, self.prefix_spec()),
            r == with_prefix(old(store).entries(), self.prefix_spec()).len(),
    {
        let p = self.final_prefix();
        store.remove_prefix(p.as_slice())
    }

    fn decode_raw(&self, e: &(Vec<u8>, Vec<u8>)) -> (r: Option<(K, V)>)
        ensures
            r == self.decode_entry(pair_view(*e)),
    {
        let start = 32 + self.hasher.digest_len_exec();
        if e.0.len() < start {
            return None;
        }
        let kb = slice_bytes(e.0.as_slice(), start, e.0.len());
        match (K::decode(kb.as_slice()), V::decode(e.1.as_slice())) {
            (Some(k), Some(v)) => Some((k, v)),
            _ => None,
        }
    }

    /// The entries of the map in store order, with their keys recovered from the
    /// store keys. The hasher must be reversible. Fails if an entry does not decode.
    /// Calling it again on the same store gives the same sequence.
    pub fn iter(&self, store: &MemoryStore) -> (r: Result<Vec<(K, V)>, StorageError>)
        requires
            store.wf(),
            self.hasher.is_reversible(),
        ensures
            match r {
                Ok(items) => self.iter_spec(*store) == Some(items@),
                Err(e) => self.iter_spec(*store) is None && e == StorageError::Undecodable,
            },
    {
        let p = self.final_prefix();
        let raw = store.iter_prefix(p.as_slice());
        let ghost s = raw@.map_values(|e: (Vec<u8>, Vec<u8>)| pair_view(e));
        let mut out: Vec<(K, V)> = Vec::new();
        let mut i: usize = 0;
        while i < raw.len()
            invariant
                i <= raw@.len(),
                s == raw@.map_values(|e: (Vec<u8>, Vec<u8>)| pair_view(e)),
                s == with_prefix(store.entries(), self.prefix_spec()),
                self.decode_entries(s.subrange(0, i as int)) == Some(out@),
            decreases raw@.len() - i,
        {
            assert(s.subrange(0, i + 1).drop_last() =~= s.subrange(0, i as int));
            match self.decode_raw(&raw[i]) {
                Some(kv) => {
                    out.push(kv);
                },
                None => {
                    proof {
                        assert(s[i as int] == pair_view(raw@[i as int]));
                        self.lemma_decode_fails_later(s, i as int);
                        assert(s == with_prefix(store.entries(), self.prefix_spec()));
                    }
                    return Err(StorageError::Undecodable);
                },
            }
            i = i + 1;
        }
        assert(s.subrange(0, i as int) =~= s);
        Ok(out)
    }

    proof fn lemma_decode_fails_later(&self, s: Seq<(Seq<u8>, Seq<u8>)>, i: int)
        requires
            0 <= i < s.len(),
            self.decode_entry(s[i]) is None,
        ensures
            self.decode_entries(s) is None,
        decreases s.len(),
    {
        if i < s.len() - 1 {
            self.lemma_decode_fails_later(s.drop_last(), i);
        }
    }
}

impl<K: Codec, V: Codec, E: Copy> StorageMap<K, V, E> {
    /// Whether `r` describes this item: unbounded entries, each of at most the
    /// hashed key and the value, saturating at `u32::MAX`.
    pub open spec fn info_spec(&self, r: StorageInfo) -> bool {
        &&& r.pallet_name@ == self.module@
        &&& r.storage_name@ == self.name@
        &&& r.prefix@ == self.prefix_spec()
        &&& r.max_values is None
        &&& r.max_size == Some(
            saturate(saturate(self.hasher.hashed_len_spec(K::width())) + V::width()) as u32,
        )
    }

    /// Unbounded entries, each of at most the hashed key and the value,
    /// saturating at `u32::MAX`.
    pub fn storage_info(&self) -> (r: StorageInfo)
        ensures
            self.info_spec(r),
    {
        let k = self.hasher.max_len(K::width_exec());
        StorageInfo {
            pallet_name: copy_bytes(self.module.as_slice()),
            storage_name: copy_bytes(self.name.as_slice()),
            prefix: self.final_prefix(),
            max_values: None,
            max_size: Some(k.saturating_add(V::width_exec())),
        }
    }
}

impl<K: Codec, V: Codec, E: Copy> StorageMap<K, V, E> {
    /// Where a key's encoding starts in a store key of this map.
    pub open spec fn key_start(&self) -> nat {
        32 + self.hasher.digest_len()
    }

    /// Rewrites every entry of the map: its value, decoded as the old type `O`,
    /// is handed to `f` with the key, and what `f` returns is written back in
    /// place (`None` removes the entry). If an entry does not decode, the store
    /// is left as it was. Returns how many entries were visited.
    pub fn translate<O: Codec, F: Fn(K, O) -> Option<V>>(&self, store: &mut MemoryStore, f: F) -> (r:
        Result<usize, StorageError>)
        requires
            old(store).wf(),
            self.hasher.is_reversible(),
            forall|k: K, o: O| f.requires((k, o)),
        ensures
            final(store).wf(),
            match decode_pairs::<K, O>(
                self.key_start(),
                with_prefix(old(store).entries(), self.prefix_spec()),
            ) {
                None => r == Err::<usize, StorageError>(StorageError::Undecodable) && final(store)@
                    == old(store)@,
                Some(items) => r == Ok::<usize, StorageError>(items.len() as usize) && exists|
                    rs: Seq<Option<V>>,
                |
                    rs.len() == items.len() && (forall|i: int|
                        0 <= i < items.len() ==> f.ensures((items[i].0, items[i].1), #[trigger] rs[i]))
                        && final(store)@ == write_all(
                        old(store)@,
                        with_prefix(old(store).entries(), self.prefix_spec()).map_values(
                            |e: (Seq<u8>, Seq<u8>)| e.0,
                        ),
                        rs,
                    ),
            },
    {
        let ghost start_map = store@;
        let p = self.final_prefix();
        let raw = store.iter_prefix(p.as_slice());
        let ghost s = raw@.map_values(|e: (Vec<u8>, Vec<u8>)| pair_view(e));
        let ghost keys = s.map_values(|e: (Seq<u8>, Seq<u8>)| e.0);
        let start = 32 + self.hasher.digest_len_exec();
        let mut items: Vec<(K, O)> = Vec::new();
        let mut i: usize = 0;
        while i < raw.len()
            invariant
                i <= raw@.len(),
                start == self.key_start(),
                store.wf(),
                store@ == start_map,
                s == raw@.map_values(|e: (Vec<u8>, Vec<u8>)| pair_view(e)),
                s == with_prefix(store.entries(), self.prefix_spec()),
                decode_pairs::<K, O>(self.key_start(), s.subrange(0, i as int)) == Some(items@),
            decreases raw@.len() - i,
        {
            assert(s.subrange(0, i + 1).drop_last() =~= s.subrange(0, i as int));
            assert(s[i as int] == pair_view(raw@[i as int]));
            let e = &raw[i];
            if e.0.len() < start {
                proof {
                    lemma_decode_pairs_fail::<K, O>(self.key_start(), s, i as int);
                }
                return Err(StorageError::Undecodable);
            }
            let kb = slice_bytes(e.0.as_slice(), start, e.0.len());
            match (K::decode(kb.as_slice()), O::decode(e.1.as_slice())) {
                (Some(k), Some(o)) => {
                    items.push((k, o));
                },
                _ => {
                    proof {
                        lemma_decode_pairs_fail::<K, O>(self.key_start(), s, i as int);
                    }
                    return Err(StorageError::Undecodable);
                },
            }
            i = i + 1;
        }
        assert(s.subrange(0, i as int) =~= s);
        proof {
            lemma_decode_pairs_len::<K, O>(self.key_start(), s);
        }
        let ghost mut rs: Seq<Option<V>> = Seq::empty();
        let mut j: usize = 0;
        while j < items.len()
            invariant
                store.wf(),
                j <= items@.len(),
                items@.len() == raw@.len(),
                s == raw@.map_values(|e: (Vec<u8>, Vec<u8>)| pair_view(e)),
                keys == s.map_values(|e: (Seq<u8>, Seq<u8>)| e.0),
                forall|k: K, o: O| f.requires((k, o)),
                rs.len() == j,
                forall|t: int| 0 <= t < j ==> f.ensures((items@[t].0, items@[t].1), #[trigger] rs[t]),
                store@ == write_all(start_map, keys.subrange(0, j as int), rs),
            decreases items@.len() - j,
        {
            let (k, o) = items[j];
            let out = f(k, o);
            let ghost before = rs;
            match out {
                Some(v) => {
                    let b = v.encode();
                    store.put(raw[j].0.as_slice(), b.as_slice());
                },
                None => {
                    store.remove(raw[j].0.as_slice());
                },
            }
            proof {
                rs = rs.push(out);
                assert(rs.drop_last() =~= before);
                assert(keys.subrange(0, j + 1).drop_last() =~= keys.subrange(0, j as int));
                assert(keys[j as int] == raw@[j as int].0@);
            }
            j = j + 1;
        }
        assert(keys.subrange(0, j as int) =~= keys);
        Ok(items.len())
    }
}

/// Iterating twice over the same store, with no write in between, yields the
/// same entries in the same order.
pub proof fn lemma_map_iteration_restartable<K: Codec, V: Codec, E: Copy>(
    map: StorageMap<K, V, E>,
    first: MemoryStore,
    second: MemoryStore,
)
    requires
        first.entries() == second.entries(),
    ensures
        map.iter_spec(first) == map.iter_spec(second),
{
}

/// A value inserted at a key is read back as itself, whatever the absence policy.
pub proof fn lemma_map_insert_then_get<K: Codec, V: Codec, E: Copy>(
    map: StorageMap<K, V, E>,
    m: Map<Seq<u8>, Seq<u8>>,
    k: K,
    v: V,
)
    ensures
        map.get_spec(m.insert(map.key_spec(k), v.encode_spec()), k) == Ok::<
            Queried<V, E>,
            StorageError,
        >(Queried::Found(v)),
{
    lemma_written_reads_back(m, map.key_spec(k), v, map.query);
}

/// With a reversible hasher, the entry written for `k` and `v` decodes back to them.
pub proof fn lemma_map_entry_decodes<K: Codec, V: Codec, E: Copy>(
    map: StorageMap<K, V, E>,
    k: K,
    v: V,
)
    requires
        map.hasher.is_reversible(),
    ensures
        map.decode_entry((map.key_spec(k), v.encode_spec())) == Some((k, v)),
{
    let enc = k.encode_spec();
    let h = map.hasher.hash_spec(enc);
    let p = map.prefix_spec();
    lemma_item_prefix_len(map.module@, map.name@);
    lemma_hash_len(map.hasher, enc);
    lemma_reversible_recovers_key(map.hasher, enc);
    K::lemma_round_trip(k);
    V::lemma_round_trip(v);
    let key = p + h;
    assert(key.subrange((32 + map.hasher.digest_len()) as int, key.len() as int) =~= h.subrange(
        map.hasher.digest_len() as int,
        h.len() as int,
    ));
}

} // verus!
