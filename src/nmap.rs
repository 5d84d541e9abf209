//! An N-key map item: entries at the item prefix followed by each hashed key.

use vstd::prelude::*;
use crate::bytes::{copy_bytes, slice_bytes};
use crate::codec::Codec;
use crate::info::{saturate, StorageInfo};
use crate::hashing::{lemma_hash_len, lemma_reversible_recovers_key, Hasher};
use crate::key::{
    final_key, final_key_spec, hashed_parts, item_prefix, item_prefix_spec, lemma_hashed_parts_split,
    lemma_item_prefix_len,
};
use crate::query::{lemma_written_reads_back, resolve, resolve_spec, QueryKind, Queried, StorageError};
use crate::store::{lookup, pair_view, with_prefix, without_prefix, MemoryStore};
use crate::value::write_opt;
use crate::map::write_all;

verus! {

/// A storage item mapping tuples of keys of type `K`, one per hasher, to values
/// of type `V`.
pub struct StorageNMap<K, V, E> {
    pub module: Vec<u8>,
    pub name: Vec<u8>,
    pub hashers: Vec<Hasher>,
    pub query: QueryKind<V, E>,
    pub marker: Ghost<K>,
}

pub open spec fn encodings<K: Codec>(keys: Seq<K>) -> Seq<Seq<u8>> {
    keys.map_values(|k: K| k.encode_spec())
}

/// The keys encoded in `rest`, one after the digest of each hasher in turn,
/// if `rest` holds exactly that.
pub open spec fn split_keys<K: Codec>(hashers: Seq<Hasher>, rest: Seq<u8>) -> Option<Seq<K>>
    decreases hashers.len(),
{
    if hashers.len() == 0 {
        if rest.len() == 0 {
            Some(Seq::empty())
        } else {
            None
        }
    } else {
        let d = hashers[0].digest_len();
        let w = K::width();
        if rest.len() < d + w {
            None
        } else {
            match (
                K::decode_spec(rest.subrange(d as int, (d + w) as int)),
                split_keys::<K>(hashers.drop_first(), rest.subrange((d + w) as int, rest.len() as int)),
            ) {
                (Some(k), Some(t)) => Some(seq![k] + t),
                _ => None,
            }
        }
    }
}

impl<K: Codec, V: Codec, E: Copy> StorageNMap<K, V, E> {
    pub open spec fn prefix_spec(&self) -> Seq<u8> {
        item_prefix_spec(self.module@, self.name@)
    }

    pub open spec fn key_spec(&self, keys: Seq<K>) -> Seq<u8> {
        final_key_spec(self.module@, self.name@, self.hashers@, encodings(keys))
    }

    pub open spec fn get_spec(&self, m: Map<Seq<u8>, Seq<u8>>, keys: Seq<K>) -> Result<
        Queried<V, E>,
        StorageError,
    > {
        resolve_spec(lookup(m, self.key_spec(keys)), self.query)
    }

    pub fn new(module: &[u8], name: &[u8], hashers: Vec<Hasher>, query: QueryKind<V, E>) -> (r: Self)
        ensures
            r.module@ == module@,
            r.name@ == name@,
            r.hashers@ == hashers@,
            r.query == query,
    {
        StorageNMap {
            module: copy_bytes(module),
            name: copy_bytes(name),
            hashers,
            query,
            marker: Ghost(arbitrary()),
        }
    }

    pub fn final_prefix(&self) -> (r: Vec<u8>)
        ensures
            r@ == self.prefix_spec(),
    {
        item_prefix(self.module.as_slice(), self.name.as_slice())
    }

    /// The store key of the entry at `keys`, one key per hasher.
    pub fn final_key(&self, keys: &Vec<K>) -> (r: Vec<u8>)
        requires
            keys@.len() == self.hashers@.len(),
        ensures
            r@ == self.key_spec(keys@),
    {
        let mut enc: Vec<Vec<u8>> = Vec::new();
        let mut i: usize = 0;
        while i < keys.len()
            invariant
                i <= keys@.len(),
                enc@.map_values(|b: Vec<u8>| b@) == encodings(keys@.subrange(0, i as int)),
            decreases keys@.len() - i,
        {
            let e = keys[i].encode();
            let ghost before = enc@.map_values(|b: Vec<u8>| b@);
            enc.push(e);
            assert(enc@.map_values(|b: Vec<u8>| b@) =~= before.push(keys@[i as int].encode_spec()));
            assert(encodings(keys@.subrange(0, i + 1)) =~= encodings(keys@.subrange(0, i as int)).push(
                keys@[i as int].encode_spec(),
            ));
            i = i + 1;
        }
        assert(keys@.subrange(0, i as int) =~= keys@);
        final_key(self.module.as_slice(), self.name.as_slice(), self.hashers.as_slice(), enc.as_slice())
    }

    pub fn get(&self, store: &MemoryStore, keys: &Vec<K>) -> (r: Result<Queried<V, E>, StorageError>)
        requires
            store.wf(),
            keys@.len() == self.hashers@.len(),
        ensures
            r == self.get_spec(store@, keys@),
    {
        let key = self.final_key(keys);
        resolve(store.get(key.as_slice()), &self.query)
    }

    pub fn insert(&self, store: &mut MemoryStore, keys: &Vec<K>, v: &V)
        requires
            old(store).wf(),
            keys@.len() == self.hashers@.len(),
        ensures
            final(store).wf(),
            final(store)@ == old(store)@.insert(self.key_spec(keys@), v.encode_spec()),
    {
        let key = self.final_key(keys);
        let b = v.encode();
        store.put(key.as_slice(), b.as_slice());
    }

    pub fn remove(&self, store: &mut MemoryStore, keys: &Vec<K>)
        requires
            old(store).wf(),
            keys@.len() == self.hashers@.len(),
        ensures
            final(store).wf(),
            final(store)@ == old(store)@.remove(self.key_spec(keys@)),
    {
        let key = self.final_key(keys);
        store.remove(key.as_slice());
    }

    pub fn contains_key(&self, store: &MemoryStore, keys: &Vec<K>) -> (r: bool)
        requires
            store.wf(),
            keys@.len() == self.hashers@.len(),
        ensures
            r == store@.contains_key(self.key_spec(keys@)),
    {
        let key = self.final_key(keys);
        store.contains(key.as_slice())
    }
}

impl<K: Codec, V: Codec, E: Copy> StorageNMap<K, V, E> {
    /// Reads the value at `keys`, then removes it.
    pub fn take(&self, store: &mut MemoryStore, keys: &Vec<K>) -> (r: Result<Queried<V, E>, StorageError>)
        requires
            old(store).wf(),
            keys@.len() == self.hashers@.len(),
        ensures
            final(store).wf(),
            r == self.get_spec(old(store)@, keys@),
            final(store)@ == old(store)@.remove(self.key_spec(keys@)),
    {
        let r = self.get(store, keys);
        self.remove(store, keys);
        r
    }

    /// Reads the value at `keys`, hands it to `f`, and writes what `f` returns
    /// (`None` removes the entry). An undecodable value leaves the store as it was.
    pub fn mutate<F: FnOnce(Queried<V, E>) -> Option<V>>(
        &self,
        store: &mut MemoryStore,
        keys: &Vec<K>,
        f: F,
    ) -> (r: Result<Option<V>, StorageError>)
        requires
            old(store).wf(),
            keys@.len() == self.hashers@.len(),
            forall|q: Queried<V, E>| f.requires((q,)),
        ensures
            final(store).wf(),
            match self.get_spec(old(store)@, keys@) {
                Err(e) => r == Err::<Option<V>, StorageError>(e) && final(store)@ == old(store)@,
                Ok(q) => match r {
                    Ok(o) => f.ensures((q,), o) && final(store)@ == write_opt(
                        old(store)@,
                        self.key_spec(keys@),
                        o,
                    ),
                    Err(_) => false,
                },
            },
    {
        match self.get(store, keys) {
            Err(e) => Err(e),
            Ok(q) => {
                let o = f(q);
                match o {
                    Some(v) => self.insert(store, keys, &v),
                    None => self.remove(store, keys),
                }
                Ok(o)
            },
        }
    }

    /// Removes every entry of the map; returns how many there were.
    pub fn clear(&self, store: &mut MemoryStore) -> (r: usize)
        requires
            old(store).wf(),
        ensures
            final(store).wf(),
            final(store)@ == without_prefix(old(store)@, self.prefix_spec()),
            r == with_prefix(old(store).entries(), self.prefix_spec()).len(),
    {
        let p = self.final_prefix();
        store.remove_prefix(p.as_slice())
    }
}

impl<K: Codec, V: Codec, E: Copy> StorageNMap<K, V, E> {
    /// The bytes that every key starting with the keys `partial` starts with.
    pub open spec fn partial_prefix(&self, partial: Seq<K>) -> Seq<u8> {
        final_key_spec(
            self.module@,
            self.name@,
            self.hashers@.subrange(0, partial.len() as int),
            encodings(partial),
        )
    }

    /// The remaining keys and the value of an entry under a partial key whose
    /// prefix is `plen` bytes long, if it decodes.
    pub open spec fn decode_entry<X: Codec>(
        &self,
        plen: nat,
        rest_hashers: Seq<Hasher>,
        e: (Seq<u8>, Seq<u8>),
    ) -> Option<(Seq<K>, X)> {
        if e.0.len() < plen {
            None
        } else {
            match (
                split_keys::<K>(rest_hashers, e.0.subrange(plen as int, e.0.len() as int)),
                X::decode_spec(e.1),
            ) {
                (Some(ks), Some(v)) => Some((ks, v)),
                _ => None,
            }
        }
    }

    pub open spec fn decode_entries<X: Codec>(
        &self,
        plen: nat,
        rest_hashers: Seq<Hasher>,
        s: Seq<(Seq<u8>, Seq<u8>)>,
    ) -> Option<Seq<(Seq<K>, X)>>
        decreases s.len(),
    {
        if s.len() == 0 {
            Some(Seq::empty())
        } else {
            match (
                self.decode_entries::<X>(plen, rest_hashers, s.drop_last()),
                self.decode_entry::<X>(plen, rest_hashers, s.last()),
            ) {
                (Some(a), Some(x)) => Some(a.push(x)),
                _ => None,
            }
        }
    }

    /// What iteration under the keys `partial` yields on `store`.
    pub open spec fn iter_prefix_spec(&self, store: MemoryStore, partial: Seq<K>) -> Option<
        Seq<(Seq<K>, V)>,
    > {
        self.decode_entries::<V>(
            self.partial_prefix(partial).len(),
            self.hashers@.subrange(partial.len() as int, self.hashers@.len() as int),
            with_prefix(store.entries(), self.partial_prefix(partial)),
        )
    }

    proof fn lemma_decode_fails_later<X: Codec>(
        &self,
        plen: nat,
        rest_hashers: Seq<Hasher>,
        s: Seq<(Seq<u8>, Seq<u8>)>,
        i: int,
    )
        requires
            0 <= i < s.len(),
            self.decode_entry::<X>(plen, rest_hashers, s[i]) is None,
        ensures
            self.decode_entries::<X>(plen, rest_hashers, s) is None,
        decreases s.len(),
    {
        if i < s.len() - 1 {
            self.lemma_decode_fails_later::<X>(plen, rest_hashers, s.drop_last(), i);
        }
    }

    /// Splits `rest` into keys, one after the digest of each of `hashers[from..]`.
    fn split_rest(&self, from: usize, rest: &[u8]) -> (r: Option<Vec<K>>)
        requires
            from <= self.hashers@.len(),
        ensures
            match r {
                Some(ks) => split_keys::<K>(
                    self.hashers@.subrange(from as int, self.hashers@.len() as int),
                    rest@,
                ) == Some(ks@),
                None => split_keys::<K>(
                    self.hashers@.subrange(from as int, self.hashers@.len() as int),
                    rest@,
                ) is None,
            },
    {
        proof {
            K::lemma_width();
        }
        let ghost hs = self.hashers@;
        let n = self.hashers.len();
        let w = K::width_exec() as usize;
        let mut out: Vec<K> = Vec::new();
        let mut off: usize = 0;
        let mut i: usize = from;
        proof {
            assert(rest@.subrange(0, rest@.len() as int) =~= rest@);
            assert forall|t: Seq<K>| Seq::<K>::empty() + t == t by {
                assert(Seq::<K>::empty() + t =~= t);
            }
        }
        while i < n
            invariant
                from <= i <= n,
                n == hs.len(),
                hs == self.hashers@,
                w == K::width(),
                1 <= w <= 64,
                off <= rest@.len(),
                split_keys::<K>(hs.subrange(from as int, n as int), rest@) == match split_keys::<K>(
                    hs.subrange(i as int, n as int),
                    rest@.subrange(off as int, rest@.len() as int),
                ) {
                    Some(t) => Some(out@ + t),
                    None => None::<Seq<K>>,
                },
            decreases n - i,
        {
            let d = self.hashers[i].digest_len_exec();
            let ghost tail = rest@.subrange(off as int, rest@.len() as int);
            let ghost hsi = hs.subrange(i as int, n as int);
            assert(hsi[0] == hs[i as int]);
            assert(hsi.drop_first() =~= hs.subrange(i + 1, n as int));
            if rest.len() - off < d + w {
                return None;
            }
            let kb = slice_bytes(rest, off + d, off + d + w);
            assert(kb@ =~= tail.subrange(d as int, (d + w) as int));
            assert(tail.subrange((d + w) as int, tail.len() as int) =~= rest@.subrange(
                (off + d + w) as int,
                rest@.len() as int,
            ));
            match K::decode(kb.as_slice()) {
                None => {
                    return None;
                },
                Some(k) => {
                    let ghost before = out@;
                    out.push(k);
                    proof {
                        match split_keys::<K>(
                            hs.subrange(i + 1, n as int),
                            rest@.subrange((off + d + w) as int, rest@.len() as int),
                        ) {
                            Some(t) => {
                                assert(before + (seq![k] + t) =~= out@ + t);
                            },
                            None => {},
                        }
                    }
                },
            }
            off = off + d + w;
            i = i + 1;
        }
        if off < rest.len() {
            return None;
        }
        assert(out@ + Seq::<K>::empty() =~= out@);
        Some(out)
    }

    /// The entries whose first keys are `partial`, in store order, with the
    /// remaining keys recovered from the store keys. The hashers after the
    /// partial key must be reversible.
    pub fn iter_prefix(&self, store: &MemoryStore, partial: &Vec<K>) -> (r: Result<
        Vec<(Vec<K>, V)>,
        StorageError,
    >)
        requires
            store.wf(),
            partial@.len() <= self.hashers@.len(),
            forall|j: int|
                partial@.len() <= j < self.hashers@.len() ==> (#[trigger] self.hashers@[j]).is_reversible(),
        ensures
            match r {
                Ok(items) => self.iter_prefix_spec(*store, partial@) == Some(
                    items@.map_values(|e: (Vec<K>, V)| (e.0@, e.1)),
                ),
                Err(e) => self.iter_prefix_spec(*store, partial@) is None && e
                    == StorageError::Undecodable,
            },
    {
        let p = partial.len();
        let mut first: Vec<Hasher> = Vec::new();
        let mut enc: Vec<Vec<u8>> = Vec::new();
        let mut j: usize = 0;
        while j < p
            invariant
                j <= p,
                p == partial@.len(),
                p <= self.hashers@.len(),
                first@ == self.hashers@.subrange(0, j as int),
                enc@.map_values(|b: Vec<u8>| b@) == encodings(partial@.subrange(0, j as int)),
            decreases p - j,
        {
            first.push(self.hashers[j]);
            let e = partial[j].encode();
            let ghost before = enc@.map_values(|b: Vec<u8>| b@);
            enc.push(e);
            assert(enc@.map_values(|b: Vec<u8>| b@) =~= before.push(partial@[j as int].encode_spec()));
            assert(encodings(partial@.subrange(0, j + 1)) =~= encodings(partial@.subrange(0, j as int)).push(
                partial@[j as int].encode_spec(),
            ));
            assert(first@ =~= self.hashers@.subrange(0, j + 1));
            j = j + 1;
        }
        assert(partial@.subrange(0, p as int) =~= partial@);
        let prefix = final_key(self.module.as_slice(), self.name.as_slice(), first.as_slice(), enc.as_slice());
        let plen = prefix.len();
        let ghost rest_hashers = self.hashers@.subrange(p as int, self.hashers@.len() as int);
        let raw = store.iter_prefix(prefix.as_slice());
        let ghost s = raw@.map_values(|e: (Vec<u8>, Vec<u8>)| pair_view(e));
        let mut out: Vec<(Vec<K>, V)> = Vec::new();
        let mut i: usize = 0;
        while i < raw.len()
            invariant
                i <= raw@.len(),
                p <= self.hashers@.len(),
                p == partial@.len(),
                plen == self.partial_prefix(partial@).len(),
                rest_hashers == self.hashers@.subrange(p as int, self.hashers@.len() as int),
                s == raw@.map_values(|e: (Vec<u8>, Vec<u8>)| pair_view(e)),
                s == with_prefix(store.entries(), self.partial_prefix(partial@)),
                self.decode_entries::<V>(plen as nat, rest_hashers, s.subrange(0, i as int)) == Some(
                    out@.map_values(|e: (Vec<K>, V)| (e.0@, e.1)),
                ),
            decreases raw@.len() - i,
        {
            assert(s.subrange(0, i + 1).drop_last() =~= s.subrange(0, i as int));
            assert(s[i as int] == pair_view(raw@[i as int]));
            let e = &raw[i];
            let mut decoded: Option<(Vec<K>, V)> = None;
            if e.0.len() >= plen {
                let rest = slice_bytes(e.0.as_slice(), plen, e.0.len());
                match (self.split_rest(p, rest.as_slice()), V::decode(e.1.as_slice())) {
                    (Some(ks), Some(v)) => {
                        decoded = Some((ks, v));
                    },
                    _ => {},
                }
            }
            match decoded {
                Some(kv) => {
                    let ghost before = out@.map_values(|e: (Vec<K>, V)| (e.0@, e.1));
                    out.push(kv);
                    assert(out@.map_values(|e: (Vec<K>, V)| (e.0@, e.1)) =~= before.push(
                        (kv.0@, kv.1),
                    ));
                },
                None => {
                    proof {
                        assert(self.decode_entry::<V>(plen as nat, rest_hashers, s[i as int]) is None);
                        self.lemma_decode_fails_later::<V>(plen as nat, rest_hashers, s, i as int);
                    }
                    return Err(StorageError::Undecodable);
                },
            }
            i = i + 1;
        }
        assert(s.subrange(0, i as int) =~= s);
        Ok(out)
    }
}

/// A fresh vector holding the keys of `keys`.
fn copy_keys<K: Codec>(keys: &Vec<K>) -> (r: Vec<K>)
    ensures
        r@ == keys@,
{
    let mut r: Vec<K> = Vec::new();
    let mut i: usize = 0;
    while i < keys.len()
        invariant
            i <= keys@.len(),
            r@ == keys@.subrange(0, i as int),
        decreases keys@.len() - i,
    {
        r.push(keys[i]);
        i = i + 1;
        assert(r@ =~= keys@.subrange(0, i as int));
    }
    assert(keys@.subrange(0, i as int) =~= keys@);
    r
}

impl<K: Codec, V: Codec, E: Copy> StorageNMap<K, V, E> {
    /// Rewrites every entry of the map: its value, decoded as the old type `O`,
    /// is handed to `f` with the keys, and what `f` returns is written back in
    /// place (`None` removes the entry). Every hasher must be reversible. If an
    /// entry does not decode, the store is left as it was. Returns how many
    /// entries were visited.
    pub fn translate<O: Codec, F: Fn(Vec<K>, O) -> Option<V>>(&self, store: &mut MemoryStore, f: F) -> (r:
        Result<usize, StorageError>)
        requires
            old(store).wf(),
            forall|j: int| 0 <= j < self.hashers@.len() ==> (#[trigger] self.hashers@[j]).is_reversible(),
            forall|ks: Vec<K>, o: O| f.requires((ks, o)),
        ensures
            final(store).wf(),
            match self.decode_entries::<O>(
                32,
                self.hashers@,
                with_prefix(old(store).entries(), self.prefix_spec()),
            ) {
                None => r == Err::<usize, StorageError>(StorageError::Undecodable) && final(store)@
                    == old(store)@,
                Some(items) => r == Ok::<usize, StorageError>(items.len() as usize) && exists|
                    kvs: Seq<Vec<K>>,
                    rs: Seq<Option<V>>,
                |
                    kvs.len() == items.len() && rs.len() == items.len() && (forall|i: int|
                        0 <= i < items.len() ==> (#[trigger] kvs[i])@ == items[i].0 && f.ensures(
                            (kvs[i], items[i].1),
                            rs[i],
                        )) && final(store)@ == write_all(
                        old(store)@,
                        with_prefix(old(store).entries(), self.prefix_spec()).map_values(
                            |e: (Seq<u8>, Seq<u8>)| e.0,
                        ),
                        rs,
                    ),
            },
    {
        proof {
            lemma_item_prefix_len(self.module@, self.name@);
        }
        let ghost start_map = store@;
        let p = self.final_prefix();
        let raw = store.iter_prefix(p.as_slice());
        let ghost s = raw@.map_values(|e: (Vec<u8>, Vec<u8>)| pair_view(e));
        let ghost keys = s.map_values(|e: (Seq<u8>, Seq<u8>)| e.0);
        let ghost hs = self.hashers@;
        assert(hs.subrange(0, hs.len() as int) =~= hs);
        let mut items: Vec<(Vec<K>, O)> = Vec::new();
        let mut i: usize = 0;
        while i < raw.len()
            invariant
                i <= raw@.len(),
                store.wf(),
                store@ == start_map,
                p@.len() == 32,
                hs == self.hashers@,
                hs.subrange(0, hs.len() as int) == hs,
                s == raw@.map_values(|e: (Vec<u8>, Vec<u8>)| pair_view(e)),
                s == with_prefix(store.entries(), self.prefix_spec()),
                self.decode_entries::<O>(32, hs, s.subrange(0, i as int)) == Some(
                    items@.map_values(|e: (Vec<K>, O)| (e.0@, e.1)),
                ),
            decreases raw@.len() - i,
        {
            assert(s.subrange(0, i + 1).drop_last() =~= s.subrange(0, i as int));
            assert(s[i as int] == pair_view(raw@[i as int]));
            let e = &raw[i];
            let mut decoded: Option<(Vec<K>, O)> = None;
            if e.0.len() >= 32 {
                let rest = slice_bytes(e.0.as_slice(), 32, e.0.len());
                match (self.split_rest(0, rest.as_slice()), O::decode(e.1.as_slice())) {
                    (Some(ks), Some(o)) => {
                        decoded = Some((ks, o));
                    },
                    _ => {},
                }
            }
            match decoded {
                Some(kv) => {
                    let ghost before = items@.map_values(|e: (Vec<K>, O)| (e.0@, e.1));
                    items.push(kv);
                    assert(items@.map_values(|e: (Vec<K>, O)| (e.0@, e.1)) =~= before.push(
                        (kv.0@, kv.1),
                    ));
                },
                None => {
                    proof {
                        assert(self.decode_entry::<O>(32, hs, s[i as int]) is None);
                        self.lemma_decode_fails_later::<O>(32, hs, s, i as int);
                    }
                    return Err(StorageError::Undecodable);
                },
            }
            i = i + 1;
        }
        assert(s.subrange(0, i as int) =~= s);
        let ghost iv = items@.map_values(|e: (Vec<K>, O)| (e.0@, e.1));
        proof {
            self.lemma_decode_entries_len::<O>(32, hs, s);
        }
        let ghost mut rs: Seq<Option<V>> = Seq::empty();
        let ghost mut kvs: Seq<Vec<K>> = Seq::empty();
        let mut j: usize = 0;
        while j < items.len()
            invariant
                store.wf(),
                j <= items@.len(),
                items@.len() == raw@.len(),
                iv == items@.map_values(|e: (Vec<K>, O)| (e.0@, e.1)),
                s == raw@.map_values(|e: (Vec<u8>, Vec<u8>)| pair_view(e)),
                keys == s.map_values(|e: (Seq<u8>, Seq<u8>)| e.0),
                forall|ks: Vec<K>, o: O| f.requires((ks, o)),
                rs.len() == j,
                kvs.len() == j,
                forall|t: int|
                    0 <= t < j ==> (#[trigger] kvs[t])@ == iv[t].0 && f.ensures((kvs[t], iv[t].1), rs[t]),
                store@ == write_all(start_map, keys.subrange(0, j as int), rs),
            decreases items@.len() - j,
        {
            let ks = copy_keys(&items[j].0);
            let o = items[j].1;
            let ghost kc = ks;
            let out = f(ks, o);
            let ghost before = rs;
            match out {
                Some(v) => {
                    let b = v.encode();
                    store.put(raw[j].0.as_slice(), b.as_slice());
                },
                None => {
                    store.remove(raw[j].0.as_slice());
                },
            }
            proof {
                rs = rs.push(out);
                kvs = kvs.push(kc);
                assert(rs.drop_last() =~= before);
                assert(keys.subrange(0, j + 1).drop_last() =~= keys.subrange(0, j as int));
                assert(keys[j as int] == raw@[j as int].0@);
            }
            j = j + 1;
        }
        assert(keys.subrange(0, j as int) =~= keys);
        Ok(items.len())
    }

    proof fn lemma_decode_entries_len<X: Codec>(
        &self,
        plen: nat,
        rest_hashers: Seq<Hasher>,
        s: Seq<(Seq<u8>, Seq<u8>)>,
    )
        ensures
            self.decode_entries::<X>(plen, rest_hashers, s) is Some ==> self.decode_entries::<X>(
                plen,
                rest_hashers,
                s,
            ).unwrap().len() == s.len(),
        decreases s.len(),
    {
        if s.len() > 0 {
            self.lemma_decode_entries_len::<X>(plen, rest_hashers, s.drop_last());
        }
    }
}

/// The largest hashed length of keys of `width` bytes under each of `hashers`,
/// summed with saturation at `u32::MAX`.
pub open spec fn keys_max_len(hashers: Seq<Hasher>, width: nat) -> nat
    decreases hashers.len(),
{
    if hashers.len() == 0 {
        0
    } else {
        saturate(
            keys_max_len(hashers.drop_last(), width) + saturate(hashers.last().hashed_len_spec(width)),
        )
    }
}

impl<K: Codec, V: Codec, E: Copy> StorageNMap<K, V, E> {
    /// Whether `r` describes this item: unbounded entries, each of at most the
    /// hashed keys and the value, saturating at `u32::MAX`.
    pub open spec fn info_spec(&self, r: StorageInfo) -> bool {
        &&& r.pallet_name@ == self.module@
        &&& r.storage_name@ == self.name@
        &&& r.prefix@ == self.prefix_spec()
        &&& r.max_values is None
        &&& r.max_size == Some(saturate(keys_max_len(self.hashers@, K::width()) + V::width()) as u32)
    }

    /// Unbounded entries, each of at most the hashed keys and the value,
    /// saturating at `u32::MAX`.
    pub fn storage_info(&self) -> (r: StorageInfo)
        ensures
            self.info_spec(r),
    {
        let w = K::width_exec();
        let mut keys_len: u32 = 0;
        let mut i: usize = 0;
        while i < self.hashers.len()
            invariant
                i <= self.hashers@.len(),
                w == K::width(),
                keys_len == keys_max_len(self.hashers@.subrange(0, i as int), K::width()),
            decreases self.hashers@.len() - i,
        {
            assert(self.hashers@.subrange(0, i + 1).drop_last() =~= self.hashers@.subrange(0, i as int));
            keys_len = keys_len.saturating_add(self.hashers[i].max_len(w));
            i = i + 1;
        }
        assert(self.hashers@.subrange(0, i as int) =~= self.hashers@);
        StorageInfo {
            pallet_name: copy_bytes(self.module.as_slice()),
            storage_name: copy_bytes(self.name.as_slice()),
            prefix: self.final_prefix(),
            max_values: None,
            max_size: Some(keys_len.saturating_add(V::width_exec())),
        }
    }
}

/// A value inserted at a tuple of keys is read back as itself.
pub proof fn lemma_nmap_insert_then_get<K: Codec, V: Codec, E: Copy>(
    map: StorageNMap<K, V, E>,
    m: Map<Seq<u8>, Seq<u8>>,
    keys: Seq<K>,
    v: V,
)
    ensures
        map.get_spec(m.insert(map.key_spec(keys), v.encode_spec()), keys) == Ok::<
            Queried<V, E>,
            StorageError,
        >(Queried::Found(v)),
{
    lemma_written_reads_back(m, map.key_spec(keys), v, map.query);
}

/// Keys hashed with reversible hashers are split back out of their hashed bytes.
pub proof fn lemma_split_keys_recovers<K: Codec>(hashers: Seq<Hasher>, keys: Seq<K>)
    requires
        hashers.len() == keys.len(),
        forall|j: int| 0 <= j < hashers.len() ==> (#[trigger] hashers[j]).is_reversible(),
    ensures
        split_keys::<K>(hashers, hashed_parts(hashers, encodings(keys))) == Some(keys),
    decreases keys.len(),
{
    let es = encodings(keys);
    if keys.len() == 0 {
        assert(keys =~= Seq::<K>::empty());
    } else {
        let n = keys.len() as int;
        lemma_hashed_parts_split(hashers, es, 1);
        let h0 = hashers[0];
        let e0 = keys[0].encode_spec();
        let head_h = hashers.subrange(0, 1);
        let head_e = es.subrange(0, 1);
        assert(head_h.drop_last() =~= Seq::<Hasher>::empty());
        assert(head_e.drop_last() =~= Seq::<Seq<u8>>::empty());
        assert(head_h.last() == h0);
        assert(head_e.last() == e0);
        assert(hashed_parts(Seq::<Hasher>::empty(), Seq::<Seq<u8>>::empty()) =~= Seq::<u8>::empty());
        assert(hashed_parts(head_h, head_e) == hashed_parts(
            Seq::<Hasher>::empty(),
            Seq::<Seq<u8>>::empty(),
        ) + h0.hash_spec(e0));
        assert(hashed_parts(head_h, head_e) =~= h0.hash_spec(e0));
        let tail_h = hashers.subrange(1, n);
        assert(tail_h =~= hashers.drop_first());
        assert(es.subrange(1, n) =~= encodings(keys.drop_first()));
        lemma_split_keys_recovers::<K>(hashers.drop_first(), keys.drop_first());
        K::lemma_round_trip(keys[0]);
        lemma_hash_len(h0, e0);
        lemma_reversible_recovers_key(h0, e0);
        let hash0 = h0.hash_spec(e0);
        let tail = hashed_parts(hashers.drop_first(), encodings(keys.drop_first()));
        let rest = hash0 + tail;
        let d = h0.digest_len();
        let w = K::width();
        assert(rest.subrange(d as int, (d + w) as int) =~= hash0.subrange(d as int, hash0.len() as int));
        assert(rest.subrange((d + w) as int, rest.len() as int) =~= tail);
        assert(seq![keys[0]] + keys.drop_first() =~= keys);
    }
}

/// An entry written at `keys` is found under its first `p` keys, and decodes
/// back to the remaining keys and the value, when the hashers from position
/// `p` on are reversible.
pub proof fn lemma_nmap_entry_decodes<K: Codec, V: Codec, E: Copy>(
    map: StorageNMap<K, V, E>,
    keys: Seq<K>,
    p: int,
    v: V,
)
    requires
        keys.len() == map.hashers@.len(),
        0 <= p <= keys.len(),
        forall|j: int| p <= j < map.hashers@.len() ==> (#[trigger] map.hashers@[j]).is_reversible(),
    ensures
        map.key_spec(keys).subrange(0, map.partial_prefix(keys.subrange(0, p)).len() as int)
            == map.partial_prefix(keys.subrange(0, p)),
        map.decode_entry::<V>(
            map.partial_prefix(keys.subrange(0, p)).len(),
            map.hashers@.subrange(p, map.hashers@.len() as int),
            (map.key_spec(keys), v.encode_spec()),
        ) == Some((keys.subrange(p, keys.len() as int), v)),
{
    let hs = map.hashers@;
    let n = keys.len() as int;
    let es = encodings(keys);
    lemma_hashed_parts_split(hs, es, p);
    assert(es.subrange(0, p) =~= encodings(keys.subrange(0, p)));
    assert(es.subrange(p, n) =~= encodings(keys.subrange(p, n)));
    let pre = map.partial_prefix(keys.subrange(0, p));
    let tail = hashed_parts(hs.subrange(p, n), encodings(keys.subrange(p, n)));
    let full = map.key_spec(keys);
    assert(full =~= pre + tail);
    assert(full.subrange(0, pre.len() as int) =~= pre);
    assert(full.subrange(pre.len() as int, full.len() as int) =~= tail);
    let rest_hs = hs.subrange(p, n);
    assert forall|j: int| 0 <= j < rest_hs.len() implies (#[trigger] rest_hs[j]).is_reversible() by {
        assert(rest_hs[j] == hs[p + j]);
    }
    lemma_split_keys_recovers::<K>(rest_hs, keys.subrange(p, n));
    V::lemma_round_trip(v);
}

} // verus!
