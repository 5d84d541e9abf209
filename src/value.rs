//! A single-value item: one store entry at the item prefix.

use vstd::prelude::*;
use crate::bytes::copy_bytes;
use crate::codec::Codec;
use crate::info::StorageInfo;
use crate::key::{item_prefix, item_prefix_spec};
use crate::query::{lemma_written_reads_back, resolve, resolve_spec, QueryKind, Queried, StorageError};
use crate::store::{lookup, MemoryStore};

verus! {

/// A storage item holding one value of type `V`.
pub struct StorageValue<V, E> {
    pub module: Vec<u8>,
    pub name: Vec<u8>,
    pub query: QueryKind<V, E>,
}

/// The contents after writing `o` at `key`: `Some` writes the encoding, `None` removes.
pub open spec fn write_opt<V: Codec>(m: Map<Seq<u8>, Seq<u8>>, key: Seq<u8>, o: Option<V>) -> Map<
    Seq<u8>,
    Seq<u8>,
> {
    match o {
        Some(v) => m.insert(key, v.encode_spec()),
        None => m.remove(key),
    }
}

impl<V: Codec, E: Copy> StorageValue<V, E> {
    pub open spec fn key_spec(&self) -> Seq<u8> {
        item_prefix_spec(self.module@, self.name@)
    }

    /// What a read returns on the store contents `m`.
    pub open spec fn get_spec(&self, m: Map<Seq<u8>, Seq<u8>>) -> Result<Queried<V, E>, StorageError> {
        resolve_spec(lookup(m, self.key_spec()), self.query)
    }

    pub fn new(module: &[u8], name: &[u8], query: QueryKind<V, E>) -> (r: Self)
        ensures
            r.module@ == module@,
            r.name@ == name@,
            r.query == query,
    {
        StorageValue { module: copy_bytes(module), name: copy_bytes(name), query }
    }

    /// The store key of the value.
    pub fn final_key(&self) -> (r: Vec<u8>)
        ensures
            r@ == self.key_spec(),
    {
        item_prefix(self.module.as_slice(), self.name.as_slice())
    }

    /// Reads the value, resolving absence by the item's policy.
    pub fn get(&self, store: &MemoryStore) -> (r: Result<Queried<V, E>, StorageError>)
        requires
            store.wf(),
        ensures
            r == self.get_spec(store@),
    {
        let k = self.final_key();
        resolve(store.get(k.as_slice()), &self.query)
    }

    /// Writes `v`.
    pub fn put(&self, store: &mut MemoryStore, v: V)
        requires
            old(store).wf(),
        ensures
            final(store).wf(),
            final(store)@ == old(store)@.insert(self.key_spec(), v.encode_spec()),
    {
        let k = self.final_key();
        let b = v.encode();
        store.put(k.as_slice(), b.as_slice());
    }

    /// Removes the value; nothing happens if it is absent.
    pub fn kill(&self, store: &mut MemoryStore)
        requires
            old(store).wf(),
        ensures
            final(store).wf(),
            final(store)@ == old(store)@.remove(self.key_spec()),
    {
        let k = self.final_key();
        store.remove(k.as_slice());
    }

    /// Whether a value is stored.
    pub fn is_stored(&self, store: &MemoryStore) -> (r: bool)
        requires
            store.wf(),
        ensures
            r == store@.contains_key(self.key_spec()),
    {
        let k = self.final_key();
        store.contains(k.as_slice())
    }

    /// Reads the value, then removes it.
    pub fn take(&self, store: &mut MemoryStore) -> (r: Result<Queried<V, E>, StorageError>)
        requires
            old(store).wf(),
        ensures
            final(store).wf(),
            r == self.get_spec(old(store)@),
            final(store)@ == old(store)@.remove(self.key_spec()),
    {
        let r = self.get(store);
        self.kill(store);
        r
    }

    /// Reads the value, hands it to `f`, and writes what `f` returns
    /// (`None` removes the value). An undecodable value leaves the store as it was.
    pub fn mutate<F: FnOnce(Queried<V, E>) -> Option<V>>(&self, store: &mut MemoryStore, f: F) -> (r:
        Result<Option<V>, StorageError>)
        requires
            old(store).wf(),
            forall|q: Queried<V, E>| f.requires((q,)),
        ensures
            final(store).wf(),
            match self.get_spec(old(store)@) {
                Err(e) => r == Err::<Option<V>, StorageError>(e) && final(store)@ == old(store)@,
                Ok(q) => match r {
                    Ok(o) => f.ensures((q,), o) && final(store)@ == write_opt(
                        old(store)@,
                        self.key_spec(),
                        o,
                    ),
                    Err(_) => false,
                },
            },
    {
        match self.get(store) {
            Err(e) => Err(e),
            Ok(q) => {
                let o = f(q);
                match o {
                    Some(v) => self.put(store, v),
                    None => self.kill(store),
                }
                Ok(o)
            },
        }
    }
}

impl<V: Codec, E: Copy> StorageValue<V, E> {
    /// Whether `r` describes this item: one entry of at most the value's width.
    pub open spec fn info_spec(&self, r: StorageInfo) -> bool {
        &&& r.pallet_name@ == self.module@
        &&& r.storage_name@ == self.name@
        &&& r.prefix@ == self.key_spec()
        &&& r.max_values == Some(1u32)
        &&& r.max_size == Some(V::width() as u32)
    }

    /// One entry of at most the value's width.
    pub fn storage_info(&self) -> (r: StorageInfo)
        ensures
            self.info_spec(r),
    {
        StorageInfo {
            pallet_name: copy_bytes(self.module.as_slice()),
            storage_name: copy_bytes(self.name.as_slice()),
            prefix: self.final_key(),
            max_values: Some(1),
            max_size: Some(V::width_exec()),
        }
    }
}

impl<V: Codec, E: Copy> StorageValue<V, E> {
    /// Rewrites the value from an older type `O`: the stored bytes, decoded as
    /// `O` (`None` if absent), are handed to `f`, and what `f` returns is written
    /// (`None` removes the value). Bytes that do not decode as `O` leave the store
    /// as it was.
    pub fn translate<O: Codec, F: FnOnce(Option<O>) -> Option<V>>(
        &self,
        store: &mut MemoryStore,
        f: F,
    ) -> (r: Result<Option<V>, StorageError>)
        requires
            old(store).wf(),
            forall|o: Option<O>| f.requires((o,)),
        ensures
            final(store).wf(),
            match lookup(old(store)@, self.key_spec()) {
                None => match r {
                    Ok(n) => f.ensures((None::<O>,), n) && final(store)@ == write_opt(
                        old(store)@,
                        self.key_spec(),
                        n,
                    ),
                    Err(_) => false,
                },
                Some(b) => match O::decode_spec(b) {
                    None => r == Err::<Option<V>, StorageError>(StorageError::Undecodable)
                        && final(store)@ == old(store)@,
                    Some(o) => match r {
                        Ok(n) => f.ensures((Some(o),), n) && final(store)@ == write_opt(
                            old(store)@,
                            self.key_spec(),
                            n,
                        ),
                        Err(_) => false,
                    },
                },
            },
    {
        let k = self.final_key();
        let old_value = match store.get(k.as_slice()) {
            None => None,
            Some(b) => match O::decode(b.as_slice()) {
                None => return Err(StorageError::Undecodable),
                Some(o) => Some(o),
            },
        };
        let n = f(old_value);
        match n {
            Some(v) => self.put(store, v),
            None => self.kill(store),
        }
        Ok(n)
    }
}

/// A value put is read back as itself, whatever the absence policy.
pub proof fn lemma_value_put_then_get<V: Codec, E: Copy>(
    item: StorageValue<V, E>,
    m: Map<Seq<u8>, Seq<u8>>,
    v: V,
)
    ensures
        item.get_spec(m.insert(item.key_spec(), v.encode_spec())) == Ok::<
            Queried<V, E>,
            StorageError,
        >(Queried::Found(v)),
{
    lemma_written_reads_back(m, item.key_spec(), v, item.query);
}

} // verus!
