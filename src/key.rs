//! Store keys: the item prefix of a module and item name, followed by the
//! hashed encodings of the key components.

use vstd::prelude::*;
use crate::bytes::append_bytes;
use crate::hashing::{lemma_xxh64_bytes_len, twox_128, twox_128_spec, Hasher};

verus! {

/// The 32 bytes that every key of an item starts with.
pub open spec fn item_prefix_spec(module: Seq<u8>, item: Seq<u8>) -> Seq<u8> {
    twox_128_spec(module) + twox_128_spec(item)
}

/// The hashed key components, in order.
pub open spec fn hashed_parts(hashers: Seq<Hasher>, keys: Seq<Seq<u8>>) -> Seq<u8>
    decreases keys.len(),
{
    if keys.len() == 0 || hashers.len() == 0 {
        Seq::empty()
    } else {
        hashed_parts(hashers.drop_last(), keys.drop_last()) + hashers.last().hash_spec(keys.last())
    }
}

/// The store key of the entry at `keys` of an item.
pub open spec fn final_key_spec(
    module: Seq<u8>,
    item: Seq<u8>,
    hashers: Seq<Hasher>,
    keys: Seq<Seq<u8>>,
) -> Seq<u8> {
    item_prefix_spec(module, item) + hashed_parts(hashers, keys)
}

pub proof fn lemma_item_prefix_len(module: Seq<u8>, item: Seq<u8>)
    ensures
        item_prefix_spec(module, item).len() == 32,
{
    lemma_xxh64_bytes_len(0, module);
    lemma_xxh64_bytes_len(1, module);
    lemma_xxh64_bytes_len(0, item);
    lemma_xxh64_bytes_len(1, item);
}

/// The item prefix depends on the module and item names alone: every store key
/// of the item starts with it, whatever key components follow.
pub proof fn lemma_item_prefix_stable(
    module: Seq<u8>,
    item: Seq<u8>,
    hashers_a: Seq<Hasher>,
    keys_a: Seq<Seq<u8>>,
    hashers_b: Seq<Hasher>,
    keys_b: Seq<Seq<u8>>,
)
    ensures
        final_key_spec(module, item, hashers_a, keys_a).subrange(0, 32) == item_prefix_spec(
            module,
            item,
        ),
        final_key_spec(module, item, hashers_a, keys_a).subrange(0, 32) == final_key_spec(
            module,
            item,
            hashers_b,
            keys_b,
        ).subrange(0, 32),
{
    lemma_item_prefix_len(module, item);
    let p = item_prefix_spec(module, item);
    assert((p + hashed_parts(hashers_a, keys_a)).subrange(0, 32) =~= p);
    assert((p + hashed_parts(hashers_b, keys_b)).subrange(0, 32) =~= p);
}

/// The hashed components split at any position into the hashed components
/// before it and those after it.
pub proof fn lemma_hashed_parts_split(hashers: Seq<Hasher>, keys: Seq<Seq<u8>>, p: int)
    requires
        hashers.len() == keys.len(),
        0 <= p <= keys.len(),
    ensures
        hashed_parts(hashers, keys) == hashed_parts(hashers.subrange(0, p), keys.subrange(0, p))
            + hashed_parts(
            hashers.subrange(p, hashers.len() as int),
            keys.subrange(p, keys.len() as int),
        ),
    decreases keys.len(),
{
    let n = keys.len() as int;
    if n == p {
        assert(hashers.subrange(0, p) =~= hashers);
        assert(keys.subrange(0, p) =~= keys);
        assert(hashed_parts(hashers.subrange(p, n), keys.subrange(p, n)) =~= Seq::empty());
        assert(hashed_parts(hashers, keys) + Seq::<u8>::empty() =~= hashed_parts(hashers, keys));
    } else {
        lemma_hashed_parts_split(hashers.drop_last(), keys.drop_last(), p);
        assert(hashers.drop_last().subrange(0, p) =~= hashers.subrange(0, p));
        assert(keys.drop_last().subrange(0, p) =~= keys.subrange(0, p));
        let hs_tail = hashers.subrange(p, n);
        let ks_tail = keys.subrange(p, n);
        assert(hs_tail.drop_last() =~= hashers.drop_last().subrange(p, n - 1));
        assert(ks_tail.drop_last() =~= keys.drop_last().subrange(p, n - 1));
        assert(hs_tail.last() == hashers.last());
        assert(ks_tail.last() == keys.last());
        let a = hashed_parts(hashers.subrange(0, p), keys.subrange(0, p));
        let b = hashed_parts(hashers.drop_last().subrange(p, n - 1), keys.drop_last().subrange(p, n - 1));
        let c = hashers.last().hash_spec(keys.last());
        assert((a + b) + c =~= a + (b + c));
    }
}

/// The item prefix: the 16-byte xxHash of the module name followed by that of
/// the item name.
pub fn item_prefix(module: &[u8], item: &[u8]) -> (r: Vec<u8>)
    ensures
        r@ == item_prefix_spec(module@, item@),
        r@.len() == 32,
{
    let mut r = twox_128(module);
    let h = twox_128(item);
    append_bytes(&mut r, h.as_slice());
    r
}

/// The store key of the entry at the encoded `keys`, each hashed with the
/// hasher at the same position.
pub fn final_key(module: &[u8], item: &[u8], hashers: &[Hasher], keys: &[Vec<u8>]) -> (r: Vec<u8>)
    requires
        hashers@.len() == keys@.len(),
    ensures
        r@ == final_key_spec(module@, item@, hashers@, keys@.map_values(|k: Vec<u8>| k@)),
{
    let ghost kv = keys@.map_values(|k: Vec<u8>| k@);
    let mut r = item_prefix(module, item);
    let ghost p = r@;
    let mut i: usize = 0;
    while i < keys.len()
        invariant
            i <= keys@.len(),
            hashers@.len() == keys@.len(),
            kv == keys@.map_values(|k: Vec<u8>| k@),
            r@ == p + hashed_parts(hashers@.subrange(0, i as int), kv.subrange(0, i as int)),
        decreases keys@.len() - i,
    {
        let h = hashers[i].hash(keys[i].as_slice());
        append_bytes(&mut r, h.as_slice());
        assert(hashers@.subrange(0, i + 1).drop_last() =~= hashers@.subrange(0, i as int));
        assert(kv.subrange(0, i + 1).drop_last() =~= kv.subrange(0, i as int));
        i = i + 1;
    }
    assert(hashers@.subrange(0, i as int) =~= hashers@);
    assert(kv.subrange(0, i as int) =~= kv);
    r
}

} // verus!
