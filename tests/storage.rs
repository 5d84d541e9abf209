use frame_storage::codec::Codec;
use frame_storage::counted::CountedStorageMap;
use frame_storage::counted_nmap::CountedStorageNMap;
use frame_storage::double_map::StorageDoubleMap;
use frame_storage::hashing::{blake2_128, blake2_256, twox_128, twox_256, twox_64, Hasher};
use frame_storage::key::{final_key, item_prefix};
use frame_storage::map::StorageMap;
use frame_storage::nmap::StorageNMap;
use frame_storage::query::{QueryKind, Queried, StorageError};
use frame_storage::store::MemoryStore;
use frame_storage::value::StorageValue;
use std::hash::Hasher as _;

fn hex(s: &str) -> Vec<u8> {
    (0..s.len()).step_by(2).map(|i| u8::from_str_radix(&s[i..i + 2], 16).unwrap()).collect()
}

fn ref_twox_128(d: &[u8]) -> Vec<u8> {
    let mut out = Vec::new();
    for seed in 0..2u64 {
        let mut h = twox_hash::XxHash64::with_seed(seed);
        h.write(d);
        out.extend_from_slice(&h.finish().to_le_bytes());
    }
    out
}

fn ref_twox_64_concat(d: &[u8]) -> Vec<u8> {
    let mut h = twox_hash::XxHash64::with_seed(0);
    h.write(d);
    let mut out = h.finish().to_le_bytes().to_vec();
    out.extend_from_slice(d);
    out
}

fn ref_blake2_128_concat(d: &[u8]) -> Vec<u8> {
    let mut out = blake2b_simd::Params::new().hash_length(16).hash(d).as_bytes().to_vec();
    out.extend_from_slice(d);
    out
}

fn prefix_of(module: &[u8], item: &[u8]) -> Vec<u8> {
    [ref_twox_128(module), ref_twox_128(item)].concat()
}

#[test]
fn twox_128_known_values() {
    assert_eq!(twox_128(b"System"), hex("26aa394eea5630e07c48ae0c9558cef7"));
    assert_eq!(twox_128(b"Sudo"), hex("5c0d1176a568c1f92944340dbfed9e9c"));
    assert_eq!(twox_128(b"Key"), hex("530ebca703c85910e7164cb7d1c9e47b"));
}

#[test]
fn item_prefix_known_value() {
    assert_eq!(
        item_prefix(b"System", b"Account"),
        hex("26aa394eea5630e07c48ae0c9558cef7b99d880ec681799c0cf30e8886371da9")
    );
}

#[test]
fn blake2_256_of_empty_input() {
    assert_eq!(
        blake2_256(b""),
        hex("0e5751c026e543b2e8ab2eb06099daa1d1e5df47778f7787faab45cdf12fe3a8")
    );
}

#[test]
fn digest_lengths_and_seeds() {
    let t64 = twox_64(b"abc");
    let t128 = twox_128(b"abc");
    let t256 = twox_256(b"abc");
    assert_eq!(t64.len(), 8);
    assert_eq!(&t128[..8], &t64[..]);
    assert_eq!(&t256[..16], &t128[..]);
    assert_eq!(t256.len(), 32);
    assert_ne!(&t128[..8], &t128[8..]);
    assert_eq!(blake2_128(b"abc").len(), 16);
    assert_ne!(blake2_128(b"abc"), blake2_128(b"abd"));
}

#[test]
fn hashers_append_the_key_when_reversible() {
    let key = [7u8, 0, 0, 0];
    assert_eq!(Hasher::Identity.hash(&key), key.to_vec());
    assert_eq!(Hasher::Twox64Concat.hash(&key), ref_twox_64_concat(&key));
    assert_eq!(Hasher::Blake2_128Concat.hash(&key), ref_blake2_128_concat(&key));
    assert_eq!(Hasher::Twox128.hash(&key), ref_twox_128(&key));
    assert_eq!(Hasher::Blake2_256.hash(&key).len(), 32);
    assert_eq!(Hasher::Twox256.hash(&key).len(), 32);
    assert_eq!(Hasher::Blake2_128.hash(&key), ref_blake2_128_concat(&key)[..16].to_vec());
}

#[test]
fn max_len_saturates() {
    assert_eq!(Hasher::Blake2_128Concat.max_len(1), 17);
    assert_eq!(Hasher::Twox64Concat.max_len(2), 10);
    assert_eq!(Hasher::Identity.max_len(4), 4);
    assert_eq!(Hasher::Blake2_256.max_len(100), 32);
    assert_eq!(Hasher::Twox64Concat.max_len(u32::MAX - 3), u32::MAX);
}

#[test]
fn storage_expand() {
    let mut store = MemoryStore::new();

    let value = StorageValue::<u32, u8>::new(b"Example", b"Value", QueryKind::ValueQuery(0));
    value.put(&mut store, 1);
    let k = prefix_of(b"Example", b"Value");
    assert_eq!(store.get(&k), Some(vec![1, 0, 0, 0]));
    assert_eq!(value.get(&store), Ok(Queried::Found(1)));

    let map = StorageMap::<u8, u16, u8>::new(
        b"Example",
        b"Map",
        Hasher::Blake2_128Concat,
        QueryKind::OptionQuery,
    );
    map.insert(&mut store, &1, &2);
    let mut k = prefix_of(b"Example", b"Map");
    k.extend(ref_blake2_128_concat(&[1u8]));
    assert_eq!(store.get(&k), Some(vec![2, 0]));
    assert_eq!(&k[..32], &map.final_prefix()[..]);
    assert_eq!(map.final_key(&1), k);
    assert_eq!(map.get(&store, &1), Ok(Queried::Found(2)));

    let map2 = StorageMap::<u16, u32, u8>::new(
        b"Example",
        b"Map2",
        Hasher::Twox64Concat,
        QueryKind::OptionQuery,
    );
    map2.insert(&mut store, &1, &2);
    let mut k = prefix_of(b"Example", b"Map2");
    k.extend(ref_twox_64_concat(&[1u8, 0]));
    assert_eq!(store.get(&k), Some(vec![2, 0, 0, 0]));
    assert_eq!(&k[..32], &map2.final_prefix()[..]);

    let map3 = StorageMap::<u32, u64, u8>::new(
        b"Example",
        b"Map3",
        Hasher::Blake2_128Concat,
        QueryKind::ResultQuery(9),
    );
    map3.insert(&mut store, &1, &2);
    let mut k = prefix_of(b"Example", b"Map3");
    k.extend(ref_blake2_128_concat(&[1u8, 0, 0, 0]));
    assert_eq!(store.get(&k), Some(vec![2, 0, 0, 0, 0, 0, 0, 0]));
    assert_eq!(map3.get(&store, &2), Ok(Queried::Failed(9)));

    let dmap = StorageDoubleMap::<u8, u16, u32, u8>::new(
        b"Example",
        b"DoubleMap",
        Hasher::Blake2_128Concat,
        Hasher::Twox64Concat,
        QueryKind::OptionQuery,
    );
    dmap.insert(&mut store, &1, &2, &3);
    let mut k = prefix_of(b"Example", b"DoubleMap");
    k.extend(ref_blake2_128_concat(&[1u8]));
    k.extend(ref_twox_64_concat(&[2u8, 0]));
    assert_eq!(store.get(&k), Some(vec![3, 0, 0, 0]));
    assert_eq!(&k[..32], &dmap.final_prefix()[..]);

    let dmap3 = StorageDoubleMap::<u32, u64, u128, u8>::new(
        b"Example",
        b"DoubleMap3",
        Hasher::Blake2_128Concat,
        Hasher::Twox64Concat,
        QueryKind::ResultQuery(4),
    );
    dmap3.insert(&mut store, &1, &2, &3);
    let mut k = prefix_of(b"Example", b"DoubleMap3");
    k.extend(ref_blake2_128_concat(&1u32.to_le_bytes()));
    k.extend(ref_twox_64_concat(&2u64.to_le_bytes()));
    assert_eq!(store.get(&k), Some(3u128.to_le_bytes().to_vec()));
    assert_eq!(dmap3.get(&store, &2, &3), Ok(Queried::Failed(4)));

    let nmap = StorageNMap::<u16, u64, u8>::new(
        b"Example",
        b"NMap2",
        vec![Hasher::Twox64Concat, Hasher::Blake2_128Concat],
        QueryKind::OptionQuery,
    );
    nmap.insert(&mut store, &vec![1, 2], &3);
    let mut k = prefix_of(b"Example", b"NMap2");
    k.extend(ref_twox_64_concat(&1u16.to_le_bytes()));
    k.extend(ref_blake2_128_concat(&2u16.to_le_bytes()));
    assert_eq!(store.get(&k), Some(3u64.to_le_bytes().to_vec()));
    assert_eq!(&k[..32], &nmap.final_prefix()[..]);
    assert_eq!(nmap.get(&store, &vec![1, 2]), Ok(Queried::Found(3)));
    assert_eq!(nmap.get(&store, &vec![2, 1]), Ok(Queried::Missing));
}

#[test]
fn final_key_of_no_components_is_the_prefix() {
    let k = final_key(b"Example", b"Value", &[], &[]);
    assert_eq!(k, prefix_of(b"Example", b"Value"));
    let k = final_key(b"Example", b"Map", &[Hasher::Identity], &[vec![5, 6]]);
    assert_eq!(k, [prefix_of(b"Example", b"Map"), vec![5, 6]].concat());
}

#[test]
fn absent_key_resolves_by_policy() {
    let store = MemoryStore::new();
    let opt = StorageMap::<u8, u16, u8>::new(b"M", b"A", Hasher::Identity, QueryKind::OptionQuery);
    let def = StorageMap::<u8, u16, u8>::new(b"M", b"A", Hasher::Identity, QueryKind::ValueQuery(42));
    let err = StorageMap::<u8, u16, u8>::new(b"M", b"A", Hasher::Identity, QueryKind::ResultQuery(3));
    assert_eq!(opt.get(&store, &1), Ok(Queried::Missing));
    assert_eq!(def.get(&store, &1), Ok(Queried::Found(42)));
    assert_eq!(err.get(&store, &1), Ok(Queried::Failed(3)));
}

#[test]
fn put_then_get_under_every_policy() {
    let mut store = MemoryStore::new();
    for kind in [QueryKind::OptionQuery, QueryKind::ValueQuery(1), QueryKind::ResultQuery(2u8)] {
        let map = StorageMap::<u64, u32, u8>::new(b"M", b"P", Hasher::Twox64Concat, kind);
        map.insert(&mut store, &10, &77);
        assert_eq!(map.get(&store, &10), Ok(Queried::Found(77)));
    }
}

#[test]
fn malformed_bytes_are_an_error_not_absence() {
    let mut store = MemoryStore::new();
    let map = StorageMap::<u8, u32, u8>::new(b"M", b"C", Hasher::Identity, QueryKind::ValueQuery(5));
    let k = map.final_key(&1);
    store.put(&k, &[1, 2]);
    assert_eq!(map.get(&store, &1), Err(StorageError::Undecodable));
    assert_eq!(map.iter(&store), Err(StorageError::Undecodable));
}

#[test]
fn remove_of_absent_key_is_a_no_op() {
    let mut store = MemoryStore::new();
    let map = StorageMap::<u8, u8, u8>::new(b"M", b"R", Hasher::Identity, QueryKind::OptionQuery);
    map.insert(&mut store, &1, &1);
    map.remove(&mut store, &2);
    assert!(map.contains_key(&store, &1));
    map.remove(&mut store, &1);
    assert!(!map.contains_key(&store, &1));
    map.remove(&mut store, &1);
    assert!(!map.contains_key(&store, &1));
}

#[test]
fn take_and_mutate() {
    let mut store = MemoryStore::new();
    let map = StorageMap::<u8, u32, u8>::new(b"M", b"T", Hasher::Twox64Concat, QueryKind::ValueQuery(0));
    let r = map.mutate(&mut store, &3, |q| match q {
        Queried::Found(v) => Some(v + 5),
        _ => None,
    });
    assert_eq!(r, Ok(Some(5)));
    assert_eq!(map.get(&store, &3), Ok(Queried::Found(5)));
    let r = map.mutate(&mut store, &3, |_| None);
    assert_eq!(r, Ok(None));
    assert!(!map.contains_key(&store, &3));
    map.insert(&mut store, &4, &8);
    assert_eq!(map.take(&mut store, &4), Ok(Queried::Found(8)));
    assert_eq!(map.take(&mut store, &4), Ok(Queried::Found(0)));

    let value = StorageValue::<u16, u8>::new(b"M", b"V", QueryKind::OptionQuery);
    assert_eq!(value.mutate(&mut store, |q| match q {
        Queried::Missing => Some(1),
        _ => Some(2),
    }), Ok(Some(1)));
    assert_eq!(value.get(&store), Ok(Queried::Found(1)));
    assert!(value.is_stored(&store));
    assert_eq!(value.take(&mut store), Ok(Queried::Found(1)));
    assert_eq!(value.get(&store), Ok(Queried::Missing));
}

#[test]
fn iteration_recovers_keys_and_restarts() {
    let mut store = MemoryStore::new();
    let map = StorageMap::<u32, u64, u8>::new(b"M", b"I", Hasher::Blake2_128Concat, QueryKind::OptionQuery);
    let other = StorageMap::<u32, u64, u8>::new(b"M", b"J", Hasher::Blake2_128Concat, QueryKind::OptionQuery);
    map.insert(&mut store, &5, &50);
    other.insert(&mut store, &6, &60);
    map.insert(&mut store, &7, &70);
    map.insert(&mut store, &5, &55);
    let first = map.iter(&store).unwrap();
    let second = map.iter(&store).unwrap();
    assert_eq!(first, vec![(5, 55), (7, 70)]);
    assert_eq!(first, second);
    assert_eq!(map.clear(&mut store), 2);
    assert_eq!(map.iter(&store).unwrap(), vec![]);
    assert_eq!(other.iter(&store).unwrap(), vec![(6, 60)]);
}

#[test]
fn double_map_prefix_iteration_and_removal() {
    let mut store = MemoryStore::new();
    let dmap = StorageDoubleMap::<u8, u16, u32, u8>::new(
        b"M",
        b"D",
        Hasher::Blake2_128,
        Hasher::Twox64Concat,
        QueryKind::OptionQuery,
    );
    dmap.insert(&mut store, &1, &10, &100);
    dmap.insert(&mut store, &2, &20, &200);
    dmap.insert(&mut store, &1, &11, &110);
    assert_eq!(dmap.iter_prefix(&store, &1), Ok(vec![(10, 100), (11, 110)]));
    assert_eq!(dmap.iter_prefix(&store, &2), Ok(vec![(20, 200)]));
    assert_eq!(dmap.clear_prefix(&mut store, &1), 2);
    assert!(!dmap.contains_key(&store, &1, &10));
    assert!(dmap.contains_key(&store, &2, &20));
    dmap.remove(&mut store, &2, &20);
    assert_eq!(dmap.get(&store, &2, &20), Ok(Queried::Missing));
}

#[test]
fn counted_map_counts_distinct_keys() {
    let mut store = MemoryStore::new();
    let map = CountedStorageMap::<u16, u32, u8>::new(b"M", b"Counted", Hasher::Twox64Concat, QueryKind::OptionQuery);
    assert_eq!(map.count(&store), 0);
    map.insert(&mut store, &12, &3);
    map.insert(&mut store, &12, &30);
    assert_eq!(map.count(&store), 1);
    assert_eq!(map.get(&store, &12), Ok(Queried::Found(30)));
    map.insert(&mut store, &13, &4);
    assert_eq!(map.count(&store), 2);
    map.remove(&mut store, &99);
    assert_eq!(map.count(&store), 2);
    map.remove(&mut store, &12);
    map.remove(&mut store, &12);
    assert_eq!(map.count(&store), 1);
    assert!(map.contains_key(&store, &13));
    map.clear(&mut store);
    assert_eq!(map.count(&store), 0);
    assert!(!map.contains_key(&store, &13));
}

#[test]
fn counted_map_counter_entry_layout() {
    let mut store = MemoryStore::new();
    let map = CountedStorageMap::<u8, u32, u8>::new(b"Example2", b"SomeCountedStorageMap", Hasher::Twox64Concat, QueryKind::OptionQuery);
    map.insert(&mut store, &10, &100);
    let ck = prefix_of(b"Example2", b"CounterForSomeCountedStorageMap");
    assert_eq!(store.get(&ck), Some(vec![1, 0, 0, 0]));
    assert_eq!(map.count(&store), 1);
}

#[test]
fn test_storage_alias() {
    let mut store = MemoryStore::new();
    let value = StorageValue::<u32, u8>::new(b"Example", b"Value", QueryKind::ValueQuery(0));
    let alias = StorageValue::<u32, u8>::new(b"Example", b"Value", QueryKind::ValueQuery(0));
    value.put(&mut store, 10);
    assert_eq!(alias.get(&store), Ok(Queried::Found(10)));

    let counted = CountedStorageMap::<u8, u32, u8>::new(b"Example2", b"SomeCountedStorageMap", Hasher::Twox64Concat, QueryKind::OptionQuery);
    let counted_alias = CountedStorageMap::<u8, u32, u8>::new(b"Example2", b"SomeCountedStorageMap", Hasher::Twox64Concat, QueryKind::OptionQuery);
    counted.insert(&mut store, &10, &100);
    assert_eq!(counted_alias.get(&store, &10), Ok(Queried::Found(100)));
    assert_eq!(counted_alias.count(&store), 1);
    assert_eq!(counted.storage_info()[0], counted_alias.storage_info()[0]);
    assert_eq!(counted.storage_info()[1], counted_alias.storage_info()[1]);
}

#[test]
fn test_storage_info() {
    let value = StorageValue::<u32, u8>::new(b"Example", b"Value", QueryKind::ValueQuery(0));
    let info = value.storage_info();
    assert_eq!(info.pallet_name, b"Example".to_vec());
    assert_eq!(info.storage_name, b"Value".to_vec());
    assert_eq!(info.prefix, prefix_of(b"Example", b"Value"));
    assert_eq!(info.max_values, Some(1));
    assert_eq!(info.max_size, Some(4));

    let value2 = StorageValue::<u64, u8>::new(b"Example", b"Value2", QueryKind::OptionQuery);
    assert_eq!(value2.storage_info().max_size, Some(8));

    let map = StorageMap::<u8, u16, u8>::new(b"Example", b"Map", Hasher::Blake2_128Concat, QueryKind::OptionQuery);
    let info = map.storage_info();
    assert_eq!(info.prefix, prefix_of(b"Example", b"Map"));
    assert_eq!(info.max_values, None);
    assert_eq!(info.max_size, Some(16 + 1 + 2));

    let map2 = StorageMap::<u16, u32, u8>::new(b"Example", b"Map2", Hasher::Twox64Concat, QueryKind::OptionQuery);
    assert_eq!(map2.storage_info().max_size, Some(8 + 2 + 4));

    let dmap = StorageDoubleMap::<u8, u16, u32, u8>::new(b"Example", b"DoubleMap", Hasher::Blake2_128Concat, Hasher::Twox64Concat, QueryKind::OptionQuery);
    assert_eq!(dmap.storage_info().max_size, Some(16 + 1 + 8 + 2 + 4));

    let counted = CountedStorageMap::<u8, u32, u8>::new(b"Example2", b"SomeCountedStorageMap", Hasher::Twox64Concat, QueryKind::OptionQuery);
    let infos = counted.storage_info();
    assert_eq!(infos.len(), 2);
    assert_eq!(infos[0].max_size, Some(8 + 1 + 4));
    assert_eq!(infos[1].prefix, prefix_of(b"Example2", b"CounterForSomeCountedStorageMap"));
    assert_eq!(infos[1].max_values, Some(1));
    assert_eq!(infos[1].max_size, Some(4));
}

#[test]
fn raw_store_prefix_operations() {
    let mut store = MemoryStore::new();
    store.put(&[1, 2, 3], &[9]);
    store.put(&[1, 2], &[8]);
    store.put(&[2], &[7]);
    store.put(&[1, 2, 3], &[6]);
    assert_eq!(store.get(&[1, 2, 3]), Some(vec![6]));
    assert_eq!(
        store.iter_prefix(&[1]),
        vec![(vec![1, 2, 3], vec![6]), (vec![1, 2], vec![8])]
    );
    assert_eq!(store.remove_prefix(&[1, 2]), 2);
    assert_eq!(store.get(&[1, 2]), None);
    assert_eq!(store.get(&[2]), Some(vec![7]));
    assert!(store.contains(&[2]));
    store.remove(&[2]);
    assert!(!store.contains(&[2]));
}

#[test]
fn map_translate_changes_value_width() {
    let mut store = MemoryStore::new();
    let old_map = StorageMap::<u16, u32, u8>::new(b"M", b"X", Hasher::Twox64Concat, QueryKind::OptionQuery);
    let new_map = StorageMap::<u16, u64, u8>::new(b"M", b"X", Hasher::Twox64Concat, QueryKind::OptionQuery);
    old_map.insert(&mut store, &1, &10);
    old_map.insert(&mut store, &2, &20);
    old_map.insert(&mut store, &3, &30);
    let r = new_map.translate(&mut store, |k: u16, v: u32| {
        if k == 2 { None } else { Some(v as u64 * 1000 + k as u64) }
    });
    assert_eq!(r, Ok(3));
    assert_eq!(new_map.get(&store, &1), Ok(Queried::Found(10001)));
    assert_eq!(new_map.get(&store, &2), Ok(Queried::Missing));
    assert_eq!(new_map.get(&store, &3), Ok(Queried::Found(30003)));
    assert_eq!(store.get(&new_map.final_key(&1)).unwrap().len(), 8);
    assert_eq!(new_map.iter(&store), Ok(vec![(1, 10001), (3, 30003)]));
}

#[test]
fn map_translate_leaves_store_on_undecodable_entry() {
    let mut store = MemoryStore::new();
    let map = StorageMap::<u8, u16, u8>::new(b"M", b"Y", Hasher::Identity, QueryKind::OptionQuery);
    map.insert(&mut store, &1, &5);
    store.put(&map.final_key(&2), &[1, 2, 3]);
    let r = map.translate(&mut store, |_k: u8, v: u16| Some(v + 1));
    assert_eq!(r, Err(StorageError::Undecodable));
    assert_eq!(map.get(&store, &1), Ok(Queried::Found(5)));
}

#[test]
fn value_translate_from_older_type() {
    let mut store = MemoryStore::new();
    let old_value = StorageValue::<u8, u8>::new(b"M", b"Z", QueryKind::OptionQuery);
    let new_value = StorageValue::<u32, u8>::new(b"M", b"Z", QueryKind::ValueQuery(0));
    assert_eq!(new_value.translate(&mut store, |o: Option<u8>| o.map(|x| x as u32)), Ok(None));
    assert!(!new_value.is_stored(&store));
    old_value.put(&mut store, 7);
    assert_eq!(new_value.translate(&mut store, |o: Option<u8>| o.map(|x| x as u32 + 300)), Ok(Some(307)));
    assert_eq!(new_value.get(&store), Ok(Queried::Found(307)));
    assert_eq!(
        new_value.translate(&mut store, |o: Option<u8>| o.map(|x| x as u32)),
        Err(StorageError::Undecodable)
    );
    assert_eq!(new_value.get(&store), Ok(Queried::Found(307)));
    new_value.kill(&mut store);
    assert_eq!(new_value.get(&store), Ok(Queried::Found(0)));
}

#[test]
fn default_bytes_for_metadata() {
    assert_eq!(QueryKind::<u32, u8>::ValueQuery(258).default_bytes(), Some(vec![2, 1, 0, 0]));
    assert_eq!(QueryKind::<u32, u8>::OptionQuery.default_bytes(), None);
    assert_eq!(QueryKind::<u32, u8>::ResultQuery(1).default_bytes(), None);
}

#[test]
fn codec_round_trips_and_rejects_wrong_lengths() {
    assert_eq!(Codec::encode(&0x0102u16), vec![2, 1]);
    assert_eq!(<u16 as Codec>::decode(&[2, 1]), Some(0x0102));
    assert_eq!(<u16 as Codec>::decode(&[2, 1, 0]), None);
    assert_eq!(<u32 as Codec>::decode(&[1, 0, 0]), None);
    assert_eq!(<u8 as Codec>::decode(&[]), None);
    assert_eq!(<u128 as Codec>::decode(&u128::MAX.to_le_bytes()), Some(u128::MAX));
    assert_eq!(Codec::encode(&u64::MAX), vec![255; 8]);
    assert_eq!(<u64 as Codec>::width_exec(), 8);
}

#[test]
fn nmap_iteration_by_partial_key() {
    let mut store = MemoryStore::new();
    let nmap = StorageNMap::<u16, u32, u8>::new(
        b"M",
        b"N3",
        vec![Hasher::Blake2_128, Hasher::Twox64Concat, Hasher::Blake2_128Concat],
        QueryKind::OptionQuery,
    );
    nmap.insert(&mut store, &vec![1, 2, 3], &123);
    nmap.insert(&mut store, &vec![1, 2, 4], &124);
    nmap.insert(&mut store, &vec![1, 5, 6], &156);
    nmap.insert(&mut store, &vec![2, 2, 3], &223);
    assert_eq!(nmap.iter_prefix(&store, &vec![1, 2]), Ok(vec![(vec![3], 123), (vec![4], 124)]));
    assert_eq!(
        nmap.iter_prefix(&store, &vec![1]),
        Ok(vec![(vec![2, 3], 123), (vec![2, 4], 124), (vec![5, 6], 156)])
    );
    assert_eq!(nmap.iter_prefix(&store, &vec![1, 5, 6]), Ok(vec![(vec![], 156)]));
    assert_eq!(nmap.iter_prefix(&store, &vec![3]), Ok(vec![]));
    assert_eq!(nmap.take(&mut store, &vec![1, 2, 3]), Ok(Queried::Found(123)));
    assert_eq!(
        nmap.mutate(&mut store, &vec![1, 2, 4], |q| match q {
            Queried::Found(v) => Some(v + 1),
            _ => None,
        }),
        Ok(Some(125))
    );
    assert_eq!(nmap.iter_prefix(&store, &vec![1, 2]), Ok(vec![(vec![4], 125)]));
    assert!(nmap.contains_key(&store, &vec![2, 2, 3]));
    assert_eq!(nmap.clear(&mut store), 3);
    assert!(!nmap.contains_key(&store, &vec![2, 2, 3]));
}

#[test]
fn double_map_take_mutate_clear() {
    let mut store = MemoryStore::new();
    let dmap = StorageDoubleMap::<u8, u8, u16, u8>::new(
        b"M",
        b"DD",
        Hasher::Twox64Concat,
        Hasher::Identity,
        QueryKind::ValueQuery(7),
    );
    assert_eq!(dmap.get(&store, &1, &1), Ok(Queried::Found(7)));
    assert_eq!(
        dmap.mutate(&mut store, &1, &1, |q| match q {
            Queried::Found(v) => Some(v * 2),
            _ => None,
        }),
        Ok(Some(14))
    );
    dmap.insert(&mut store, &2, &1, &3);
    assert_eq!(dmap.take(&mut store, &1, &1), Ok(Queried::Found(14)));
    assert!(!dmap.contains_key(&store, &1, &1));
    assert_eq!(dmap.clear(&mut store), 1);
    assert_eq!(dmap.get(&store, &2, &1), Ok(Queried::Found(7)));
}

#[test]
fn double_map_full_iteration() {
    let mut store = MemoryStore::new();
    let dmap = StorageDoubleMap::<u16, u32, u8, u8>::new(
        b"M",
        b"Full",
        Hasher::Blake2_128Concat,
        Hasher::Twox64Concat,
        QueryKind::OptionQuery,
    );
    dmap.insert(&mut store, &1, &10, &5);
    dmap.insert(&mut store, &2, &20, &6);
    dmap.insert(&mut store, &1, &11, &7);
    assert_eq!(dmap.iter(&store), Ok(vec![(1, 10, 5), (2, 20, 6), (1, 11, 7)]));
    assert_eq!(dmap.iter(&store), dmap.iter(&store));
    store.put(&dmap.final_key(&3, &30), &[1, 2]);
    assert_eq!(dmap.iter(&store), Err(StorageError::Undecodable));
}

#[test]
fn counted_nmap_overwrite_counts_once() {
    let mut store = MemoryStore::new();
    let map = CountedStorageNMap::<u8, u32, u8>::new(
        b"M",
        b"CountedPairs",
        vec![Hasher::Blake2_128Concat, Hasher::Twox64Concat],
        QueryKind::OptionQuery,
    );
    assert_eq!(map.count(&store), 0);
    map.insert(&mut store, &vec![1, 2], &3);
    map.insert(&mut store, &vec![1, 2], &30);
    assert_eq!(map.count(&store), 1);
    assert_eq!(map.get(&store, &vec![1, 2]), Ok(Queried::Found(30)));
    map.insert(&mut store, &vec![2, 1], &4);
    assert_eq!(map.count(&store), 2);
    map.remove(&mut store, &vec![9, 9]);
    assert_eq!(map.count(&store), 2);
    map.remove(&mut store, &vec![1, 2]);
    assert_eq!(map.count(&store), 1);
    assert!(!map.contains_key(&store, &vec![1, 2]));
    assert_eq!(store.get(&prefix_of(b"M", b"CounterForCountedPairs")), Some(vec![1, 0, 0, 0]));
}

#[test]
fn double_map_translate_changes_value_width() {
    let mut store = MemoryStore::new();
    let old_map = StorageDoubleMap::<u8, u16, u16, u8>::new(b"M", b"DT", Hasher::Twox64Concat, Hasher::Blake2_128Concat, QueryKind::OptionQuery);
    let new_map = StorageDoubleMap::<u8, u16, u64, u8>::new(b"M", b"DT", Hasher::Twox64Concat, Hasher::Blake2_128Concat, QueryKind::OptionQuery);
    old_map.insert(&mut store, &1, &10, &5);
    old_map.insert(&mut store, &2, &20, &6);
    let r = new_map.translate(&mut store, |a: u8, b: u16, v: u16| {
        if a == 2 { None } else { Some(v as u64 + b as u64 * 1000) }
    });
    assert_eq!(r, Ok(2));
    assert_eq!(new_map.get(&store, &1, &10), Ok(Queried::Found(10005)));
    assert_eq!(new_map.get(&store, &2, &20), Ok(Queried::Missing));
    assert_eq!(store.get(&new_map.final_key(&1, &10)).unwrap().len(), 8);
    store.put(&new_map.final_key(&3, &30), &[1]);
    let r = new_map.translate(&mut store, |_a: u8, _b: u16, v: u64| Some(v + 1));
    assert_eq!(r, Err(StorageError::Undecodable));
    assert_eq!(new_map.get(&store, &1, &10), Ok(Queried::Found(10005)));
}

#[test]
fn nmap_translate_changes_value_width() {
    let mut store = MemoryStore::new();
    let hashers = vec![Hasher::Identity, Hasher::Twox64Concat];
    let old_map = StorageNMap::<u16, u8, u8>::new(b"M", b"NT", hashers.clone(), QueryKind::OptionQuery);
    let new_map = StorageNMap::<u16, u32, u8>::new(b"M", b"NT", hashers, QueryKind::OptionQuery);
    old_map.insert(&mut store, &vec![1, 2], &3);
    old_map.insert(&mut store, &vec![4, 5], &6);
    let r = new_map.translate(&mut store, |ks: Vec<u16>, v: u8| {
        if ks[0] == 4 { None } else { Some(v as u32 + ks[1] as u32 * 100) }
    });
    assert_eq!(r, Ok(2));
    assert_eq!(new_map.get(&store, &vec![1, 2]), Ok(Queried::Found(203)));
    assert_eq!(new_map.get(&store, &vec![4, 5]), Ok(Queried::Missing));
    assert_eq!(new_map.iter_prefix(&store, &vec![]), Ok(vec![(vec![1, 2], 203)]));
}

#[test]
fn nmap_storage_info_sums_hashed_keys() {
    let nmap = StorageNMap::<u16, u64, u8>::new(
        b"Example",
        b"NMap2",
        vec![Hasher::Twox64Concat, Hasher::Blake2_128Concat],
        QueryKind::OptionQuery,
    );
    let info = nmap.storage_info();
    assert_eq!(info.pallet_name, b"Example".to_vec());
    assert_eq!(info.storage_name, b"NMap2".to_vec());
    assert_eq!(info.prefix, prefix_of(b"Example", b"NMap2"));
    assert_eq!(info.max_values, None);
    assert_eq!(info.max_size, Some(8 + 2 + 16 + 2 + 8));

    let counted = CountedStorageNMap::<u8, u32, u8>::new(
        b"Example",
        b"Pairs",
        vec![Hasher::Blake2_128Concat, Hasher::Twox64Concat],
        QueryKind::OptionQuery,
    );
    let infos = counted.storage_info();
    assert_eq!(infos.len(), 2);
    assert_eq!(infos[0].max_size, Some(16 + 1 + 8 + 1 + 4));
    assert_eq!(infos[1].storage_name, b"CounterForPairs".to_vec());
    assert_eq!(infos[1].prefix, prefix_of(b"Example", b"CounterForPairs"));
    assert_eq!(infos[1].max_values, Some(1));
    assert_eq!(infos[1].max_size, Some(4));
}
