//! The storage version ledger: per module, the schema version that the store
//! holds, and the upgrade steps that bring it to the version of the code.

use vstd::prelude::*;
use vstd::string::StringSliceAdditionalSpecFns;
use crate::codec::Codec;
use crate::key::{item_prefix, item_prefix_spec};
use crate::store::{lookup, with_prefix, without_prefix, MemoryStore};
use crate::hashing::{twox_128, twox_128_spec};

verus! {

/// Item name under which a module's storage version is kept.
pub const STORAGE_VERSION_POSTFIX: &'static str = ":__STORAGE_VERSION__:";

/// Item name of the older, unversioned marker that a module may still carry.
pub const PALLET_VERSION_POSTFIX: &'static str = ":__PALLET_VERSION__:";

/// Why an upgrade stopped without changing the store.
#[derive(Clone, Copy, Debug, PartialEq, Eq)]
pub enum UpgradeError {
    /// The stored version is newer than the code's.
    Downgrade { on_chain: u16, in_code: u16 },
    /// The version record does not decode.
    Undecodable,
}

/// What a check after an upgrade found wrong.
#[derive(Clone, Copy, Debug, PartialEq, Eq)]
pub enum VersionCheckError {
    /// The stored version differs from the code's: a migration is missing.
    Mismatch { on_chain: u16, in_code: u16 },
    /// A version is stored for a module that declares none.
    UnexpectedVersion,
    /// The version record does not decode.
    Undecodable,
}

pub open spec fn version_key_spec(module: Seq<u8>) -> Seq<u8> {
    item_prefix_spec(module, STORAGE_VERSION_POSTFIX.spec_bytes())
}

pub open spec fn legacy_key_spec(module: Seq<u8>) -> Seq<u8> {
    item_prefix_spec(module, PALLET_VERSION_POSTFIX.spec_bytes())
}

/// The stored version of `module`: zero when there is no record, `None` when
/// the record does not decode.
pub open spec fn on_chain_spec(m: Map<Seq<u8>, Seq<u8>>, module: Seq<u8>) -> Option<u16> {
    match lookup(m, version_key_spec(module)) {
        None => Some(0),
        Some(b) => u16::decode_spec(b),
    }
}

/// The store key of the version record of `module`.
pub fn version_key(module: &[u8]) -> (r: Vec<u8>)
    ensures
        r@ == version_key_spec(module@),
{
    item_prefix(module, STORAGE_VERSION_POSTFIX.as_bytes())
}

/// The store key of the legacy marker of `module`.
pub fn legacy_key(module: &[u8]) -> (r: Vec<u8>)
    ensures
        r@ == legacy_key_spec(module@),
{
    item_prefix(module, PALLET_VERSION_POSTFIX.as_bytes())
}

/// The version that the store holds for `module`; zero when none is recorded.
pub fn on_chain_version(store: &MemoryStore, module: &[u8]) -> (r: Option<u16>)
    requires
        store.wf(),
    ensures
        r == on_chain_spec(store@, module@),
{
    let k = version_key(module);
    match store.get(k.as_slice()) {
        None => Some(0),
        Some(b) => u16::decode(b.as_slice()),
    }
}

/// Records `version` as the stored version of `module`.
pub fn set_version(store: &mut MemoryStore, module: &[u8], version: u16)
    requires
        old(store).wf(),
    ensures
        final(store).wf(),
        final(store)@ == old(store)@.insert(version_key_spec(module@), version.encode_spec()),
        on_chain_spec(final(store)@, module@) == Some(version),
{
    let k = version_key(module);
    let b = version.encode();
    store.put(k.as_slice(), b.as_slice());
    proof {
        u16::lemma_round_trip(version);
    }
}

/// Whether the store holds a version record for `module`.
pub fn version_exists(store: &MemoryStore, module: &[u8]) -> (r: bool)
    requires
        store.wf(),
    ensures
        r == store@.contains_key(version_key_spec(module@)),
{
    let k = version_key(module);
    store.contains(k.as_slice())
}

/// A storage migration that a module runs during an upgrade, moving the stored
/// schema from one version to a later one.
pub trait Migration {
    /// The stored version that this migration applies to.
    spec fn from_spec(&self) -> u16;

    /// The version that the store holds once it has run.
    spec fn to_spec(&self) -> u16;

    /// How the migration may change the store contents from `pre` to `post`.
    spec fn effect(&self, pre: Map<Seq<u8>, Seq<u8>>, post: Map<Seq<u8>, Seq<u8>>) -> bool;

    fn from_version(&self) -> (r: u16)
        ensures
            r == self.from_spec(),
    ;

    fn to_version(&self) -> (r: u16)
        ensures
            r == self.to_spec(),
    ;

    /// Rewrites the store; returns the weight it used.
    fn migrate(&self, store: &mut MemoryStore) -> (w: u64)
        requires
            old(store).wf(),
        ensures
            final(store).wf(),
            self.effect(old(store)@, final(store)@),
    ;
}

/// A migration that removes every entry of one storage item, charging
/// `write_weight` per entry removed.
pub struct RemoveStorage {
    pub module: Vec<u8>,
    pub name: Vec<u8>,
    pub from: u16,
    pub to: u16,
    pub write_weight: u64,
}

impl Migration for RemoveStorage {
    open spec fn from_spec(&self) -> u16 {
        self.from
    }

    open spec fn to_spec(&self) -> u16 {
        self.to
    }

    open spec fn effect(&self, pre: Map<Seq<u8>, Seq<u8>>, post: Map<Seq<u8>, Seq<u8>>) -> bool {
        post == without_prefix(pre, item_prefix_spec(self.module@, self.name@))
    }

    fn from_version(&self) -> (r: u16) {
        self.from
    }

    fn to_version(&self) -> (r: u16) {
        self.to
    }

    fn migrate(&self, store: &mut MemoryStore) -> (w: u64) {
        let n = self.remove_entries(store);
        let mut w: u64 = 0;
        let mut i: usize = 0;
        while i < n
            invariant
                i <= n,
            decreases n - i,
        {
            w = w.saturating_add(self.write_weight);
            i = i + 1;
        }
        w
    }
}

impl RemoveStorage {
    /// Removes the entries of the item and reports how many there were.
    pub fn remove_entries(&self, store: &mut MemoryStore) -> (r: usize)
        requires
            old(store).wf(),
        ensures
            final(store).wf(),
            final(store)@ == without_prefix(
                old(store)@,
                item_prefix_spec(self.module@, self.name@),
            ),
            r == with_prefix(old(store).entries(), item_prefix_spec(self.module@, self.name@)).len(),
    {
        let p = item_prefix(self.module.as_slice(), self.name.as_slice());
        store.remove_prefix(p.as_slice())
    }
}

/// `a + b`, or `u64::MAX` when it does not fit.
pub open spec fn sat_add(a: u64, b: u64) -> u64 {
    if a + b > u64::MAX {
        u64::MAX
    } else {
        (a + b) as u64
    }
}

/// The saturating sum of `ws`, added in order.
pub open spec fn sat_sum(ws: Seq<u64>) -> u64
    decreases ws.len(),
{
    if ws.len() == 0 {
        0
    } else {
        sat_add(sat_sum(ws.drop_last()), ws.last())
    }
}

/// Whether migration `m` runs when the version reached so far is `current`:
/// it starts there and ends after it, at most at `in_code`.
pub open spec fn applies<M: Migration>(m: M, current: u16, in_code: u16) -> bool {
    m.from_spec() == current && current < m.to_spec() && m.to_spec() <= in_code
}

/// The version reached after the first `n` migrations, starting from `start`.
pub open spec fn reached<M: Migration>(migs: Seq<M>, start: u16, in_code: u16, n: nat) -> u16
    decreases n,
{
    if n == 0 {
        start
    } else {
        let cur = reached(migs, start, in_code, (n - 1) as nat);
        if applies(migs[n - 1], cur, in_code) {
            migs[n - 1].to_spec()
        } else {
            cur
        }
    }
}

/// The first `n` steps of an upgrade of `module`, from version `start`:
/// `states[i]` is the store before step `i`. A migration that applies has its
/// effect, taking `states[i]` to `mids[i]`, reports weight `ws[i]`, and then
/// the version it reaches is recorded; any other leaves the store alone and
/// weighs nothing.
pub open spec fn upgrade_steps<M: Migration>(
    migs: Seq<M>,
    module: Seq<u8>,
    in_code: u16,
    start: u16,
    states: Seq<Map<Seq<u8>, Seq<u8>>>,
    mids: Seq<Map<Seq<u8>, Seq<u8>>>,
    ws: Seq<u64>,
    n: nat,
) -> bool {
    &&& n <= migs.len()
    &&& states.len() == n + 1
    &&& mids.len() == n
    &&& ws.len() == n
    &&& forall|i: int|
        0 <= i < n ==> if applies(migs[i], reached(migs, start, in_code, i as nat), in_code) {
            &&& migs[i].effect(#[trigger] states[i], mids[i])
            &&& states[i + 1] == mids[i].insert(
                version_key_spec(module),
                migs[i].to_spec().encode_spec(),
            )
        } else {
            &&& states[i + 1] == states[i]
            &&& ws[i] == 0
        }
}

/// What an upgrade of `module` to version `in_code` with `migs` does, from the
/// contents `pre` to `post`, with result `r`: nothing when the versions already
/// agree; an error and nothing else on a newer or undecodable stored version;
/// otherwise each migration in the given order runs if it applies, the version
/// it reaches being recorded at once, then `in_code` is recorded, and the
/// result is the saturating sum of the reported weights.
pub open spec fn upgrade_spec<M: Migration>(
    pre: Map<Seq<u8>, Seq<u8>>,
    post: Map<Seq<u8>, Seq<u8>>,
    module: Seq<u8>,
    in_code: u16,
    migs: Seq<M>,
    r: Result<u64, UpgradeError>,
) -> bool {
    match on_chain_spec(pre, module) {
        None => r == Err::<u64, UpgradeError>(UpgradeError::Undecodable) && post == pre,
        Some(v) => if v > in_code {
            r == Err::<u64, UpgradeError>(UpgradeError::Downgrade { on_chain: v, in_code })
                && post == pre
        } else if v == in_code {
            r == Ok::<u64, UpgradeError>(0) && post == pre
        } else {
            &&& on_chain_spec(post, module) == Some(in_code)
            &&& exists|
                states: Seq<Map<Seq<u8>, Seq<u8>>>,
                mids: Seq<Map<Seq<u8>, Seq<u8>>>,
                ws: Seq<u64>,
            |
                {
                    &&& upgrade_steps(migs, module, in_code, v, states, mids, ws, migs.len())
                    &&& states[0] == pre
                    &&& post == states.last().insert(version_key_spec(module), in_code.encode_spec())
                    &&& r == Ok::<u64, UpgradeError>(sat_sum(ws))
                }
        },
    }
}

/// Brings the stored schema of `module` to version `in_code`. Each migration,
/// taken in the given order, runs if it starts at the version reached so far
/// and ends after it, at most at `in_code`; one out of that order is skipped.
/// The version a migration reaches is recorded as soon as it returns, so an
/// interrupted upgrade resumes where it stopped. Then `in_code` is recorded.
/// Returns the saturating sum of the weights the migrations reported.
pub fn run_upgrade<M: Migration>(
    store: &mut MemoryStore,
    module: &[u8],
    in_code: u16,
    migrations: &Vec<M>,
) -> (r: Result<u64, UpgradeError>)
    requires
        old(store).wf(),
    ensures
        final(store).wf(),
        upgrade_spec(old(store)@, final(store)@, module@, in_code, migrations@, r),
{
    let on_chain = match on_chain_version(store, module) {
        None => return Err(UpgradeError::Undecodable),
        Some(v) => v,
    };
    if on_chain > in_code {
        return Err(UpgradeError::Downgrade { on_chain, in_code });
    }
    if on_chain == in_code {
        return Ok(0);
    }
    let ghost migs = migrations@;
    let ghost mut states: Seq<Map<Seq<u8>, Seq<u8>>> = seq![store@];
    let ghost mut mids: Seq<Map<Seq<u8>, Seq<u8>>> = Seq::empty();
    let ghost mut ws: Seq<u64> = Seq::empty();
    let mut current: u16 = on_chain;
    let mut weight: u64 = 0;
    let mut i: usize = 0;
    while i < migrations.len()
        invariant
            store.wf(),
            i <= migrations@.len(),
            migs == migrations@,
            current == reached(migs, on_chain, in_code, i as nat),
            upgrade_steps(migs, module@, in_code, on_chain, states, mids, ws, i as nat),
            states[0] == old(store)@,
            store@ == states.last(),
            weight == sat_sum(ws),
        decreases migrations@.len() - i,
    {
        let m = &migrations[i];
        let from = m.from_version();
        let to = m.to_version();
        let ghost before = store@;
        let ghost os = states;
        let ghost om = mids;
        let ghost ow = ws;
        if from == current && current < to && to <= in_code {
            let w = m.migrate(store);
            let ghost mid = store@;
            weight = weight.saturating_add(w);
            current = to;
            set_version(store, module, current);
            proof {
                mids = mids.push(mid);
                ws = ws.push(w);
            }
        } else {
            proof {
                mids = mids.push(before);
                ws = ws.push(0);
            }
        }
        proof {
            states = states.push(store@);
            assert(ws.drop_last() =~= ow);
            assert forall|j: int| 0 <= j < i + 1 implies if applies(
                migs[j],
                reached(migs, on_chain, in_code, j as nat),
                in_code,
            ) {
                &&& migs[j].effect(#[trigger] states[j], mids[j])
                &&& states[j + 1] == mids[j].insert(
                    version_key_spec(module@),
                    migs[j].to_spec().encode_spec(),
                )
            } else {
                &&& states[j + 1] == states[j]
                &&& ws[j] == 0
            } by {
                if j < i {
                    assert(states[j] == os[j]);
                    assert(states[j + 1] == os[j + 1]);
                    assert(mids[j] == om[j]);
                    assert(ws[j] == ow[j]);
                } else {
                    assert(states[j] == os.last());
                }
            }
        }
        i = i + 1;
    }
    set_version(store, module, in_code);
    assert(upgrade_steps(migs, module@, in_code, on_chain, states, mids, ws, migs.len()));
    Ok(weight)
}

/// Running an upgrade a second time, right after one that succeeded, changes
/// nothing and reports no weight.
pub proof fn lemma_upgrade_idempotent<M: Migration>(
    s0: Map<Seq<u8>, Seq<u8>>,
    s1: Map<Seq<u8>, Seq<u8>>,
    s2: Map<Seq<u8>, Seq<u8>>,
    module: Seq<u8>,
    in_code: u16,
    migs: Seq<M>,
    w1: u64,
    r2: Result<u64, UpgradeError>,
)
    requires
        upgrade_spec(s0, s1, module, in_code, migs, Ok(w1)),
        upgrade_spec(s1, s2, module, in_code, migs, r2),
    ensures
        s2 == s1,
        r2 == Ok::<u64, UpgradeError>(0),
        on_chain_spec(s2, module) == Some(in_code),
{
    if on_chain_spec(s0, module) == Some(in_code) {
        assert(s1 == s0);
    }
}

/// The contents after the legacy marker of `module` is replaced by a version
/// record holding `in_code`.
pub open spec fn legacy_migrated(m: Map<Seq<u8>, Seq<u8>>, module: Seq<u8>, in_code: u16) -> Map<
    Seq<u8>,
    Seq<u8>,
> {
    m.remove(legacy_key_spec(module)).insert(version_key_spec(module), in_code.encode_spec())
}

/// Removes the legacy marker of `module` and records `in_code` as its version,
/// in one step; returns the weight of the two writes.
pub fn migrate_legacy_version(
    store: &mut MemoryStore,
    module: &[u8],
    in_code: u16,
    write_weight: u64,
) -> (w: u64)
    requires
        old(store).wf(),
    ensures
        final(store).wf(),
        final(store)@ == legacy_migrated(old(store)@, module@, in_code),
        on_chain_spec(final(store)@, module@) == Some(in_code),
        w == write_weight.saturating_add(write_weight),
{
    let k = legacy_key(module);
    store.remove(k.as_slice());
    set_version(store, module, in_code);
    write_weight.saturating_add(write_weight)
}

pub open spec fn legacy_all_migrated(
    m: Map<Seq<u8>, Seq<u8>>,
    modules: Seq<(Seq<u8>, u16)>,
) -> Map<Seq<u8>, Seq<u8>>
    decreases modules.len(),
{
    if modules.len() == 0 {
        m
    } else {
        let before = legacy_all_migrated(m, modules.drop_last());
        legacy_migrated(before, modules.last().0, modules.last().1)
    }
}

/// The weight of `n` modules at two writes of `write_weight` each, summed
/// with saturation.
pub open spec fn legacy_weight(n: nat, write_weight: u64) -> u64
    decreases n,
{
    if n == 0 {
        0
    } else {
        let before = legacy_weight((n - 1) as nat, write_weight);
        let step = if write_weight + write_weight > u64::MAX {
            u64::MAX as int
        } else {
            write_weight + write_weight
        };
        if before + step > u64::MAX {
            u64::MAX
        } else {
            (before + step) as u64
        }
    }
}

pub open spec fn module_view(e: (Vec<u8>, u16)) -> (Seq<u8>, u16) {
    (e.0@, e.1)
}

/// Moves every listed module, given with the version of its code, from the
/// legacy marker to a version record; returns the summed weight, two writes
/// per module, saturating.
pub fn migrate_legacy_versions(
    store: &mut MemoryStore,
    modules: &Vec<(Vec<u8>, u16)>,
    write_weight: u64,
) -> (w: u64)
    requires
        old(store).wf(),
    ensures
        final(store).wf(),
        final(store)@ == legacy_all_migrated(
            old(store)@,
            modules@.map_values(|e: (Vec<u8>, u16)| module_view(e)),
        ),
        w == legacy_weight(modules@.len() as nat, write_weight),
{
    let ghost mv = modules@.map_values(|e: (Vec<u8>, u16)| module_view(e));
    let ghost start = store@;
    let mut w: u64 = 0;
    let mut i: usize = 0;
    while i < modules.len()
        invariant
            store.wf(),
            i <= modules@.len(),
            mv == modules@.map_values(|e: (Vec<u8>, u16)| module_view(e)),
            store@ == legacy_all_migrated(start, mv.subrange(0, i as int)),
            w == legacy_weight(i as nat, write_weight),
        decreases modules@.len() - i,
    {
        let step = migrate_legacy_version(store, modules[i].0.as_slice(), modules[i].1, write_weight);
        w = w.saturating_add(step);
        assert(mv.subrange(0, i + 1).drop_last() =~= mv.subrange(0, i as int));
        i = i + 1;
    }
    assert(mv.subrange(0, i as int) =~= mv);
    w
}

/// Records `in_code` as the version of a module that has nothing stored yet
/// (no key starts with the hash of its name); returns whether it did.
pub fn initialize_version(store: &mut MemoryStore, module: &[u8], in_code: u16) -> (r: bool)
    requires
        old(store).wf(),
    ensures
        final(store).wf(),
        r == (with_prefix(old(store).entries(), twox_128_spec(module@)).len() == 0),
        r ==> final(store)@ == old(store)@.insert(version_key_spec(module@), in_code.encode_spec()),
        !r ==> final(store)@ == old(store)@,
{
    let p = twox_128(module);
    let found = store.iter_prefix(p.as_slice());
    if found.len() == 0 {
        set_version(store, module, in_code);
        true
    } else {
        false
    }
}

/// The check after an upgrade: a module that declares a version (`Some`) must
/// have exactly that version stored; one that declares none must have no record.
pub fn check_version(store: &MemoryStore, module: &[u8], in_code: Option<u16>) -> (r: Result<
    (),
    VersionCheckError,
>)
    requires
        store.wf(),
    ensures
        r == match in_code {
            Some(v) => if on_chain_spec(store@, module@) is None {
                Err(VersionCheckError::Undecodable)
            } else if on_chain_spec(store@, module@) == Some(v) {
                Ok::<(), VersionCheckError>(())
            } else {
                Err(
                    VersionCheckError::Mismatch {
                        on_chain: on_chain_spec(store@, module@).unwrap(),
                        in_code: v,
                    },
                )
            },
            None => if store@.contains_key(version_key_spec(module@)) {
                Err(VersionCheckError::UnexpectedVersion)
            } else {
                Ok(())
            },
        },
{
    match in_code {
        Some(v) => {
            let on_chain = match on_chain_version(store, module) {
                Some(c) => c,
                None => return Err(VersionCheckError::Undecodable),
            };
            if on_chain == v {
                Ok(())
            } else {
                Err(VersionCheckError::Mismatch { on_chain, in_code: v })
            }
        },
        None => {
            if version_exists(store, module) {
                Err(VersionCheckError::UnexpectedVersion)
            } else {
                Ok(())
            }
        },
    }
}

} // verus!
