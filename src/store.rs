//! An in-memory flat store: byte keys to byte values, kept in insertion order.

use vstd::prelude::*;
use crate::bytes::{bytes_eq, copy_bytes, is_prefix, starts_with};

verus! {

/// The value at `k` in `m`, if any.
pub open spec fn lookup(m: Map<Seq<u8>, Seq<u8>>, k: Seq<u8>) -> Option<Seq<u8>> {
    if m.contains_key(k) {
        Some(m[k])
    } else {
        None
    }
}

pub open spec fn opt_bytes(v: Option<Vec<u8>>) -> Option<Seq<u8>> {
    match v {
        Some(b) => Some(b@),
        None => None,
    }
}

/// The contents of `m` without the keys that start with `p`.
pub open spec fn without_prefix(m: Map<Seq<u8>, Seq<u8>>, p: Seq<u8>) -> Map<Seq<u8>, Seq<u8>> {
    m.restrict(m.dom().filter(|k: Seq<u8>| !is_prefix(p, k)))
}

pub open spec fn pair_view(e: (Vec<u8>, Vec<u8>)) -> (Seq<u8>, Seq<u8>) {
    (e.0@, e.1@)
}

/// The entries of `s` whose key starts with `p`, in order.
pub open spec fn with_prefix(s: Seq<(Seq<u8>, Seq<u8>)>, p: Seq<u8>) -> Seq<(Seq<u8>, Seq<u8>)> {
    s.filter(|e: (Seq<u8>, Seq<u8>)| is_prefix(p, e.0))
}

/// The entries of `s` whose key is not `k`.
pub open spec fn without_key(s: Seq<(Seq<u8>, Seq<u8>)>, k: Seq<u8>) -> Seq<(Seq<u8>, Seq<u8>)> {
    s.filter(|e: (Seq<u8>, Seq<u8>)| e.0 != k)
}

proof fn lemma_without_absent_key(s: Seq<(Seq<u8>, Seq<u8>)>, k: Seq<u8>)
    requires
        forall|j: int| 0 <= j < s.len() ==> s[j].0 != k,
    ensures
        without_key(s, k) == s,
    decreases s.len(),
{
    reveal(Seq::filter);
    if s.len() > 0 {
        lemma_without_absent_key(s.drop_last(), k);
        assert(s.drop_last().push(s.last()) =~= s);
    }
}

proof fn lemma_without_key_at(s: Seq<(Seq<u8>, Seq<u8>)>, k: Seq<u8>, i: int)
    requires
        0 <= i < s.len(),
        s[i].0 == k,
        forall|j: int| 0 <= j < s.len() && j != i ==> s[j].0 != k,
    ensures
        without_key(s, k) == s.remove(i),
    decreases s.len(),
{
    reveal(Seq::filter);
    if i == s.len() - 1 {
        lemma_without_absent_key(s.drop_last(), k);
        assert(s.remove(i) =~= s.drop_last());
    } else {
        lemma_without_key_at(s.drop_last(), k, i);
        assert(s.drop_last().remove(i).push(s.last()) =~= s.remove(i));
    }
}

/// A byte-keyed store. Each key appears at most once; entries keep the order
/// in which their keys were first written.
pub struct MemoryStore {
    entries: Vec<(Vec<u8>, Vec<u8>)>,
    contents: Ghost<Map<Seq<u8>, Seq<u8>>>,
}

impl View for MemoryStore {
    type V = Map<Seq<u8>, Seq<u8>>;

    closed spec fn view(&self) -> Map<Seq<u8>, Seq<u8>> {
        self.contents@
    }
}

impl MemoryStore {
    /// The entries in store order.
    pub closed spec fn entries(&self) -> Seq<(Seq<u8>, Seq<u8>)> {
        self.entries@.map_values(|e: (Vec<u8>, Vec<u8>)| pair_view(e))
    }

    pub closed spec fn wf(&self) -> bool {
        let s = self.entries();
        &&& forall|i: int, j: int| 0 <= i < j < s.len() ==> #[trigger] s[i].0 != #[trigger] s[j].0
        &&& forall|i: int|
            0 <= i < s.len() ==> self@.contains_key(#[trigger] s[i].0) && self@[s[i].0] == s[i].1
        &&& forall|k: Seq<u8>| #[trigger]
            self@.contains_key(k) ==> exists|i: int| 0 <= i < s.len() && s[i].0 == k
        &&& self@.dom().finite()
    }

    /// The entries and the contents describe one another.
    pub proof fn lemma_entries_match(&self)
        requires
            self.wf(),
        ensures
            self@.dom().finite(),
            forall|i: int|
                0 <= i < self.entries().len() ==> self@.contains_key(
                    #[trigger] self.entries()[i].0,
                ) && self@[self.entries()[i].0] == self.entries()[i].1,
            forall|k: Seq<u8>| #[trigger]
                self@.contains_key(k) ==> exists|i: int|
                    0 <= i < self.entries().len() && self.entries()[i].0 == k,
            forall|i: int, j: int|
                0 <= i < j < self.entries().len() ==> #[trigger] self.entries()[i].0
                    != #[trigger] self.entries()[j].0,
    {
    }

    pub fn new() -> (r: MemoryStore)
        ensures
            r.wf(),
            r@ == Map::<Seq<u8>, Seq<u8>>::empty(),
            r.entries().len() == 0,
    {
        let r = MemoryStore { entries: Vec::new(), contents: Ghost(Map::empty()) };
        assert(r.entries() =~= Seq::empty());
        r
    }

    fn find(&self, key: &[u8]) -> (r: Option<usize>)
        requires
            self.wf(),
        ensures
            match r {
                Some(i) => i < self.entries().len() && self.entries()[i as int].0 == key@,
                None => !self@.contains_key(key@),
            },
    {
        let mut i: usize = 0;
        while i < self.entries.len()
            invariant
                self.wf(),
                i <= self.entries@.len(),
                forall|j: int| 0 <= j < i ==> self.entries()[j].0 != key@,
            decreases self.entries@.len() - i,
        {
            if bytes_eq(self.entries[i].0.as_slice(), key) {
                return Some(i);
            }
            i = i + 1;
        }
        None
    }

    /// The value stored at `key`.
    pub fn get(&self, key: &[u8]) -> (r: Option<Vec<u8>>)
        requires
            self.wf(),
        ensures
            opt_bytes(r) == lookup(self@, key@),
    {
        match self.find(key) {
            Some(i) => Some(copy_bytes(self.entries[i].1.as_slice())),
            None => None,
        }
    }

    pub fn contains(&self, key: &[u8]) -> (r: bool)
        requires
            self.wf(),
        ensures
            r == self@.contains_key(key@),
    {
        self.find(key).is_some()
    }

    /// Writes `value` at `key`, replacing what was there.
    pub fn put(&mut self, key: &[u8], value: &[u8])
        requires
            old(self).wf(),
        ensures
            final(self).wf(),
            final(self)@ == old(self)@.insert(key@, value@),
            old(self)@.contains_key(key@) ==> final(self).entries() == old(self).entries().map_values(
                |e: (Seq<u8>, Seq<u8>)|
                    if e.0 == key@ {
                        (key@, value@)
                    } else {
                        e
                    },
            ),
            !old(self)@.contains_key(key@) ==> final(self).entries() == old(self).entries().push(
                (key@, value@),
            ),
    {
        let ghost m = self@;
        let ghost s0 = self.entries();
        let k = copy_bytes(key);
        let v = copy_bytes(value);
        match self.find(key) {
            Some(i) => {
                self.entries.set(i, (k, v));
                self.contents = Ghost(m.insert(key@, value@));
                proof {
                    let s1 = self.entries();
                    assert(s1 =~= s0.update(i as int, (key@, value@)));
                    assert(s1 =~= s0.map_values(
                        |e: (Seq<u8>, Seq<u8>)|
                            if e.0 == key@ {
                                (key@, value@)
                            } else {
                                e
                            },
                    ));
                    assert forall|kk: Seq<u8>| #[trigger] self@.contains_key(kk) implies exists|j: int|
                        0 <= j < s1.len() && s1[j].0 == kk by {
                        if kk != key@ {
                            let j = choose|j: int| 0 <= j < s0.len() && s0[j].0 == kk;
                            assert(s1[j].0 == kk);
                        } else {
                            assert(s1[i as int].0 == kk);
                        }
                    }
                }
            },
            None => {
                self.entries.push((k, v));
                self.contents = Ghost(m.insert(key@, value@));
                proof {
                    let s1 = self.entries();
                    assert(s1 =~= s0.push((key@, value@)));
                    assert forall|kk: Seq<u8>| #[trigger] self@.contains_key(kk) implies exists|j: int|
                        0 <= j < s1.len() && s1[j].0 == kk by {
                        if kk != key@ {
                            let j = choose|j: int| 0 <= j < s0.len() && s0[j].0 == kk;
                            assert(s1[j].0 == kk);
                        } else {
                            assert(s1[s0.len() as int].0 == kk);
                        }
                    }
                    assert forall|a: int, b: int| 0 <= a < b < s1.len() implies #[trigger] s1[a].0
                        != #[trigger] s1[b].0 by {
                        if b == s0.len() {
                            assert(m.contains_key(s0[a].0));
                        }
                    }
                }
            },
        }
    }

    /// Deletes the entry at `key`, if there is one.
    pub fn remove(&mut self, key: &[u8])
        requires
            old(self).wf(),
        ensures
            final(self).wf(),
            final(self)@ == old(self)@.remove(key@),
            final(self).entries() == without_key(old(self).entries(), key@),
    {
        let ghost m = self@;
        let ghost s0 = self.entries();
        match self.find(key) {
            Some(i) => {
                self.entries.remove(i);
                self.contents = Ghost(m.remove(key@));
                proof {
                    let s1 = self.entries();
                    assert(s1 =~= s0.remove(i as int));
                    lemma_without_key_at(s0, key@, i as int);
                    assert forall|a: int, b: int| 0 <= a < b < s1.len() implies #[trigger] s1[a].0
                        != #[trigger] s1[b].0 by {
                        let a0 = if a < i { a } else { a + 1 };
                        let b0 = if b < i { b } else { b + 1 };
                        assert(s1[a] == s0[a0]);
                        assert(s1[b] == s0[b0]);
                    }
                    assert forall|j: int| 0 <= j < s1.len() implies self@.contains_key(
                        #[trigger] s1[j].0,
                    ) && self@[s1[j].0] == s1[j].1 by {
                        let j0 = if j < i { j } else { j + 1 };
                        assert(s1[j] == s0[j0]);
                        assert(s0[j0].0 != s0[i as int].0);
                    }
                    assert forall|kk: Seq<u8>| #[trigger] self@.contains_key(kk) implies exists|j: int|
                        0 <= j < s1.len() && s1[j].0 == kk by {
                        let j0 = choose|j: int| 0 <= j < s0.len() && s0[j].0 == kk;
                        assert(j0 != i);
                        let j = if j0 < i { j0 } else { j0 - 1 };
                        assert(s1[j] == s0[j0]);
                    }
                }
            },
            None => {
                self.contents = Ghost(m.remove(key@));
                assert(self@ =~= m);
                proof {
                    assert forall|j: int| 0 <= j < s0.len() implies s0[j].0 != key@ by {
                        assert(m.contains_key(s0[j].0));
                    }
                    lemma_without_absent_key(s0, key@);
                }
            },
        }
    }

    /// The entries whose key starts with `prefix`, in store order.
    pub fn iter_prefix(&self, prefix: &[u8]) -> (r: Vec<(Vec<u8>, Vec<u8>)>)
        requires
            self.wf(),
        ensures
            r@.map_values(|e: (Vec<u8>, Vec<u8>)| pair_view(e)) == with_prefix(self.entries(), prefix@),
    {
        let ghost s = self.entries();
        let mut out: Vec<(Vec<u8>, Vec<u8>)> = Vec::new();
        let mut i: usize = 0;
        while i < self.entries.len()
            invariant
                i <= self.entries@.len(),
                s == self.entries(),
                out@.map_values(|e: (Vec<u8>, Vec<u8>)| pair_view(e)) == with_prefix(
                    s.subrange(0, i as int),
                    prefix@,
                ),
            decreases self.entries@.len() - i,
        {
            let ghost before = out@.map_values(|e: (Vec<u8>, Vec<u8>)| pair_view(e));
            proof {
                reveal(Seq::filter);
                assert(s.subrange(0, i as int + 1).drop_last() =~= s.subrange(0, i as int));
            }
            if starts_with(self.entries[i].0.as_slice(), prefix) {
                let k = copy_bytes(self.entries[i].0.as_slice());
                let v = copy_bytes(self.entries[i].1.as_slice());
                out.push((k, v));
                assert(out@.map_values(|e: (Vec<u8>, Vec<u8>)| pair_view(e)) =~= before.push(s[i as int]));
            }
            i = i + 1;
        }
        assert(s.subrange(0, s.len() as int) =~= s);
        out
    }

    /// Deletes every entry whose key starts with `prefix`; returns how many there were.
    pub fn remove_prefix(&mut self, prefix: &[u8]) -> (r: usize)
        requires
            old(self).wf(),
        ensures
            final(self).wf(),
            final(self)@ == without_prefix(old(self)@, prefix@),
            r == with_prefix(old(self).entries(), prefix@).len(),
    {
        let ghost m = self@;
        let found = self.iter_prefix(prefix);
        let ghost fv = found@.map_values(|e: (Vec<u8>, Vec<u8>)| pair_view(e));
        proof {
            self.lemma_entries_match();
            broadcast use Seq::lemma_filter_pred, Seq::lemma_filter_contains;
        }
        let mut i: usize = 0;
        while i < found.len()
            invariant
                self.wf(),
                i <= found@.len(),
                fv == found@.map_values(|e: (Vec<u8>, Vec<u8>)| pair_view(e)),
                forall|k: Seq<u8>| #[trigger] self@.contains_key(k) == (m.contains_key(k) && !(
                exists|j: int| 0 <= j < i && fv[j].0 == k)),
                forall|k: Seq<u8>| #[trigger] self@.contains_key(k) ==> self@[k] == m[k],
            decreases found@.len() - i,
        {
            let ghost before = self@;
            assert(found@[i as int].0@ == fv[i as int].0);
            self.remove(found[i].0.as_slice());
            assert forall|k: Seq<u8>| #[trigger] self@.contains_key(k) == (m.contains_key(k) && !(
            exists|j: int| 0 <= j < i + 1 && fv[j].0 == k)) by {
                if k == fv[i as int].0 {
                } else {
                    assert(self@.contains_key(k) == before.contains_key(k));
                    if exists|j: int| 0 <= j < i + 1 && fv[j].0 == k {
                        let j = choose|j: int| 0 <= j < i + 1 && fv[j].0 == k;
                        assert(j < i);
                    }
                }
            }
            i = i + 1;
        }
        proof {
            let target = without_prefix(m, prefix@);
            let s0 = old(self).entries();
            let pred = |e: (Seq<u8>, Seq<u8>)| is_prefix(prefix@, e.0);
            assert forall|k: Seq<u8>| #[trigger] self@.contains_key(k) == target.contains_key(k) by {
                if exists|j: int| 0 <= j < fv.len() && fv[j].0 == k {
                    let j = choose|j: int| 0 <= j < fv.len() && fv[j].0 == k;
                    assert(pred(s0.filter(pred)[j]));
                } else if m.contains_key(k) && is_prefix(prefix@, k) {
                    let j = choose|j: int| 0 <= j < s0.len() && s0[j].0 == k;
                    assert(pred(s0[j]));
                    assert(s0.filter(pred).contains(s0[j]));
                    let jj = choose|jj: int| 0 <= jj < fv.len() && fv[jj] == s0[j];
                    assert(fv[jj].0 == k);
                }
            }
            assert(self@ =~= target);
        }
        found.len()
    }
}

} // verus!
