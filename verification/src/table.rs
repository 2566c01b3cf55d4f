use vstd::prelude::*;

use crate::bytes::bytes_equal;
use crate::types::Address;

verus! {

/// A key of a [`Table`]: a copyable value whose equality can be decided.
pub trait TableKey: Copy {
    /// Whether `self` and `other` are the same key.
    fn same_key(&self, other: &Self) -> (same: bool)
        ensures
            same == (*self == *other),
    ;
}

impl TableKey for u32 {
    fn same_key(&self, other: &Self) -> (same: bool) {
        *self == *other
    }
}

impl TableKey for u64 {
    fn same_key(&self, other: &Self) -> (same: bool) {
        *self == *other
    }
}

impl TableKey for Address {
    fn same_key(&self, other: &Self) -> (same: bool) {
        *self == *other
    }
}

/// The key of a sub-issuer authorization: a parent issuer and its delegate.
#[derive(Clone, Copy, Debug, PartialEq, Eq, Structural)]
pub struct SubIssuerKey {
    pub parent: Address,
    pub sub_issuer: Address,
}

impl TableKey for SubIssuerKey {
    fn same_key(&self, other: &Self) -> (same: bool) {
        *self == *other
    }
}

/// The key of a bridged attestation: the EVM chain and the attestation's uid.
#[derive(Clone, Copy, Debug, PartialEq, Eq)]
pub struct AttestationKey {
    pub evm_chain_id: u64,
    pub evm_uid: [u8; 32],
}

impl TableKey for AttestationKey {
    fn same_key(&self, other: &Self) -> (same: bool) {
        if self.evm_chain_id != other.evm_chain_id {
            return false;
        }
        let same_uid = bytes_equal(&self.evm_uid, &other.evm_uid);
        proof {
            if same_uid {
                broadcast use vstd::array::axiom_array_ext_equal;
                assert(self.evm_uid =~= other.evm_uid);
            }
        }
        same_uid
    }
}

/// The key of a credential commitment: a subject and a schema.
#[derive(Clone, Copy, Debug, PartialEq, Eq, Structural)]
pub struct CommitmentKey {
    pub subject: Address,
    pub schema_id: u32,
}

impl TableKey for CommitmentKey {
    fn same_key(&self, other: &Self) -> (same: bool) {
        *self == *other
    }
}

/// A finite map from keys to values, kept as a list of entries whose keys are
/// pairwise distinct.
pub struct Table<K, V> {
    entries: Vec<(K, V)>,
}

impl<K, V> Table<K, V> {
    /// The keys are pairwise distinct.
    pub closed spec fn wf(&self) -> bool {
        forall|i: int, j: int|
            0 <= i < j < self.entries@.len() ==> #[trigger] self.entries@[i].0
                != #[trigger] self.entries@[j].0
    }

    spec fn has(&self, k: K) -> bool {
        exists|i: int| 0 <= i < self.entries@.len() && #[trigger] self.entries@[i].0 == k
    }

    spec fn position(&self, k: K) -> int {
        choose|i: int| 0 <= i < self.entries@.len() && #[trigger] self.entries@[i].0 == k
    }

    proof fn lemma_entry(&self, i: int)
        requires
            self.wf(),
            0 <= i < self.entries@.len(),
        ensures
            self@.contains_key(self.entries@[i].0),
            self@[self.entries@[i].0] == self.entries@[i].1,
    {
        let k = self.entries@[i].0;
        assert(self.has(k));
        let j = self.position(k);
        if i < j {
            assert(self.entries@[i].0 != self.entries@[j].0);
        } else if j < i {
            assert(self.entries@[j].0 != self.entries@[i].0);
        }
    }
}

impl<K, V> View for Table<K, V> {
    type V = Map<K, V>;

    closed spec fn view(&self) -> Map<K, V> {
        Map::new(|k: K| self.has(k), |k: K| self.entries@[self.position(k)].1)
    }
}

impl<K: TableKey, V> Table<K, V> {
    /// An empty table.
    pub fn new() -> (t: Self)
        ensures
            t.wf(),
            t@ == Map::<K, V>::empty(),
    {
        let t = Table { entries: Vec::new() };
        assert(t@ =~= Map::<K, V>::empty());
        t
    }

    fn find(&self, k: &K) -> (r: Option<usize>)
        requires
            self.wf(),
        ensures
            match r {
                Some(i) => i < self.entries@.len() && self.entries@[i as int].0 == *k,
                None => !self@.contains_key(*k),
            },
    {
        let n = self.entries.len();
        let mut i: usize = 0;
        while i < n
            invariant
                n == self.entries@.len(),
                i <= n,
                forall|j: int| 0 <= j < i ==> #[trigger] self.entries@[j].0 != *k,
            decreases n - i,
        {
            if self.entries[i].0.same_key(k) {
                return Some(i);
            }
            i = i + 1;
        }
        None
    }

    /// Whether `k` has a value.
    pub fn contains_key(&self, k: &K) -> (r: bool)
        requires
            self.wf(),
        ensures
            r == self@.contains_key(*k),
    {
        match self.find(k) {
            Some(i) => {
                proof {
                    self.lemma_entry(i as int);
                }
                true
            },
            None => false,
        }
    }

    /// The value of `k`, if it has one.
    pub fn get(&self, k: &K) -> (r: Option<&V>)
        requires
            self.wf(),
        ensures
            match r {
                Some(v) => self@.contains_key(*k) && *v == self@[*k],
                None => !self@.contains_key(*k),
            },
    {
        match self.find(k) {
            Some(i) => {
                proof {
                    self.lemma_entry(i as int);
                }
                Some(&self.entries[i].1)
            },
            None => None,
        }
    }

    /// Gives `k` the value `v`, and returns the value it had before, if any.
    pub fn insert(&mut self, k: K, v: V) -> (previous: Option<V>)
        requires
            old(self).wf(),
        ensures
            final(self).wf(),
            final(self)@ == old(self)@.insert(k, v),
            previous == (if old(self)@.contains_key(k) {
                Some(old(self)@[k])
            } else {
                None
            }),
    {
        let ghost before = *self;
        match self.find(&k) {
            Some(i) => {
                proof {
                    before.lemma_entry(i as int);
                }
                let (_, prev) = self.entries.remove(i);
                self.entries.insert(i, (k, v));
                proof {
                    assert(self.entries@ =~= before.entries@.update(i as int, (k, v)));
                    assert(self.wf()) by {
                        assert forall|a: int, b: int|
                            0 <= a < b < self.entries@.len() implies #[trigger] self.entries@[a].0
                            != #[trigger] self.entries@[b].0 by {
                            assert(before.entries@[a].0 != before.entries@[b].0);
                        }
                    }
                    self.lemma_same_except_at(before, i as int, k, v);
                }
                Some(prev)
            },
            None => {
                self.entries.push((k, v));
                proof {
                    let n = before.entries@.len() as int;
                    assert(self.entries@ =~= before.entries@.push((k, v)));
                    assert(self.wf()) by {
                        assert forall|a: int, b: int|
                            0 <= a < b < self.entries@.len() implies #[trigger] self.entries@[a].0
                            != #[trigger] self.entries@[b].0 by {
                            if b == n {
                                if self.entries@[a].0 == k {
                                    assert(before.has(k));
                                }
                            } else {
                                assert(before.entries@[a].0 != before.entries@[b].0);
                            }
                        }
                    }
                    self.lemma_same_except_at(before, n, k, v);
                }
                None
            },
        }
    }

    /// Removes `k` and returns the value it had, if any.
    pub fn remove(&mut self, k: &K) -> (previous: Option<V>)
        requires
            old(self).wf(),
        ensures
            final(self).wf(),
            match previous {
                Some(v) => old(self)@.contains_key(*k) && v == old(self)@[*k] && final(self)@
                    == old(self)@.remove(*k),
                None => !old(self)@.contains_key(*k) && final(self)@ == old(self)@,
            },
    {
        let ghost before = *self;
        match self.find(k) {
            Some(i) => {
                proof {
                    before.lemma_entry(i as int);
                }
                let (_, prev) = self.entries.remove(i);
                proof {
                    let n = before.entries@.len() as int;
                    assert(self.entries@ =~= before.entries@.remove(i as int));
                    assert forall|j: int| 0 <= j < i implies #[trigger] self.entries@[j]
                        == before.entries@[j] by {}
                    assert forall|j: int| i <= j < n - 1 implies #[trigger] self.entries@[j]
                        == before.entries@[j + 1] by {}
                    assert(self.wf()) by {
                        assert forall|a: int, b: int|
                            0 <= a < b < self.entries@.len() implies #[trigger] self.entries@[a].0
                            != #[trigger] self.entries@[b].0 by {
                            let a0 = if a < i { a } else { a + 1 };
                            let b0 = if b < i { b } else { b + 1 };
                            assert(self.entries@[a] == before.entries@[a0]);
                            assert(self.entries@[b] == before.entries@[b0]);
                            assert(before.entries@[a0].0 != before.entries@[b0].0);
                        }
                    }
                    let after = before@.remove(*k);
                    assert forall|q: K| #[trigger] self@.contains_key(q) == after.contains_key(q) by {
                        if self@.contains_key(q) {
                            assert(self.has(q));
                            let j = choose|j: int|
                                0 <= j < self.entries@.len() && #[trigger] self.entries@[j].0 == q;
                            let j0 = if j < i { j } else { j + 1 };
                            assert(self.entries@[j] == before.entries@[j0]);
                            before.lemma_entry(j0);
                            assert(j0 != i);
                            assert(q != *k) by {
                                if j0 < i {
                                    assert(before.entries@[j0].0 != before.entries@[i as int].0);
                                } else {
                                    assert(before.entries@[i as int].0 != before.entries@[j0].0);
                                }
                            }
                        }
                        if after.contains_key(q) {
                            assert(before.has(q));
                            let j0 = choose|j: int|
                                0 <= j < before.entries@.len() && #[trigger] before.entries@[j].0 == q;
                            assert(j0 != i);
                            let j = if j0 < i { j0 } else { j0 - 1 };
                            assert(self.entries@[j] == before.entries@[j0]);
                            self.lemma_entry(j);
                        }
                    }
                    assert forall|q: K| #[trigger] self@.contains_key(q) implies self@[q] == after[q] by {
                        assert(self.has(q));
                        let j = choose|j: int|
                            0 <= j < self.entries@.len() && #[trigger] self.entries@[j].0 == q;
                        let j0 = if j < i { j } else { j + 1 };
                        assert(self.entries@[j] == before.entries@[j0]);
                        self.lemma_entry(j);
                        before.lemma_entry(j0);
                    }
                    assert(self@ =~= after);
                }
                Some(prev)
            },
            None => None,
        }
    }

    proof fn lemma_same_except_at(&self, before: Self, i: int, k: K, v: V)
        requires
            self.wf(),
            before.wf(),
            0 <= i < self.entries@.len(),
            self.entries@[i] == (k, v),
            i == before.entries@.len() ==> self.entries@.len() == i + 1,
            i < before.entries@.len() ==> self.entries@.len() == before.entries@.len()
                && before.entries@[i].0 == k,
            i <= before.entries@.len(),
            forall|j: int|
                0 <= j < before.entries@.len() && j != i ==> #[trigger] self.entries@[j]
                    == before.entries@[j],
        ensures
            self@ == before@.insert(k, v),
    {
        let after = before@.insert(k, v);
        assert forall|q: K| #[trigger] self@.contains_key(q) == after.contains_key(q) by {
            if self@.contains_key(q) {
                assert(self.has(q));
                let j = choose|j: int| 0 <= j < self.entries@.len() && #[trigger] self.entries@[j].0 == q;
                if j != i {
                    before.lemma_entry(j);
                }
            }
            if before@.contains_key(q) && q != k {
                assert(before.has(q));
                let j = choose|j: int| 0 <= j < before.entries@.len() && #[trigger] before.entries@[j].0 == q;
                assert(j != i);
                self.lemma_entry(j);
            }
            if q == k {
                self.lemma_entry(i);
            }
        }
        assert forall|q: K| #[trigger] self@.contains_key(q) implies self@[q] == after[q] by {
            if q == k {
                self.lemma_entry(i);
            } else {
                assert(before@.contains_key(q));
                assert(before.has(q));
                let j = choose|j: int| 0 <= j < before.entries@.len() && #[trigger] before.entries@[j].0 == q;
                before.lemma_entry(j);
                self.lemma_entry(j);
            }
        }
        assert(self@ =~= after);
    }
}

impl<K: TableKey, V: Copy> Table<K, V> {
    /// A copy of this table.
    pub fn duplicate(&self) -> (t: Self)
        requires
            self.wf(),
        ensures
            t.wf(),
            t@ == self@,
    {
        let n = self.entries.len();
        let mut out: Vec<(K, V)> = Vec::new();
        let mut i: usize = 0;
        while i < n
            invariant
                n == self.entries@.len(),
                i <= n,
                out@ =~= self.entries@.take(i as int),
            decreases n - i,
        {
            let e = self.entries[i];
            out.push(e);
            i = i + 1;
            assert(out@ =~= self.entries@.take(i as int));
        }
        assert(out@ =~= self.entries@);
        let t = Table { entries: out };
        assert(t@ =~= self@);
        t
    }
}

impl<K: TableKey> Table<K, Vec<u64>> {
    /// A copy of this table of identifier lists.
    pub fn duplicate_lists(&self) -> (t: Self)
        requires
            self.wf(),
        ensures
            t.wf(),
            t@.dom() == self@.dom(),
            forall|k: K| #[trigger] t@.contains_key(k) ==> t@[k]@ == self@[k]@,
    {
        let n = self.entries.len();
        let mut out: Vec<(K, Vec<u64>)> = Vec::new();
        let mut i: usize = 0;
        while i < n
            invariant
                n == self.entries@.len(),
                i <= n,
                out@.len() == i,
                forall|j: int|
                    0 <= j < i ==> (#[trigger] out@[j]).0 == self.entries@[j].0 && out@[j].1@
                        == self.entries@[j].1@,
            decreases n - i,
        {
            let key = self.entries[i].0;
            let ids = copy_ids(&self.entries[i].1);
            out.push((key, ids));
            i = i + 1;
        }
        let t = Table { entries: out };
        assert(t.wf()) by {
            assert forall|a: int, b: int|
                0 <= a < b < t.entries@.len() implies #[trigger] t.entries@[a].0
                != #[trigger] t.entries@[b].0 by {
                assert(self.entries@[a].0 != self.entries@[b].0);
            }
        }
        assert forall|k: K| #[trigger] t@.contains_key(k) == self@.contains_key(k) by {
            if t@.contains_key(k) {
                assert(t.has(k));
                let j = choose|j: int| 0 <= j < t.entries@.len() && #[trigger] t.entries@[j].0 == k;
                self.lemma_entry(j);
            }
            if self@.contains_key(k) {
                assert(self.has(k));
                let j = choose|j: int| 0 <= j < self.entries@.len() && #[trigger] self.entries@[j].0 == k;
                t.lemma_entry(j);
            }
        }
        assert forall|k: K| #[trigger] t@.contains_key(k) implies t@[k]@ == self@[k]@ by {
            assert(t.has(k));
            let j = choose|j: int| 0 <= j < t.entries@.len() && #[trigger] t.entries@[j].0 == k;
            self.lemma_entry(j);
            t.lemma_entry(j);
        }
        assert(t@.dom() =~= self@.dom());
        t
    }
}

/// A copy of a list of identifiers.
pub fn copy_ids(ids: &Vec<u64>) -> (r: Vec<u64>)
    ensures
        r@ == ids@,
{
    let n = ids.len();
    let mut out: Vec<u64> = Vec::new();
    let mut i: usize = 0;
    while i < n
        invariant
            n == ids@.len(),
            i <= n,
            out@ =~= ids@.take(i as int),
        decreases n - i,
    {
        out.push(ids[i]);
        i = i + 1;
        assert(out@ =~= ids@.take(i as int));
    }
    assert(out@ =~= ids@);
    out
}

} // verus!
