//! The block-wide state access tracker: which storage keys each address
//! touched over the whole block. Entries only grow; an address can be present
//! with an empty key set so that the witness still proves its account.

use vstd::prelude::*;
use crate::types::{Address, Hash256};

verus! {

/// One address's accumulated storage keys, in first-touch order.
pub struct AccessEntry {
    pub address: Address,
    pub keys: Vec<Hash256>,
}

/// The access set of one block: address -> set of touched storage keys.
pub struct AccessSet {
    pub entries: Vec<AccessEntry>,
}

impl AccessSet {
    /// Addresses occur at most once and no address repeats a key.
    pub open spec fn wf(self) -> bool {
        (forall|i: int, j: int|
            0 <= i < j < self.entries@.len() ==> (#[trigger] self.entries@[i]).address != (
            #[trigger] self.entries@[j]).address) && (forall|i: int, a: int, b: int|
            0 <= i < self.entries@.len() && 0 <= a < b < self.entries@[i].keys@.len() ==> (
            #[trigger] self.entries@[i].keys@[a]) != (#[trigger] self.entries@[i].keys@[b]))
    }

    /// The set covers this address (possibly with no keys).
    pub open spec fn covers(self, a: Address) -> bool {
        exists|i: int| 0 <= i < self.entries@.len() && (#[trigger] self.entries@[i]).address == a
    }

    /// The set records this storage key for this address.
    pub open spec fn tracks(self, a: Address, k: Hash256) -> bool {
        exists|i: int|
            0 <= i < self.entries@.len() && (#[trigger] self.entries@[i]).address == a
                && self.entries@[i].keys@.contains(k)
    }

    /// An empty access set.
    pub fn new() -> (r: AccessSet)
        ensures
            r.wf(),
            forall|a: Address| !r.covers(a),
            forall|a: Address, k: Hash256| !r.tracks(a, k),
    {
        AccessSet { entries: Vec::new() }
    }

    /// Ensures the address is present, with an empty key set if it was absent.
    #[verifier::loop_isolation(false)]
    pub fn seed(&mut self, a: Address)
        requires
            old(self).wf(),
        ensures
            final(self).wf(),
            forall|x: Address| final(self).covers(x) <==> (old(self).covers(x) || x == a),
            forall|x: Address, k: Hash256| final(self).tracks(x, k) == old(self).tracks(x, k),
    {
        let ghost pre = *self;
        let mut i: usize = 0;
        while i < self.entries.len()
            invariant
                *self == pre,
                i <= self.entries@.len(),
                forall|j: int| 0 <= j < i ==> (#[trigger] self.entries@[j]).address != a,
            decreases self.entries@.len() - i,
        {
            if self.entries[i].address == a {
                proof {
                    assert(pre.covers(a)) by {
                        assert(pre.entries@[i as int].address == a);
                    }
                }
                return ;
            }
            i = i + 1;
        }
        self.entries.push(AccessEntry { address: a, keys: Vec::new() });
        proof {
            let n = pre.entries@.len() as int;
            assert(self.entries@ =~= pre.entries@.push(self.entries@[n]));
            assert(self.entries@[n].address == a);
            assert(self.entries@[n].keys@.len() == 0);
            assert forall|x: Address| (*self).covers(x) implies (pre.covers(x) || x == a) by {
                let i = choose|i: int|
                    0 <= i < self.entries@.len() && (#[trigger] self.entries@[i]).address == x;
                if i < n {
                    assert(pre.entries@[i].address == x);
                }
            }
            assert forall|x: Address| pre.covers(x) implies (*self).covers(x) by {
                let i = choose|i: int|
                    0 <= i < pre.entries@.len() && (#[trigger] pre.entries@[i]).address == x;
                assert(self.entries@[i].address == x);
            }
            assert forall|x: Address, k: Hash256| (*self).tracks(x, k) implies pre.tracks(
                x,
                k,
            ) by {
                let i = choose|i: int|
                    0 <= i < self.entries@.len() && (#[trigger] self.entries@[i]).address == x
                        && self.entries@[i].keys@.contains(k);
                assert(i < n);
                assert(pre.entries@[i].address == x && pre.entries@[i].keys@.contains(k));
            }
            assert forall|x: Address, k: Hash256| pre.tracks(x, k) implies (*self).tracks(
                x,
                k,
            ) by {
                let i = choose|i: int|
                    0 <= i < pre.entries@.len() && (#[trigger] pre.entries@[i]).address == x
                        && pre.entries@[i].keys@.contains(k);
                assert(self.entries@[i].address == x && self.entries@[i].keys@.contains(k));
            }
        }
    }

    /// Inserts the key into the address's set, creating the entry if absent.
    #[verifier::loop_isolation(false)]
    pub fn record(&mut self, a: Address, k: Hash256)
        requires
            old(self).wf(),
        ensures
            final(self).wf(),
            forall|x: Address| final(self).covers(x) <==> (old(self).covers(x) || x == a),
            forall|x: Address, kk: Hash256|
                final(self).tracks(x, kk) <==> (old(self).tracks(x, kk) || (x == a && kk == k)),
    {
        let ghost pre = *self;
        let mut i: usize = 0;
        while i < self.entries.len()
            invariant
                *self == pre,
                i <= self.entries@.len(),
                forall|j: int| 0 <= j < i ==> (#[trigger] self.entries@[j]).address != a,
            decreases self.entries@.len() - i,
        {
            if self.entries[i].address == a {
                self.record_at(i, a, k);
                return ;
            }
            i = i + 1;
        }
        let mut keys: Vec<Hash256> = Vec::new();
        keys.push(k);
        self.entries.push(AccessEntry { address: a, keys });
        proof {
            let n = pre.entries@.len() as int;
            assert(self.entries@ =~= pre.entries@.push(self.entries@[n]));
            assert(self.entries@[n].address == a);
            assert(self.entries@[n].keys@.len() == 1 && self.entries@[n].keys@[0] == k);
            assert(self.entries@[n].keys@.contains(k));
            assert forall|x: Address| (*self).covers(x) implies (pre.covers(x) || x == a) by {
                let i = choose|i: int|
                    0 <= i < self.entries@.len() && (#[trigger] self.entries@[i]).address == x;
                if i < n {
                    assert(pre.entries@[i].address == x);
                }
            }
            assert forall|x: Address| pre.covers(x) implies (*self).covers(x) by {
                let i = choose|i: int|
                    0 <= i < pre.entries@.len() && (#[trigger] pre.entries@[i]).address == x;
                assert(self.entries@[i].address == x);
            }
            assert forall|x: Address, kk: Hash256| (*self).tracks(x, kk) implies (pre.tracks(x, kk)
                || (x == a && kk == k)) by {
                let i = choose|i: int|
                    0 <= i < self.entries@.len() && (#[trigger] self.entries@[i]).address == x
                        && self.entries@[i].keys@.contains(kk);
                if i < n {
                    assert(pre.entries@[i].address == x && pre.entries@[i].keys@.contains(kk));
                } else {
                    let j = choose|j: int|
                        0 <= j < self.entries@[n].keys@.len() && self.entries@[n].keys@[j] == kk;
                    assert(kk == k);
                }
            }
            assert forall|x: Address, kk: Hash256| pre.tracks(x, kk) implies (*self).tracks(
                x,
                kk,
            ) by {
                let i = choose|i: int|
                    0 <= i < pre.entries@.len() && (#[trigger] pre.entries@[i]).address == x
                        && pre.entries@[i].keys@.contains(kk);
                assert(self.entries@[i].address == x && self.entries@[i].keys@.contains(kk));
            }
        }
    }

    /// Adds the key to the entry at a known index holding the address.
    #[verifier::loop_isolation(false)]
    fn record_at(&mut self, i: usize, a: Address, k: Hash256)
        requires
            old(self).wf(),
            i < old(self).entries@.len(),
            old(self).entries@[i as int].address == a,
        ensures
            final(self).wf(),
            forall|x: Address| final(self).covers(x) <==> (old(self).covers(x) || x == a),
            forall|x: Address, kk: Hash256|
                final(self).tracks(x, kk) <==> (old(self).tracks(x, kk) || (x == a && kk == k)),
    {
        let ghost pre = *self;
        proof {
            assert(pre.covers(a)) by {
                assert(pre.entries@[i as int].address == a);
            }
        }
        let mut j: usize = 0;
        let n_keys = self.entries[i].keys.len();
        while j < n_keys
            invariant
                *self == pre,
                i < self.entries@.len(),
                n_keys == self.entries@[i as int].keys@.len(),
                j <= n_keys,
                self.entries@[i as int].address == a,
                forall|jj: int| 0 <= jj < j ==> self.entries@[i as int].keys@[jj] != k,
            decreases n_keys - j,
        {
            if self.entries[i].keys[j] == k {
                proof {
                    assert(pre.tracks(a, k)) by {
                        assert(pre.entries@[i as int].keys@.contains(k)) by {
                            assert(pre.entries@[i as int].keys@[j as int] == k);
                        }
                    }
                }
                return ;
            }
            j = j + 1;
        }
        let entry = &mut self.entries[i];
        entry.keys.push(k);
        proof {
            let ii = i as int;
            let oldkeys = pre.entries@[ii].keys@;
            assert(self.entries@.len() == pre.entries@.len());
            assert(forall|t: int|
                0 <= t < self.entries@.len() && t != ii ==> self.entries@[t] == pre.entries@[t]);
            assert(self.entries@[ii].address == a);
            assert(self.entries@[ii].keys@ =~= oldkeys.push(k));
            assert(self.entries@[ii].keys@.contains(k)) by {
                assert(self.entries@[ii].keys@[oldkeys.len() as int] == k);
            }
            assert forall|x: Address| (*self).covers(x) implies (pre.covers(x) || x == a) by {
                let t = choose|t: int|
                    0 <= t < self.entries@.len() && (#[trigger] self.entries@[t]).address == x;
                assert(pre.entries@[t].address == x);
            }
            assert forall|x: Address| pre.covers(x) implies (*self).covers(x) by {
                let t = choose|t: int|
                    0 <= t < pre.entries@.len() && (#[trigger] pre.entries@[t]).address == x;
                assert(self.entries@[t].address == x);
            }
            assert forall|x: Address, kk: Hash256| (*self).tracks(x, kk) implies (pre.tracks(x, kk)
                || (x == a && kk == k)) by {
                let t = choose|t: int|
                    0 <= t < self.entries@.len() && (#[trigger] self.entries@[t]).address == x
                        && self.entries@[t].keys@.contains(kk);
                if t != ii {
                    assert(pre.entries@[t].address == x && pre.entries@[t].keys@.contains(kk));
                } else {
                    let jj = choose|jj: int|
                        0 <= jj < self.entries@[ii].keys@.len() && self.entries@[ii].keys@[jj]
                            == kk;
                    if jj < oldkeys.len() {
                        assert(oldkeys[jj] == kk);
                        assert(pre.entries@[ii].keys@.contains(kk));
                    } else {
                        assert(kk == k);
                    }
                }
            }
            assert forall|x: Address, kk: Hash256| pre.tracks(x, kk) implies (*self).tracks(
                x,
                kk,
            ) by {
                let t = choose|t: int|
                    0 <= t < pre.entries@.len() && (#[trigger] pre.entries@[t]).address == x
                        && pre.entries@[t].keys@.contains(kk);
                if t != ii {
                    assert(self.entries@[t].address == x && self.entries@[t].keys@.contains(kk));
                } else {
                    let jj = choose|jj: int| 0 <= jj < oldkeys.len() && oldkeys[jj] == kk;
                    assert(self.entries@[ii].keys@[jj] == kk);
                    assert(self.entries@[ii].keys@.contains(kk));
                }
            }
            assert((*self).wf()) by {
                assert forall|t: int, x: int, y: int|
                    0 <= t < self.entries@.len() && 0 <= x < y
                        < self.entries@[t].keys@.len() implies (
                #[trigger] self.entries@[t].keys@[x]) != (
                #[trigger] self.entries@[t].keys@[y]) by {
                    if t == ii && y == oldkeys.len() {
                        assert(self.entries@[t].keys@[x] == oldkeys[x]);
                    }
                }
            }
        }
    }

    /// Whether the access set covers this address.
    #[verifier::loop_isolation(false)]
    pub fn covers_address(&self, a: &Address) -> (r: bool)
        ensures
            r == self.covers(*a),
    {
        let mut i: usize = 0;
        while i < self.entries.len()
            invariant
                i <= self.entries@.len(),
                forall|j: int| 0 <= j < i ==> (#[trigger] self.entries@[j]).address != *a,
            decreases self.entries@.len() - i,
        {
            if self.entries[i].address == *a {
                proof {
                    assert(self.covers(*a)) by {
                        assert(self.entries@[i as int].address == *a);
                    }
                }
                return true;
            }
            i = i + 1;
        }
        false
    }

    /// Whether the access set records this key for this address.
    #[verifier::loop_isolation(false)]
    pub fn tracks_key(&self, a: &Address, k: &Hash256) -> (r: bool)
        ensures
            r == self.tracks(*a, *k),
    {
        let mut i: usize = 0;
        while i < self.entries.len()
            invariant
                i <= self.entries@.len(),
                forall|j: int|
                    0 <= j < i ==> !((#[trigger] self.entries@[j]).address == *a
                        && self.entries@[j].keys@.contains(*k)),
            decreases self.entries@.len() - i,
        {
            if self.entries[i].address == *a {
                let mut j: usize = 0;
                while j < self.entries[i].keys.len()
                    invariant
                        i < self.entries@.len(),
                        self.entries@[i as int].address == *a,
                        j <= self.entries@[i as int].keys@.len(),
                        forall|jj: int|
                            0 <= jj < j ==> self.entries@[i as int].keys@[jj] != *k,
                    decreases self.entries@[i as int].keys@.len() - j,
                {
                    if self.entries[i].keys[j] == *k {
                        proof {
                            assert(self.tracks(*a, *k)) by {
                                assert(self.entries@[i as int].address == *a);
                                assert(self.entries@[i as int].keys@.contains(*k)) by {
                                    assert(self.entries@[i as int].keys@[j as int] == *k);
                                }
                            }
                        }
                        return true;
                    }
                    j = j + 1;
                }
                proof {
                    assert(!self.entries@[i as int].keys@.contains(*k));
                }
            }
            i = i + 1;
        }
        false
    }
}

} // verus!
