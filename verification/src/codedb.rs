//! The block-scoped code database: code hash -> contract bytes, keys unique.
//! Every piece of contract code a transaction touches is inserted here, and a
//! later insert for the same hash replaces the earlier bytes.

use vstd::prelude::*;
use crate::types::Hash256;

verus! {

/// One code-database record.
pub struct CodeDbEntry {
    pub code_hash: Hash256,
    pub code: Vec<u8>,
}

/// The code database of one block.
pub struct CodeDb {
    pub entries: Vec<CodeDbEntry>,
}

impl CodeDb {
    /// Code hashes occur at most once.
    pub open spec fn wf(self) -> bool {
        forall|i: int, j: int|
            0 <= i < j < self.entries@.len() ==> (#[trigger] self.entries@[i]).code_hash != (
            #[trigger] self.entries@[j]).code_hash
    }

    /// The database maps this hash to these bytes.
    pub open spec fn maps(self, h: Hash256, b: Seq<u8>) -> bool {
        exists|i: int|
            0 <= i < self.entries@.len() && (#[trigger] self.entries@[i]).code_hash == h
                && self.entries@[i].code@ == b
    }

    /// An empty code database.
    pub fn new() -> (r: CodeDb)
        ensures
            r.wf(),
            forall|h: Hash256, b: Seq<u8>| !r.maps(h, b),
    {
        CodeDb { entries: Vec::new() }
    }

    /// Inserts the bytes under the hash, replacing any earlier bytes.
    #[verifier::loop_isolation(false)]
    pub fn insert(&mut self, h: Hash256, code: Vec<u8>)
        requires
            old(self).wf(),
        ensures
            final(self).wf(),
            forall|hh: Hash256, b: Seq<u8>|
                final(self).maps(hh, b) <==> (if hh == h {
                    b == code@
                } else {
                    old(self).maps(hh, b)
                }),
    {
        let ghost pre = *self;
        let ghost codev = code@;
        let mut i: usize = 0;
        while i < self.entries.len()
            invariant
                *self == pre,
                i <= self.entries@.len(),
                forall|j: int| 0 <= j < i ==> (#[trigger] self.entries@[j]).code_hash != h,
            decreases self.entries@.len() - i,
        {
            if self.entries[i].code_hash == h {
                let entry = &mut self.entries[i];
                entry.code = code;
                proof {
                    let ii = i as int;
                    assert(self.entries@.len() == pre.entries@.len());
                    assert(forall|t: int|
                        0 <= t < self.entries@.len() && t != ii ==> self.entries@[t]
                            == pre.entries@[t]);
                    assert(self.entries@[ii].code_hash == h && self.entries@[ii].code@ == codev);
                    assert forall|hh: Hash256, b: Seq<u8>| (*self).maps(hh, b) implies (if hh == h {
                        b == codev
                    } else {
                        pre.maps(hh, b)
                    }) by {
                        let t = choose|t: int|
                            0 <= t < self.entries@.len() && (#[trigger] self.entries@[t]).code_hash
                                == hh && self.entries@[t].code@ == b;
                        if t != ii {
                            assert(pre.entries@[t].code_hash == hh && pre.entries@[t].code@ == b);
                        }
                    }
                    assert forall|hh: Hash256, b: Seq<u8>|
                        hh != h && pre.maps(hh, b) implies (*self).maps(hh, b) by {
                        let t = choose|t: int|
                            0 <= t < pre.entries@.len() && (#[trigger] pre.entries@[t]).code_hash
                                == hh && pre.entries@[t].code@ == b;
                        assert(self.entries@[t].code_hash == hh && self.entries@[t].code@ == b);
                    }
                }
                return ;
            }
            i = i + 1;
        }
        self.entries.push(CodeDbEntry { code_hash: h, code });
        proof {
            let n = pre.entries@.len() as int;
            assert(self.entries@ =~= pre.entries@.push(self.entries@[n]));
            assert(self.entries@[n].code_hash == h && self.entries@[n].code@ == codev);
            assert forall|hh: Hash256, b: Seq<u8>| (*self).maps(hh, b) implies (if hh == h {
                b == codev
            } else {
                pre.maps(hh, b)
            }) by {
                let t = choose|t: int|
                    0 <= t < self.entries@.len() && (#[trigger] self.entries@[t]).code_hash == hh
                        && self.entries@[t].code@ == b;
                if t < n {
                    assert(pre.entries@[t].code_hash == hh && pre.entries@[t].code@ == b);
                }
            }
            assert forall|hh: Hash256, b: Seq<u8>|
                hh != h && pre.maps(hh, b) implies (*self).maps(hh, b) by {
                let t = choose|t: int|
                    0 <= t < pre.entries@.len() && (#[trigger] pre.entries@[t]).code_hash == hh
                        && pre.entries@[t].code@ == b;
                assert(self.entries@[t].code_hash == hh && self.entries@[t].code@ == b);
            }
        }
    }

    /// Looks the hash up, returning the stored bytes if present.
    #[verifier::loop_isolation(false)]
    pub fn get(&self, h: &Hash256) -> (r: Option<&Vec<u8>>)
        ensures
            match r {
                Some(b) => self.maps(*h, b@),
                None => forall|b: Seq<u8>| !self.maps(*h, b),
            },
    {
        let mut i: usize = 0;
        while i < self.entries.len()
            invariant
                i <= self.entries@.len(),
                forall|j: int| 0 <= j < i ==> (#[trigger] self.entries@[j]).code_hash != *h,
            decreases self.entries@.len() - i,
        {
            if self.entries[i].code_hash == *h {
                proof {
                    assert(self.maps(*h, self.entries@[i as int].code@)) by {
                        assert(self.entries@[i as int].code_hash == *h);
                    }
                }
                return Some(&self.entries[i].code);
            }
            i = i + 1;
        }
        None
    }
}

} // verus!
