//! The trace store: one record per block hash (the unique primary key)
//! holding the block number and the serialized trace blob. The block number
//! is a non-unique secondary lookup. The host wraps this model around its
//! persistence engine; queries arrive through the surface at the bottom.

use vstd::prelude::*;
use crate::types::{Hash256, BlockNumberOrTag, clone_bytes};
use crate::error::{DatabaseError, ZeroApiError};

verus! {

/// One stored trace: block hash, block number, serialized trace.
pub struct TraceRecord {
    pub block_hash: Hash256,
    pub block_number: u64,
    pub trace_blob: Vec<u8>,
}

/// The store of finished block traces, in insertion order.
pub struct TraceStore {
    pub records: Vec<TraceRecord>,
}

/// No two records share a block hash.
pub open spec fn unique_hashes(s: Seq<TraceRecord>) -> bool {
    forall|i: int, j: int|
        0 <= i < j < s.len() ==> (#[trigger] s[i]).block_hash != (#[trigger] s[j]).block_hash
}

/// The first record with this block hash, if any.
pub open spec fn lookup_hash(s: Seq<TraceRecord>, h: Hash256) -> Option<TraceRecord>
    decreases s.len(),
{
    if s.len() == 0 {
        None
    } else if s[0].block_hash == h {
        Some(s[0])
    } else {
        lookup_hash(s.drop_first(), h)
    }
}

/// The first record with this block number, if any.
pub open spec fn lookup_number(s: Seq<TraceRecord>, n: u64) -> Option<TraceRecord>
    decreases s.len(),
{
    if s.len() == 0 {
        None
    } else if s[0].block_number == n {
        Some(s[0])
    } else {
        lookup_number(s.drop_first(), n)
    }
}

/// The records without the first one carrying this hash; with unique hashes,
/// without every trace of the hash.
pub open spec fn remove_hash(s: Seq<TraceRecord>, h: Hash256) -> Seq<TraceRecord>
    decreases s.len(),
{
    if s.len() == 0 {
        s
    } else if s[0].block_hash == h {
        s.drop_first()
    } else {
        seq![s[0]] + remove_hash(s.drop_first(), h)
    }
}

proof fn lemma_lookup_hash_at(s: Seq<TraceRecord>, h: Hash256, i: int)
    requires
        0 <= i < s.len(),
        s[i].block_hash == h,
        forall|j: int| 0 <= j < i ==> (#[trigger] s[j]).block_hash != h,
    ensures
        lookup_hash(s, h) == Some(s[i]),
    decreases i,
{
    if i > 0 {
        assert forall|j: int| 0 <= j < i - 1 implies (#[trigger] s.drop_first()[j]).block_hash
            != h by {
            assert(s.drop_first()[j] == s[j + 1]);
        }
        lemma_lookup_hash_at(s.drop_first(), h, i - 1);
    }
}

proof fn lemma_lookup_hash_none(s: Seq<TraceRecord>, h: Hash256)
    requires
        forall|j: int| 0 <= j < s.len() ==> (#[trigger] s[j]).block_hash != h,
    ensures
        lookup_hash(s, h) is None,
    decreases s.len(),
{
    if s.len() > 0 {
        assert forall|j: int|
            0 <= j < s.drop_first().len() implies (#[trigger] s.drop_first()[j]).block_hash
            != h by {
            assert(s.drop_first()[j] == s[j + 1]);
        }
        lemma_lookup_hash_none(s.drop_first(), h);
    }
}

proof fn lemma_lookup_number_at(s: Seq<TraceRecord>, n: u64, i: int)
    requires
        0 <= i < s.len(),
        s[i].block_number == n,
        forall|j: int| 0 <= j < i ==> (#[trigger] s[j]).block_number != n,
    ensures
        lookup_number(s, n) == Some(s[i]),
    decreases i,
{
    if i > 0 {
        assert forall|j: int| 0 <= j < i - 1 implies (#[trigger] s.drop_first()[j]).block_number
            != n by {
            assert(s.drop_first()[j] == s[j + 1]);
        }
        lemma_lookup_number_at(s.drop_first(), n, i - 1);
    }
}

proof fn lemma_lookup_number_none(s: Seq<TraceRecord>, n: u64)
    requires
        forall|j: int| 0 <= j < s.len() ==> (#[trigger] s[j]).block_number != n,
    ensures
        lookup_number(s, n) is None,
    decreases s.len(),
{
    if s.len() > 0 {
        assert forall|j: int|
            0 <= j < s.drop_first().len() implies (#[trigger] s.drop_first()[j]).block_number
            != n by {
            assert(s.drop_first()[j] == s[j + 1]);
        }
        lemma_lookup_number_none(s.drop_first(), n);
    }
}

proof fn lemma_remove_hash_at(s: Seq<TraceRecord>, h: Hash256, i: int)
    requires
        0 <= i < s.len(),
        s[i].block_hash == h,
        forall|j: int| 0 <= j < i ==> (#[trigger] s[j]).block_hash != h,
    ensures
        remove_hash(s, h) == s.remove(i),
    decreases i,
{
    if i == 0 {
        assert(remove_hash(s, h) =~= s.remove(0));
    } else {
        assert forall|j: int| 0 <= j < i - 1 implies (#[trigger] s.drop_first()[j]).block_hash
            != h by {
            assert(s.drop_first()[j] == s[j + 1]);
        }
        lemma_remove_hash_at(s.drop_first(), h, i - 1);
        assert(remove_hash(s, h) == seq![s[0]] + s.drop_first().remove(i - 1));
        assert(seq![s[0]] + s.drop_first().remove(i - 1) =~= s.remove(i));
    }
}

proof fn lemma_remove_hash_none(s: Seq<TraceRecord>, h: Hash256)
    requires
        forall|j: int| 0 <= j < s.len() ==> (#[trigger] s[j]).block_hash != h,
    ensures
        remove_hash(s, h) == s,
    decreases s.len(),
{
    if s.len() > 0 {
        assert forall|j: int|
            0 <= j < s.drop_first().len() implies (#[trigger] s.drop_first()[j]).block_hash
            != h by {
            assert(s.drop_first()[j] == s[j + 1]);
        }
        lemma_remove_hash_none(s.drop_first(), h);
        assert(seq![s[0]] + s.drop_first() =~= s);
    }
}

/// Extracts the literal block number of a query identifier; a symbolic
/// tag is rejected before any lookup happens.
pub fn literal_block_number(number: BlockNumberOrTag) -> (r: Result<u64, ZeroApiError>)
    ensures
        match number {
            BlockNumberOrTag::Number(n) => r == Result::<u64, ZeroApiError>::Ok(n),
            _ => r == Result::<u64, ZeroApiError>::Err(ZeroApiError::UnsupportedBlockTag),
        },
{
    match number {
        BlockNumberOrTag::Number(n) => Ok(n),
        _ => Err(ZeroApiError::UnsupportedBlockTag),
    }
}

impl TraceStore {
    /// An empty store.
    pub fn new() -> (r: TraceStore)
        ensures
            unique_hashes(r.records@),
            r.records@.len() == 0,
    {
        TraceStore { records: Vec::new() }
    }

    /// Persists a finished trace under its block hash. A second trace for a
    /// hash already present is refused, and nothing changes.
    #[verifier::loop_isolation(false)]
    pub fn commit_block_trace(
        &mut self,
        block_hash: Hash256,
        block_number: u64,
        trace_blob: Vec<u8>,
    ) -> (r: Result<(), DatabaseError>)
        requires
            unique_hashes(old(self).records@),
        ensures
            unique_hashes(final(self).records@),
            match r {
                Ok(()) => {
                    &&& lookup_hash(old(self).records@, block_hash) is None
                    &&& final(self).records@.len() == old(self).records@.len() + 1
                    &&& final(self).records@.take(old(self).records@.len() as int) == old(
                        self,
                    ).records@
                    &&& final(self).records@.last().block_hash == block_hash
                    &&& final(self).records@.last().block_number == block_number
                    &&& final(self).records@.last().trace_blob@ == trace_blob@
                },
                Err(e) => {
                    &&& lookup_hash(old(self).records@, block_hash) is Some
                    &&& e == DatabaseError::FailedToInsertTrace
                    &&& *final(self) == *old(self)
                },
            },
    {
        let ghost pre = self.records@;
        let mut i: usize = 0;
        while i < self.records.len()
            invariant
                self.records@ == pre,
                i <= pre.len(),
                forall|j: int| 0 <= j < i ==> (#[trigger] pre[j]).block_hash != block_hash,
            decreases pre.len() - i,
        {
            if self.records[i].block_hash == block_hash {
                proof {
                    lemma_lookup_hash_at(pre, block_hash, i as int);
                }
                return Err(DatabaseError::FailedToInsertTrace);
            }
            i = i + 1;
        }
        proof {
            lemma_lookup_hash_none(pre, block_hash);
        }
        self.records.push(TraceRecord { block_hash, block_number, trace_blob });
        proof {
            assert(self.records@.take(pre.len() as int) =~= pre);
            let n = pre.len() as int;
            assert forall|x: int, y: int|
                0 <= x < y < self.records@.len() implies (#[trigger] self.records@[x]).block_hash
                != (#[trigger] self.records@[y]).block_hash by {
                if y == n {
                    assert(self.records@[x] == pre[x]);
                }
            }
        }
        Ok(())
    }

    /// Looks a trace up by block hash.
    #[verifier::loop_isolation(false)]
    pub fn get_block_trace_by_hash(&self, block_hash: &Hash256) -> (r: Option<&Vec<u8>>)
        ensures
            match r {
                Some(b) => lookup_hash(self.records@, *block_hash) matches Some(rec) && b@
                    == rec.trace_blob@,
                None => lookup_hash(self.records@, *block_hash) is None,
            },
    {
        let mut i: usize = 0;
        while i < self.records.len()
            invariant
                i <= self.records@.len(),
                forall|j: int|
                    0 <= j < i ==> (#[trigger] self.records@[j]).block_hash != *block_hash,
            decreases self.records@.len() - i,
        {
            if self.records[i].block_hash == *block_hash {
                proof {
                    lemma_lookup_hash_at(self.records@, *block_hash, i as int);
                }
                return Some(&self.records[i].trace_blob);
            }
            i = i + 1;
        }
        proof {
            lemma_lookup_hash_none(self.records@, *block_hash);
        }
        None
    }

    /// Looks a trace up by block number; the earliest stored record with the
    /// number answers, which is unambiguous while reverts are processed
    /// before re-commits at the same height.
    #[verifier::loop_isolation(false)]
    pub fn get_block_trace_by_number(&self, block_number: u64) -> (r: Option<&Vec<u8>>)
        ensures
            match r {
                Some(b) => lookup_number(self.records@, block_number) matches Some(rec) && b@
                    == rec.trace_blob@,
                None => lookup_number(self.records@, block_number) is None,
            },
    {
        let mut i: usize = 0;
        while i < self.records.len()
            invariant
                i <= self.records@.len(),
                forall|j: int|
                    0 <= j < i ==> (#[trigger] self.records@[j]).block_number != block_number,
            decreases self.records@.len() - i,
        {
            if self.records[i].block_number == block_number {
                proof {
                    lemma_lookup_number_at(self.records@, block_number, i as int);
                }
                return Some(&self.records[i].trace_blob);
            }
            i = i + 1;
        }
        proof {
            lemma_lookup_number_none(self.records@, block_number);
        }
        None
    }

    /// Deletes the trace stored under this block hash, if any; every other
    /// record is untouched.
    #[verifier::loop_isolation(false)]
    pub fn delete_block_trace_by_hash(&mut self, block_hash: &Hash256)
        requires
            unique_hashes(old(self).records@),
        ensures
            unique_hashes(final(self).records@),
            final(self).records@ == remove_hash(old(self).records@, *block_hash),
    {
        let ghost pre = self.records@;
        let mut i: usize = 0;
        while i < self.records.len()
            invariant
                self.records@ == pre,
                i <= pre.len(),
                forall|j: int| 0 <= j < i ==> (#[trigger] pre[j]).block_hash != *block_hash,
            decreases pre.len() - i,
        {
            if self.records[i].block_hash == *block_hash {
                proof {
                    lemma_remove_hash_at(pre, *block_hash, i as int);
                }
                let _ = self.records.remove(i);
                proof {
                    let n = i as int;
                    assert forall|x: int, y: int|
                        0 <= x < y < self.records@.len() implies (
                    #[trigger] self.records@[x]).block_hash != (
                    #[trigger] self.records@[y]).block_hash by {
                        let px: int = if x < n {
                            x
                        } else {
                            x + 1
                        };
                        let py: int = if y < n {
                            y
                        } else {
                            y + 1
                        };
                        assert(self.records@[x] == pre[px]);
                        assert(self.records@[y] == pre[py]);
                    }
                }
                return ;
            }
            i = i + 1;
        }
        proof {
            lemma_remove_hash_none(pre, *block_hash);
        }
    }

    /// Answers a query by block number. A symbolic tag is rejected before
    /// any lookup; a missing trace is a distinct not-found error.
    pub fn zero_trace_block_by_number(&self, number: BlockNumberOrTag) -> (r: Result<
        Vec<u8>,
        ZeroApiError,
    >)
        ensures
            match number {
                BlockNumberOrTag::Number(n) => (match lookup_number(self.records@, n) {
                    Some(rec) => r matches Ok(b) && b@ == rec.trace_blob@,
                    None => r == Result::<Vec<u8>, ZeroApiError>::Err(
                        ZeroApiError::TraceNotFoundForBlockNumber(n),
                    ),
                }),
                _ => r == Result::<Vec<u8>, ZeroApiError>::Err(ZeroApiError::UnsupportedBlockTag),
            },
    {
        let n = match literal_block_number(number) {
            Ok(n) => n,
            Err(e) => {
                return Err(e);
            },
        };
        match self.get_block_trace_by_number(n) {
            Some(b) => Ok(clone_bytes(b)),
            None => Err(ZeroApiError::TraceNotFoundForBlockNumber(n)),
        }
    }

    /// Answers a query by block hash; a missing trace is a distinct
    /// not-found error.
    pub fn zero_trace_block_by_hash(&self, block_hash: &Hash256) -> (r: Result<
        Vec<u8>,
        ZeroApiError,
    >)
        ensures
            match lookup_hash(self.records@, *block_hash) {
                Some(rec) => r matches Ok(b) && b@ == rec.trace_blob@,
                None => r == Result::<Vec<u8>, ZeroApiError>::Err(
                    ZeroApiError::TraceNotFoundForBlockHash(*block_hash),
                ),
            },
    {
        match self.get_block_trace_by_hash(block_hash) {
            Some(b) => Ok(clone_bytes(b)),
            None => Err(ZeroApiError::TraceNotFoundForBlockHash(*block_hash)),
        }
    }
}

/// Round-trip law: after storing a trace under a fresh hash and number, the
/// lookup by that hash and the lookup by that number both answer with
/// exactly the stored record.
pub proof fn lemma_store_round_trip(s: Seq<TraceRecord>, rec: TraceRecord)
    requires
        lookup_hash(s, rec.block_hash) is None,
        lookup_number(s, rec.block_number) is None,
    ensures
        lookup_hash(s.push(rec), rec.block_hash) == Some(rec),
        lookup_number(s.push(rec), rec.block_number) == Some(rec),
    decreases s.len(),
{
    if s.len() == 0 {
        assert(s.push(rec)[0] == rec);
    } else {
        assert(s.push(rec)[0] == s[0]);
        assert(s.push(rec).drop_first() =~= s.drop_first().push(rec));
        lemma_store_round_trip(s.drop_first(), rec);
    }
}

/// Deletion law: after deleting a hash from a store with unique hashes, the
/// hash is gone, and every other hash still answers exactly as before.
pub proof fn lemma_delete_isolation(s: Seq<TraceRecord>, h: Hash256)
    requires
        unique_hashes(s),
    ensures
        lookup_hash(remove_hash(s, h), h) is None,
        forall|h2: Hash256| h2 != h ==> lookup_hash(remove_hash(s, h), h2) == lookup_hash(s, h2),
    decreases s.len(),
{
    if s.len() > 0 {
        assert forall|i: int, j: int|
            0 <= i < j < s.drop_first().len() implies (#[trigger] s.drop_first()[i]).block_hash
            != (#[trigger] s.drop_first()[j]).block_hash by {
            assert(s.drop_first()[i] == s[i + 1]);
            assert(s.drop_first()[j] == s[j + 1]);
        }
        lemma_delete_isolation(s.drop_first(), h);
        if s[0].block_hash == h {
            assert(remove_hash(s, h) == s.drop_first());
            assert forall|j: int|
                0 <= j < s.drop_first().len() implies (#[trigger] s.drop_first()[j]).block_hash
                != h by {
                assert(s.drop_first()[j] == s[j + 1]);
            }
            lemma_lookup_hash_none(s.drop_first(), h);
        } else {
            assert(remove_hash(s, h) == seq![s[0]] + remove_hash(s.drop_first(), h));
            let t = remove_hash(s, h);
            assert(t.len() >= 1);
            assert(t[0] == s[0]);
            assert(t.drop_first() =~= remove_hash(s.drop_first(), h));
            assert(lookup_hash(t, h) is None);
            assert forall|h2: Hash256| h2 != h implies lookup_hash(remove_hash(s, h), h2)
                == lookup_hash(s, h2) by {
                if s[0].block_hash == h2 {
                    assert(lookup_hash(t, h2) == Some(t[0]));
                    assert(lookup_hash(s, h2) == Some(s[0]));
                } else {
                    assert(lookup_hash(t, h2) == lookup_hash(t.drop_first(), h2));
                    assert(lookup_hash(remove_hash(s.drop_first(), h), h2) == lookup_hash(
                        s.drop_first(),
                        h2,
                    ));
                    assert(lookup_hash(t.drop_first(), h2) == lookup_hash(
                        remove_hash(s.drop_first(), h),
                        h2,
                    ));
                    assert(lookup_hash(s, h2) == lookup_hash(s.drop_first(), h2));
                }
            }
        }
    }
}

} // verus!
