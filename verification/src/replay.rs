//! The transaction replayer and block-trace assembler.
//!
//! The host executes each transaction against its working state view (the
//! EVM and the state provider are external capabilities) and hands the
//! resulting diff here in block order. This module seeds the access set,
//! records every transaction's effects, keeps the cumulative-gas bookkeeping
//! honest, tells the host whether to commit the diff — every transaction but
//! the last, whose commit is unobservable — and finally assembles the block
//! trace from the witness material.

use vstd::prelude::*;
use crate::types::{Address, Hash256, BlockContext, Transaction, Receipt, DiffEntry};
use crate::access::{AccessSet, AccessEntry};
use crate::codedb::CodeDb;
use crate::effects::{TxnTrace, trace_transaction, change_of, diff_covers, diff_tracks, code_update};
use crate::witness::{WitnessResponse, TriePreImages, WitnessError, assemble_trie_pre_images, built_trie, hashed_address, nonempty_storage, witness_nodes_valid};

verus! {

/// An input contract violation during replay.
#[derive(Clone, Copy, Debug, PartialEq, Eq, Structural)]
pub enum ReplayError {
    /// A transaction that must carry a receipt arrived without one.
    MissingReceipt,
}

/// The complete artifact for one block: the ordered transaction traces, the
/// code database, and the trie pre-images of the witness.
pub struct BlockTrace {
    pub txn_info: Vec<TxnTrace>,
    pub code_db: CodeDb,
    pub trie_pre_images: TriePreImages,
}

/// The gas the traces account for, in order.
pub open spec fn sum_gas(traces: Seq<TxnTrace>) -> int
    decreases traces.len(),
{
    if traces.len() == 0 {
        0
    } else {
        sum_gas(traces.drop_last()) + traces.last().meta.gas_used
    }
}

/// The replay state of one block while its transactions are processed in
/// block order.
pub struct BlockReplayer {
    pub access: AccessSet,
    pub code_db: CodeDb,
    pub txn_info: Vec<TxnTrace>,
    pub cum_gas: u64,
    pub remaining: usize,
}

impl BlockReplayer {
    /// The collections are well formed and the recorded traces account for
    /// exactly the running cumulative gas.
    pub open spec fn wf(self) -> bool {
        self.access.wf() && self.code_db.wf() && sum_gas(self.txn_info@) == self.cum_gas
    }

    /// Starts the replay of a block with `txn_count` transactions: the access
    /// set is seeded with the beneficiary and every withdrawal recipient —
    /// and with nothing else — even for a zero-transaction block.
    #[verifier::loop_isolation(false)]
    pub fn new(ctx: &BlockContext, txn_count: usize) -> (r: BlockReplayer)
        ensures
            r.wf(),
            forall|a: Address|
                r.access.covers(a) <==> (a == ctx.beneficiary
                    || ctx.withdrawal_recipients@.contains(a)),
            forall|a: Address, k: Hash256| !r.access.tracks(a, k),
            forall|h: Hash256, b: Seq<u8>| !r.code_db.maps(h, b),
            r.txn_info@.len() == 0,
            r.cum_gas == 0,
            r.remaining == txn_count,
    {
        let mut access = AccessSet::new();
        access.seed(ctx.beneficiary);
        let mut i: usize = 0;
        while i < ctx.withdrawal_recipients.len()
            invariant
                i <= ctx.withdrawal_recipients@.len(),
                access.wf(),
                forall|a: Address|
                    access.covers(a) <==> (a == ctx.beneficiary
                        || ctx.withdrawal_recipients@.take(i as int).contains(a)),
                forall|a: Address, k: Hash256| !access.tracks(a, k),
            decreases ctx.withdrawal_recipients@.len() - i,
        {
            access.seed(ctx.withdrawal_recipients[i]);
            i = i + 1;
            proof {
                let ii = i as int;
                let w = ctx.withdrawal_recipients@;
                assert forall|a: Address|
                    w.take(ii).contains(a) <==> (w.take(ii - 1).contains(a) || w[ii - 1]
                        == a) by {
                    if w.take(ii).contains(a) {
                        let t = choose|t: int| 0 <= t < ii && (#[trigger] w.take(ii)[t]) == a;
                        if t < ii - 1 {
                            assert(w.take(ii - 1)[t] == a);
                        }
                    }
                    if w.take(ii - 1).contains(a) {
                        let t = choose|t: int| 0 <= t < ii - 1 && (#[trigger] w.take(ii - 1)[t]) == a;
                        assert(w.take(ii)[t] == a);
                    }
                    if w[ii - 1] == a {
                        assert(w.take(ii)[ii - 1] == a);
                    }
                }
            }
        }
        proof {
            assert(ctx.withdrawal_recipients@.take(ctx.withdrawal_recipients@.len() as int)
                =~= ctx.withdrawal_recipients@);
        }
        BlockReplayer {
            access,
            code_db: CodeDb::new(),
            txn_info: Vec::new(),
            cum_gas: 0,
            remaining: txn_count,
        }
    }

    /// Records the next transaction in block order. A missing receipt is an
    /// input contract violation reported as an explicit error that changes
    /// nothing. On success the result says whether the host must commit the
    /// diff into its working view: yes for every transaction but the block's
    /// last, whose commit no later replay step observes.
    pub fn record_transaction(
        &mut self,
        tx: &Transaction,
        receipt: Option<&Receipt>,
        diff: &Vec<DiffEntry>,
    ) -> (r: Result<bool, ReplayError>)
        requires
            old(self).wf(),
            old(self).remaining >= 1,
            match receipt {
                Some(rc) => rc.cumulative_gas_used >= old(self).cum_gas,
                None => true,
            },
        ensures
            match r {
                Ok(commit) => match receipt {
                    Some(rc) => {
                        &&& final(self).wf()
                        &&& commit == (old(self).remaining > 1)
                        &&& final(self).remaining == old(self).remaining - 1
                        &&& final(self).cum_gas == rc.cumulative_gas_used
                        &&& final(self).txn_info@.len() == old(self).txn_info@.len() + 1
                        &&& final(self).txn_info@.take(old(self).txn_info@.len() as int)
                            == old(self).txn_info@
                        &&& final(self).txn_info@.last().meta.byte_code@ == tx.encoded@
                        &&& final(self).txn_info@.last().meta.new_txn_trie_node_byte@
                            == tx.encoded@
                        &&& final(self).txn_info@.last().meta.gas_used == rc.cumulative_gas_used
                            - old(self).cum_gas
                        &&& final(self).txn_info@.last().meta.new_receipt_trie_node_byte@
                            == rc.encoded@
                        &&& final(self).txn_info@.last().changes@.len() == diff@.len()
                        &&& forall|i: int|
                            0 <= i < diff@.len() ==> (#[trigger] final(self).txn_info@.last().changes@[i]).address
                                == diff@[i].address
                                && final(self).txn_info@.last().changes@[i].change@
                                == change_of(diff@[i].account)
                        &&& forall|x: Address|
                            final(self).access.covers(x) <==> (old(self).access.covers(x)
                                || diff_covers(diff@, x))
                        &&& forall|x: Address, k: Hash256|
                            final(self).access.tracks(x, k) <==> (old(self).access.tracks(x, k)
                                || diff_tracks(diff@, x, k))
                        &&& forall|h: Hash256, b: Seq<u8>|
                            final(self).code_db.maps(h, b) <==> (match code_update(diff@, h) {
                                Some(bb) => b == bb,
                                None => old(self).code_db.maps(h, b),
                            })
                    },
                    None => false,
                },
                Err(e) => receipt is None && e == ReplayError::MissingReceipt && *final(self)
                    == *old(self),
            },
    {
        let rc = match receipt {
            Some(rc) => rc,
            None => {
                return Err(ReplayError::MissingReceipt);
            },
        };
        let ghost pre_infos = self.txn_info@;
        let ghost pre_cum = self.cum_gas;
        let t = trace_transaction(
            tx,
            rc,
            diff,
            &mut self.code_db,
            &mut self.cum_gas,
            &mut self.access,
        );
        self.txn_info.push(t);
        proof {
            assert(self.txn_info@.drop_last() =~= pre_infos);
            assert(self.txn_info@.take(pre_infos.len() as int) =~= pre_infos);
            assert(sum_gas(self.txn_info@) == sum_gas(pre_infos) + self.txn_info@.last().meta.gas_used);
            assert(sum_gas(self.txn_info@) == self.cum_gas);
        }
        let commit = self.remaining > 1;
        self.remaining = self.remaining - 1;
        Ok(commit)
    }

    /// The accumulated access entries, one per covered address with its
    /// touched keys: the access-request list the host turns into the single
    /// witness request against the pre-block state.
    pub fn access_entries(&self) -> (r: &Vec<AccessEntry>)
        ensures
            r@ == self.access.entries@,
    {
        &self.access.entries
    }

    /// Assembles the block trace once every transaction has been recorded,
    /// from the witness material the host fetched for the access set against
    /// the pre-block state. A witness holding an undecodable proof node is
    /// refused as a typed error; entries with the empty or zero storage root
    /// produce no storage-trie entry.
    pub fn finish(self, witness: WitnessResponse) -> (r: Result<BlockTrace, WitnessError>)
        requires
            self.wf(),
            self.remaining == 0,
        ensures
            match r {
                Ok(bt) => {
                    &&& witness_nodes_valid(witness)
                    &&& bt.txn_info@ == self.txn_info@
                    &&& bt.code_db == self.code_db
                    &&& sum_gas(bt.txn_info@) == self.cum_gas
                    &&& bt.trie_pre_images.state == built_trie(
                        witness.state_root,
                        witness.account_nodes.deep_view().to_set(),
                    )
                    &&& bt.trie_pre_images.storage@.len() == nonempty_storage(
                        witness.storage@,
                    ).len()
                    &&& forall|i: int|
                        0 <= i < bt.trie_pre_images.storage@.len() ==> (
                        #[trigger] bt.trie_pre_images.storage@[i]).hashed_address
                            == hashed_address(nonempty_storage(witness.storage@)[i].address)
                            && bt.trie_pre_images.storage@[i].trie == built_trie(
                            nonempty_storage(witness.storage@)[i].storage_root,
                            nonempty_storage(witness.storage@)[i].nodes.deep_view().to_set(),
                        )
                },
                Err(e) => e == WitnessError::UndecodableProofNode && !witness_nodes_valid(
                    witness,
                ),
            },
    {
        let BlockReplayer { access: _, code_db, txn_info, cum_gas: _, remaining: _ } = self;
        match assemble_trie_pre_images(witness) {
            Ok(trie_pre_images) => Ok(BlockTrace { txn_info, code_db, trie_pre_images }),
            Err(e) => Err(e),
        }
    }
}

/// Gas accounting law: when every trace's `gas_used` is the difference
/// between its receipt's cumulative gas and the previous receipt's, each
/// prefix of the traces accounts for exactly its last receipt's cumulative
/// value, and the whole block's traces account for the final cumulative gas.
pub proof fn lemma_gas_reconciliation(traces: Seq<TxnTrace>, cums: Seq<u64>)
    requires
        traces.len() == cums.len(),
        forall|i: int|
            0 <= i < traces.len() ==> (#[trigger] traces[i]).meta.gas_used == cums[i] - (if i == 0 {
                0
            } else {
                cums[i - 1]
            }),
    ensures
        forall|k: int| 0 <= k < traces.len() ==> sum_gas(traces.take(k + 1)) == cums[k],
        traces.len() > 0 ==> sum_gas(traces) == cums[traces.len() - 1],
    decreases traces.len(),
{
    if traces.len() > 0 {
        let n = traces.len() - 1;
        assert forall|i: int|
            0 <= i < traces.drop_last().len() implies (#[trigger] traces.drop_last()[i]).meta.gas_used
            == cums.drop_last()[i] - (if i == 0 {
                0
            } else {
                cums.drop_last()[i - 1]
            }) by {
            assert(traces.drop_last()[i] == traces[i]);
            assert(cums.drop_last()[i] == cums[i]);
            if i > 0 {
                assert(cums.drop_last()[i - 1] == cums[i - 1]);
            }
        }
        lemma_gas_reconciliation(traces.drop_last(), cums.drop_last());
        assert forall|k: int| 0 <= k < traces.len() implies sum_gas(traces.take(k + 1))
            == cums[k] by {
            if k < n {
                assert(traces.drop_last().take(k + 1) =~= traces.take(k + 1));
            } else {
                assert(traces.take(n + 1) =~= traces);
                assert(traces.drop_last().take(n) =~= traces.drop_last());
                assert(traces.last() == traces[n]);
                if n == 0 {
                    assert(sum_gas(traces) == sum_gas(traces.drop_last()) + traces.last().meta.gas_used);
                } else {
                    assert(sum_gas(traces.drop_last().take(n)) == cums[n - 1]);
                    assert(sum_gas(traces) == sum_gas(traces.drop_last()) + traces.last().meta.gas_used);
                }
            }
        }
        assert(traces.take(n + 1) =~= traces);
        assert(sum_gas(traces.take(n + 1)) == cums[n]);
        assert(sum_gas(traces) == cums[traces.len() - 1]);
    }
}

/// Coverage law: recording a transaction never removes an address from the
/// access set, so the beneficiary and the withdrawal recipients seeded at
/// block start stay covered through the whole replay.
pub proof fn lemma_coverage_preserved(
    before: AccessSet,
    after: AccessSet,
    diff: Seq<DiffEntry>,
    a: Address,
)
    requires
        forall|x: Address| after.covers(x) <==> (before.covers(x) || diff_covers(diff, x)),
        before.covers(a),
    ensures
        after.covers(a),
{
}

} // verus!
