//! The effect recorder: turns one transaction's raw state diff and receipt
//! into a structured per-transaction trace entry, while growing the block's
//! access set and code database and keeping the running gas total.

use vstd::prelude::*;
use crate::types::{
    Address, Hash256, Word256, Transaction, Receipt, AccountState, DiffEntry, StorageSlot,
    code_hash_absent, is_code_hash_absent, slot_unchanged, clone_bytes,
};
use crate::access::AccessSet;
use crate::codedb::CodeDb;

verus! {

/// How a transaction used an address's contract code: referenced known code
/// by hash, or introduced the code bytes themselves.
#[derive(Debug, PartialEq, Eq)]
pub enum CodeUsage {
    Read(Hash256),
    Write(Vec<u8>),
}

/// The mathematical shape of a `CodeUsage`.
pub ghost enum CodeUsageView {
    Read(Hash256),
    Write(Seq<u8>),
}

impl View for CodeUsage {
    type V = CodeUsageView;

    open spec fn view(&self) -> CodeUsageView {
        match *self {
            CodeUsage::Read(h) => CodeUsageView::Read(h),
            CodeUsage::Write(ref b) => CodeUsageView::Write(b@),
        }
    }
}

/// One written storage slot in a trace entry: key and new value.
#[derive(Debug, Clone, Copy, PartialEq, Eq, Structural)]
pub struct StorageWrite {
    pub key: Hash256,
    pub value: Word256,
}

/// One transaction's effect on one address. Empty storage collections are
/// absent, not empty; `self_destructed` is present only when true.
#[derive(Debug, PartialEq, Eq)]
pub struct AccountChange {
    pub balance: Option<Word256>,
    pub nonce: Option<u64>,
    pub storage_read: Option<Vec<Hash256>>,
    pub storage_written: Option<Vec<StorageWrite>>,
    pub code_usage: Option<CodeUsage>,
    pub self_destructed: Option<bool>,
}

/// The mathematical shape of an `AccountChange`.
pub ghost struct AccountChangeView {
    pub balance: Option<Word256>,
    pub nonce: Option<u64>,
    pub storage_read: Option<Seq<Hash256>>,
    pub storage_written: Option<Seq<StorageWrite>>,
    pub code_usage: Option<CodeUsageView>,
    pub self_destructed: Option<bool>,
}

impl View for AccountChange {
    type V = AccountChangeView;

    open spec fn view(&self) -> AccountChangeView {
        AccountChangeView {
            balance: self.balance,
            nonce: self.nonce,
            storage_read: match self.storage_read {
                Some(ref v) => Some(v@),
                None => None,
            },
            storage_written: match self.storage_written {
                Some(ref v) => Some(v@),
                None => None,
            },
            code_usage: match self.code_usage {
                Some(ref u) => Some(u@),
                None => None,
            },
            self_destructed: self.self_destructed,
        }
    }
}

/// A transaction trace's metadata: the raw transaction bytes, the gas this
/// transaction used, and the encoded receipt.
pub struct TxnMeta {
    pub byte_code: Vec<u8>,
    pub new_txn_trie_node_byte: Vec<u8>,
    pub gas_used: u64,
    pub new_receipt_trie_node_byte: Vec<u8>,
}

/// One address's change within a transaction trace.
pub struct AccountChangeEntry {
    pub address: Address,
    pub change: AccountChange,
}

/// One transaction's full trace entry.
pub struct TxnTrace {
    pub meta: TxnMeta,
    pub changes: Vec<AccountChangeEntry>,
}

/// The keys of the slots a diff's account read without changing, in diff
/// order.
pub open spec fn reads_of(slots: Seq<StorageSlot>) -> Seq<Hash256>
    decreases slots.len(),
{
    if slots.len() == 0 {
        Seq::empty()
    } else {
        reads_of(slots.drop_last()) + (if slot_unchanged(slots.last()) {
            seq![slots.last().key]
        } else {
            Seq::empty()
        })
    }
}

/// The key/new-value pairs of the slots a diff's account changed, in diff
/// order.
pub open spec fn writes_of(slots: Seq<StorageSlot>) -> Seq<StorageWrite>
    decreases slots.len(),
{
    if slots.len() == 0 {
        Seq::empty()
    } else {
        writes_of(slots.drop_last()) + (if !slot_unchanged(slots.last()) {
            seq![StorageWrite { key: slots.last().key, value: slots.last().present_value }]
        } else {
            Seq::empty()
        })
    }
}

/// The diff entry carries code to record in the code database: a real code
/// hash and available code bytes.
pub open spec fn records_code(e: DiffEntry) -> bool {
    !code_hash_absent(e.account.code_hash) && e.account.code is Some
}

/// The code bytes of a diff entry, empty when absent.
pub open spec fn code_bytes_of(a: AccountState) -> Seq<u8> {
    match a.code {
        Some(ref c) => c@,
        None => Seq::empty(),
    }
}

/// The code usage a diff entry is classified as: none for an absent code
/// hash or missing bytes; a write if the account was created within the
/// transaction; otherwise a read of the known hash.
pub open spec fn code_usage_of(a: AccountState) -> Option<CodeUsageView> {
    if code_hash_absent(a.code_hash) {
        None
    } else {
        match a.code {
            Some(ref c) => Some(
                if a.created {
                    CodeUsageView::Write(c@)
                } else {
                    CodeUsageView::Read(a.code_hash)
                },
            ),
            None => None,
        }
    }
}

/// The account change an effect recorder produces for one diff entry.
pub open spec fn change_of(a: AccountState) -> AccountChangeView {
    AccountChangeView {
        balance: if a.touched {
            Some(a.balance)
        } else {
            None
        },
        nonce: if a.touched {
            Some(a.nonce)
        } else {
            None
        },
        storage_read: if reads_of(a.storage@).len() == 0 {
            None
        } else {
            Some(reads_of(a.storage@))
        },
        storage_written: if writes_of(a.storage@).len() == 0 {
            None
        } else {
            Some(writes_of(a.storage@))
        },
        code_usage: code_usage_of(a),
        self_destructed: if a.self_destructed {
            Some(true)
        } else {
            None
        },
    }
}

/// Some diff entry names this address.
pub open spec fn diff_covers(s: Seq<DiffEntry>, a: Address) -> bool
    decreases s.len(),
{
    if s.len() == 0 {
        false
    } else {
        s.last().address == a || diff_covers(s.drop_last(), a)
    }
}

/// Some slot of the sequence has this key.
pub open spec fn slots_contain(slots: Seq<StorageSlot>, k: Hash256) -> bool
    decreases slots.len(),
{
    if slots.len() == 0 {
        false
    } else {
        slots.last().key == k || slots_contain(slots.drop_last(), k)
    }
}

/// Some diff entry for this address touches this storage key, read or
/// written.
pub open spec fn diff_tracks(s: Seq<DiffEntry>, a: Address, k: Hash256) -> bool
    decreases s.len(),
{
    if s.len() == 0 {
        false
    } else {
        (s.last().address == a && slots_contain(s.last().account.storage@, k)) || diff_tracks(
            s.drop_last(),
            a,
            k,
        )
    }
}

/// The code bytes a diff leaves in the code database under this hash, if
/// any; a later entry's bytes replace an earlier entry's.
pub open spec fn code_update(s: Seq<DiffEntry>, h: Hash256) -> Option<Seq<u8>>
    decreases s.len(),
{
    if s.len() == 0 {
        None
    } else if records_code(s.last()) && s.last().account.code_hash == h {
        Some(code_bytes_of(s.last().account))
    } else {
        code_update(s.drop_last(), h)
    }
}

/// Records the effects of one diff entry: classifies its storage accesses
/// and code usage, inserts touched code into the code database, and
/// registers the address and its touched keys in the access set.
#[verifier::loop_isolation(false)]
fn record_diff_entry(
    diff: &Vec<DiffEntry>,
    i: usize,
    code_db: &mut CodeDb,
    access: &mut AccessSet,
) -> (c: AccountChangeEntry)
    requires
        i < diff@.len(),
        old(code_db).wf(),
        old(access).wf(),
    ensures
        final(code_db).wf(),
        final(access).wf(),
        c.address == diff@[i as int].address,
        c.change@ == change_of(diff@[i as int].account),
        forall|x: Address|
            final(access).covers(x) <==> (old(access).covers(x) || x == diff@[i as int].address),
        forall|x: Address, k: Hash256|
            final(access).tracks(x, k) <==> (old(access).tracks(x, k) || (x == diff@[i as int].address && slots_contain(diff@[i as int].account.storage@, k))),
        forall|h: Hash256, b: Seq<u8>|
            final(code_db).maps(h, b) <==> (if records_code(diff@[i as int]) && diff@[i as int].account.code_hash == h {
                b == code_bytes_of(diff@[i as int].account)
            } else {
                old(code_db).maps(h, b)
            }),
{
    let address = diff[i].address;
    let ghost st = diff@[i as int].account.storage@;
    access.seed(address);
    proof {
        assert(st.take(0).len() == 0);
        assert forall|k: Hash256| !slots_contain(st.take(0), k) by {}
    }
    let mut storage_read: Vec<Hash256> = Vec::new();
    let mut storage_written: Vec<StorageWrite> = Vec::new();
    let mut j: usize = 0;
    while j < diff[i].account.storage.len()
        invariant
            j <= st.len(),
            st == diff@[i as int].account.storage@,
            storage_read@ == reads_of(st.take(j as int)),
            storage_written@ == writes_of(st.take(j as int)),
            access.wf(),
            forall|x: Address|
                access.covers(x) <==> (old(access).covers(x) || x == address),
            forall|x: Address, k: Hash256|
                access.tracks(x, k) <==> (old(access).tracks(x, k) || (x == address
                    && slots_contain(st.take(j as int), k))),
        decreases st.len() - j,
    {
        let slot = StorageSlot {
            key: diff[i].account.storage[j].key,
            original_value: diff[i].account.storage[j].original_value,
            present_value: diff[i].account.storage[j].present_value,
        };
        proof {
            assert(slot == st[j as int]);
        }
        if slot.present_value == slot.original_value {
            storage_read.push(slot.key);
        } else {
            storage_written.push(StorageWrite { key: slot.key, value: slot.present_value });
        }
        access.record(address, slot.key);
        j = j + 1;
        proof {
            let jj = j as int;
            assert(st.take(jj).drop_last() =~= st.take(jj - 1));
            assert(st.take(jj).last() == st[jj - 1]);
            assert(storage_read@ =~= reads_of(st.take(jj)));
            assert(storage_written@ =~= writes_of(st.take(jj)));
            assert forall|k: Hash256|
                slots_contain(st.take(jj), k) <==> (st[jj - 1].key == k || slots_contain(
                    st.take(jj - 1),
                    k,
                )) by {
                assert(st.take(jj).drop_last() =~= st.take(jj - 1));
            }
        }
    }
    proof {
        assert(st.take(st.len() as int) =~= st);
    }
    let code_usage: Option<CodeUsage> = if is_code_hash_absent(&diff[i].account.code_hash) {
        None
    } else {
        match &diff[i].account.code {
            Some(code) => {
                code_db.insert(diff[i].account.code_hash, clone_bytes(code));
                if diff[i].account.created {
                    Some(CodeUsage::Write(clone_bytes(code)))
                } else {
                    Some(CodeUsage::Read(diff[i].account.code_hash))
                }
            },
            None => None,
        }
    };
    let change = AccountChange {
        balance: if diff[i].account.touched {
            Some(diff[i].account.balance)
        } else {
            None
        },
        nonce: if diff[i].account.touched {
            Some(diff[i].account.nonce)
        } else {
            None
        },
        storage_read: if storage_read.len() == 0 {
            None
        } else {
            Some(storage_read)
        },
        storage_written: if storage_written.len() == 0 {
            None
        } else {
            Some(storage_written)
        },
        code_usage,
        self_destructed: if diff[i].account.self_destructed {
            Some(true)
        } else {
            None
        },
    };
    proof {
        assert(change@ == change_of(diff@[i as int].account));
    }
    AccountChangeEntry { address, change }
}

/// Records one transaction: produces its trace entry from the state diff and
/// receipt, inserts touched code into the code database, registers every
/// touched storage key (and every touched address) in the access set, and
/// advances the running cumulative-gas total.
#[verifier::loop_isolation(false)]
#[verifier::rlimit(50)]
pub fn trace_transaction(
    tx: &Transaction,
    receipt: &Receipt,
    diff: &Vec<DiffEntry>,
    code_db: &mut CodeDb,
    cum_gas: &mut u64,
    access: &mut AccessSet,
) -> (t: TxnTrace)
    requires
        *old(cum_gas) <= receipt.cumulative_gas_used,
        old(code_db).wf(),
        old(access).wf(),
    ensures
        final(code_db).wf(),
        final(access).wf(),
        t.meta.byte_code@ == tx.encoded@,
        t.meta.new_txn_trie_node_byte@ == tx.encoded@,
        t.meta.gas_used == receipt.cumulative_gas_used - *old(cum_gas),
        t.meta.new_receipt_trie_node_byte@ == receipt.encoded@,
        *final(cum_gas) == receipt.cumulative_gas_used,
        t.changes@.len() == diff@.len(),
        forall|i: int|
            0 <= i < diff@.len() ==> (#[trigger] t.changes@[i]).address == diff@[i].address
                && t.changes@[i].change@ == change_of(diff@[i].account),
        forall|x: Address|
            final(access).covers(x) <==> (old(access).covers(x) || diff_covers(diff@, x)),
        forall|x: Address, k: Hash256|
            final(access).tracks(x, k) <==> (old(access).tracks(x, k) || diff_tracks(diff@, x, k)),
        forall|h: Hash256, b: Seq<u8>|
            final(code_db).maps(h, b) <==> (match code_update(diff@, h) {
                Some(bb) => b == bb,
                None => old(code_db).maps(h, b),
            }),
{
    let gas_used = receipt.cumulative_gas_used - *cum_gas;
    *cum_gas = receipt.cumulative_gas_used;
    let meta = TxnMeta {
        byte_code: clone_bytes(&tx.encoded),
        new_txn_trie_node_byte: clone_bytes(&tx.encoded),
        gas_used,
        new_receipt_trie_node_byte: clone_bytes(&receipt.encoded),
    };
    let ghost pre_access = *access;
    let ghost pre_db = *code_db;
    let mut changes: Vec<AccountChangeEntry> = Vec::new();
    let mut i: usize = 0;
    while i < diff.len()
        invariant
            i <= diff@.len(),
            changes@.len() == i,
            forall|t: int|
                0 <= t < i ==> (#[trigger] changes@[t]).address == diff@[t].address
                    && changes@[t].change@ == change_of(diff@[t].account),
            access.wf(),
            code_db.wf(),
            forall|x: Address|
                access.covers(x) <==> (pre_access.covers(x) || diff_covers(
                    diff@.take(i as int),
                    x,
                )),
            forall|x: Address, k: Hash256|
                access.tracks(x, k) <==> (pre_access.tracks(x, k) || diff_tracks(
                    diff@.take(i as int),
                    x,
                    k,
                )),
            forall|h: Hash256, b: Seq<u8>|
                code_db.maps(h, b) <==> (match code_update(diff@.take(i as int), h) {
                    Some(bb) => b == bb,
                    None => pre_db.maps(h, b),
                }),
        decreases diff@.len() - i,
    {
        let ghost mid_access = *access;
        let ghost mid_db = *code_db;
        proof {
            assert(forall|x: Address|
                mid_access.covers(x) <==> (pre_access.covers(x) || diff_covers(
                    diff@.take(i as int),
                    x,
                )));
            assert(forall|x: Address, k: Hash256|
                mid_access.tracks(x, k) <==> (pre_access.tracks(x, k) || diff_tracks(
                    diff@.take(i as int),
                    x,
                    k,
                )));
            assert(forall|h: Hash256, b: Seq<u8>|
                mid_db.maps(h, b) <==> (match code_update(diff@.take(i as int), h) {
                    Some(bb) => b == bb,
                    None => pre_db.maps(h, b),
                }));
        }
        let ghost entry_index = i as int;
        let c = record_diff_entry(diff, i, code_db, access);
        let ghost i0 = entry_index;
        changes.push(c);
        i = i + 1;
        proof {
            assert(i as int == i0 + 1);
            assert(diff@.take(i0 + 1).drop_last() =~= diff@.take(i0));
            assert(diff@.take(i0 + 1).last() == diff@[i0]);
            assert forall|x: Address|
                access.covers(x) <==> (pre_access.covers(x) || diff_covers(
                    diff@.take(i0 + 1),
                    x,
                )) by {
                assert(access.covers(x) <==> (mid_access.covers(x) || x == diff@[i0].address));
                assert(diff_covers(diff@.take(i0 + 1), x) <==> (diff@[i0].address == x
                    || diff_covers(diff@.take(i0), x)));
            }
            assert forall|x: Address, k: Hash256|
                access.tracks(x, k) <==> (pre_access.tracks(x, k) || diff_tracks(
                    diff@.take(i0 + 1),
                    x,
                    k,
                )) by {
                assert(access.tracks(x, k) <==> (mid_access.tracks(x, k) || (x
                    == diff@[i0].address && slots_contain(diff@[i0].account.storage@, k))));
                assert(diff_tracks(diff@.take(i0 + 1), x, k) <==> ((diff@[i0].address == x
                    && slots_contain(diff@[i0].account.storage@, k)) || diff_tracks(
                    diff@.take(i0),
                    x,
                    k,
                )));
            }
            assert forall|h: Hash256, b: Seq<u8>|
                code_db.maps(h, b) <==> (match code_update(diff@.take(i0 + 1), h) {
                    Some(bb) => b == bb,
                    None => pre_db.maps(h, b),
                }) by {
                assert(code_db.maps(h, b) <==> (if records_code(diff@[i0])
                    && diff@[i0].account.code_hash == h {
                    b == code_bytes_of(diff@[i0].account)
                } else {
                    mid_db.maps(h, b)
                }));
                assert(code_update(diff@.take(i0 + 1), h) == (if records_code(diff@[i0])
                    && diff@[i0].account.code_hash == h {
                    Some(code_bytes_of(diff@[i0].account))
                } else {
                    code_update(diff@.take(i0), h)
                }));
            }
        }
    }
    proof {
        assert(diff@.take(diff@.len() as int) =~= diff@);
    }
    TxnTrace { meta, changes }
}

proof fn lemma_reads_are_slots(slots: Seq<StorageSlot>, k: Hash256)
    requires
        reads_of(slots).contains(k),
    ensures
        slots_contain(slots, k),
    decreases slots.len(),
{
    if slots.len() > 0 {
        if slot_unchanged(slots.last()) && slots.last().key == k {
        } else {
            assert(reads_of(slots.drop_last()).contains(k)) by {
                let j = choose|j: int|
                    0 <= j < reads_of(slots).len() && reads_of(slots)[j] == k;
                assert(reads_of(slots.drop_last())[j] == k);
            }
            lemma_reads_are_slots(slots.drop_last(), k);
        }
    }
}

proof fn lemma_writes_are_slots(slots: Seq<StorageSlot>, k: Hash256)
    requires
        exists|j: int|
            0 <= j < writes_of(slots).len() && (#[trigger] writes_of(slots)[j]).key == k,
    ensures
        slots_contain(slots, k),
    decreases slots.len(),
{
    if slots.len() > 0 {
        if !slot_unchanged(slots.last()) && slots.last().key == k {
        } else {
            let j = choose|j: int|
                0 <= j < writes_of(slots).len() && (#[trigger] writes_of(slots)[j]).key == k;
            assert(writes_of(slots.drop_last())[j].key == k);
            lemma_writes_are_slots(slots.drop_last(), k);
        }
    }
}

proof fn lemma_slot_gives_diff_tracks(diff: Seq<DiffEntry>, i: int, k: Hash256)
    requires
        0 <= i < diff.len(),
        slots_contain(diff[i].account.storage@, k),
    ensures
        diff_tracks(diff, diff[i].address, k),
    decreases diff.len(),
{
    if i == diff.len() - 1 {
    } else {
        assert(diff.drop_last()[i] == diff[i]);
        lemma_slot_gives_diff_tracks(diff.drop_last(), i, k);
    }
}

/// Access-set invariant: every storage key a produced account change lists,
/// read or written, is registered in the access set for that address once
/// the transaction is recorded.
pub proof fn lemma_change_keys_tracked(
    before: AccessSet,
    after: AccessSet,
    diff: Seq<DiffEntry>,
    i: int,
    k: Hash256,
)
    requires
        forall|x: Address, kk: Hash256|
            after.tracks(x, kk) <==> (before.tracks(x, kk) || diff_tracks(diff, x, kk)),
        0 <= i < diff.len(),
        (match change_of(diff[i].account).storage_read {
            Some(s) => s.contains(k),
            None => false,
        }) || (match change_of(diff[i].account).storage_written {
            Some(s) => exists|j: int| 0 <= j < s.len() && (#[trigger] s[j]).key == k,
            None => false,
        }),
    ensures
        after.tracks(diff[i].address, k),
{
    let slots = diff[i].account.storage@;
    match change_of(diff[i].account).storage_read {
        Some(s) => {
            if s.contains(k) {
                lemma_reads_are_slots(slots, k);
            }
        },
        None => {},
    }
    if !slots_contain(slots, k) {
        match change_of(diff[i].account).storage_written {
            Some(s) => {
                lemma_writes_are_slots(slots, k);
            },
            None => {},
        }
    }
    lemma_slot_gives_diff_tracks(diff, i, k);
}

/// A `write` code usage appears for an address only if that address's
/// contract was created within the same transaction.
pub proof fn lemma_code_write_only_when_created(a: AccountState)
    ensures
        (change_of(a).code_usage matches Some(u) && u is Write) ==> a.created,
{
}

/// A produced account change never carries an explicit `false`
/// self-destruct flag: absence means "not self-destructed".
pub proof fn lemma_self_destruct_never_false(a: AccountState)
    ensures
        change_of(a).self_destructed != Some(false),
{
}

} // verus!
