use zero_tracer::types::{
    Address, Hash256, Word256, BlockContext, Transaction, Receipt, AccountState, DiffEntry,
    StorageSlot, EMPTY_CODE_HASH_HI, EMPTY_CODE_HASH_LO,
};
use zero_tracer::access::AccessSet;
use zero_tracer::codedb::CodeDb;
use zero_tracer::effects::{trace_transaction, CodeUsage, StorageWrite};
use zero_tracer::replay::{BlockReplayer, ReplayError};

fn addr(n: u32) -> Address {
    Address { hi: 0, lo: n }
}

fn word(n: u128) -> Word256 {
    Word256 { hi: 0, lo: n }
}

fn hash(n: u128) -> Hash256 {
    Hash256 { hi: 0, lo: n }
}

fn plain_account(storage: Vec<StorageSlot>) -> AccountState {
    AccountState {
        balance: word(100),
        nonce: 1,
        code_hash: Hash256 { hi: 0, lo: 0 },
        code: None,
        storage,
        touched: true,
        created: false,
        self_destructed: false,
    }
}

#[test]
fn gas_accounting_over_two_transactions() {
    let ctx = BlockContext { beneficiary: addr(9), withdrawal_recipients: vec![] };
    let mut replayer = BlockReplayer::new(&ctx, 2);
    let tx = Transaction { encoded: vec![1, 2, 3] };
    let r1 = Receipt { cumulative_gas_used: 21000, encoded: vec![7] };
    let r2 = Receipt { cumulative_gas_used: 63000, encoded: vec![8] };
    let commit1 = replayer.record_transaction(&tx, Some(&r1), &vec![]).unwrap();
    let commit2 = replayer.record_transaction(&tx, Some(&r2), &vec![]).unwrap();
    assert!(commit1);
    assert!(!commit2);
    assert_eq!(replayer.txn_info[0].meta.gas_used, 21000);
    assert_eq!(replayer.txn_info[1].meta.gas_used, 42000);
    let total: u64 = replayer.txn_info.iter().map(|t| t.meta.gas_used).sum();
    assert_eq!(total, r2.cumulative_gas_used);
    assert_eq!(replayer.cum_gas, 63000);
}

#[test]
fn access_set_seeded_for_zero_transaction_block() {
    let ctx = BlockContext {
        beneficiary: addr(9),
        withdrawal_recipients: vec![addr(10), addr(11)],
    };
    let replayer = BlockReplayer::new(&ctx, 0);
    assert!(replayer.access.covers_address(&addr(9)));
    assert!(replayer.access.covers_address(&addr(10)));
    assert!(replayer.access.covers_address(&addr(11)));
    assert!(!replayer.access.covers_address(&addr(12)));
}

#[test]
fn storage_write_then_read_across_transactions() {
    let ctx = BlockContext { beneficiary: addr(9), withdrawal_recipients: vec![] };
    let mut replayer = BlockReplayer::new(&ctx, 2);
    let a = addr(1);
    let x = hash(42);
    let tx = Transaction { encoded: vec![0xaa] };
    let r1 = Receipt { cumulative_gas_used: 30000, encoded: vec![] };
    let r2 = Receipt { cumulative_gas_used: 60000, encoded: vec![] };
    let diff1 = vec![DiffEntry {
        address: a,
        account: plain_account(vec![StorageSlot {
            key: x,
            original_value: word(0),
            present_value: word(1),
        }]),
    }];
    let diff2 = vec![DiffEntry {
        address: a,
        account: plain_account(vec![StorageSlot {
            key: x,
            original_value: word(1),
            present_value: word(1),
        }]),
    }];
    let commit1 = replayer.record_transaction(&tx, Some(&r1), &diff1).unwrap();
    assert!(commit1, "every transaction but the last is committed");
    replayer.record_transaction(&tx, Some(&r2), &diff2).unwrap();

    let c1 = &replayer.txn_info[0].changes[0];
    assert_eq!(c1.address, a);
    assert_eq!(
        c1.change.storage_written,
        Some(vec![StorageWrite { key: x, value: word(1) }])
    );
    assert_eq!(c1.change.storage_read, None);

    let c2 = &replayer.txn_info[1].changes[0];
    assert_eq!(c2.change.storage_read, Some(vec![x]));
    assert_eq!(c2.change.storage_written, None);

    assert!(replayer.access.tracks_key(&a, &x));
    assert!(replayer.access.covers_address(&a));
    assert!(!replayer.access.tracks_key(&addr(9), &x));
}

#[test]
fn missing_receipt_is_an_explicit_error() {
    let ctx = BlockContext { beneficiary: addr(9), withdrawal_recipients: vec![] };
    let mut replayer = BlockReplayer::new(&ctx, 1);
    let tx = Transaction { encoded: vec![] };
    let r = replayer.record_transaction(&tx, None, &vec![]);
    assert_eq!(r, Err(ReplayError::MissingReceipt));
    assert_eq!(replayer.txn_info.len(), 0);
}

#[test]
fn code_write_only_for_created_accounts() {
    let mut code_db = CodeDb::new();
    let mut access = AccessSet::new();
    let mut cum_gas: u64 = 0;
    let tx = Transaction { encoded: vec![1] };
    let receipt = Receipt { cumulative_gas_used: 21000, encoded: vec![] };
    let code = vec![0x60, 0x00];
    let ch = hash(777);
    let mut created = plain_account(vec![]);
    created.code_hash = ch;
    created.code = Some(code.clone());
    created.created = true;
    let mut known = plain_account(vec![]);
    known.code_hash = ch;
    known.code = Some(code.clone());
    known.created = false;
    let diff = vec![
        DiffEntry { address: addr(1), account: created },
        DiffEntry { address: addr(2), account: known },
    ];
    let t = trace_transaction(&tx, &receipt, &diff, &mut code_db, &mut cum_gas, &mut access);
    assert_eq!(t.changes[0].change.code_usage, Some(CodeUsage::Write(code.clone())));
    assert_eq!(t.changes[1].change.code_usage, Some(CodeUsage::Read(ch)));
    assert_eq!(code_db.get(&ch).cloned(), Some(code));
    assert_eq!(cum_gas, 21000);
}

#[test]
fn empty_code_hash_yields_no_code_usage() {
    let mut code_db = CodeDb::new();
    let mut access = AccessSet::new();
    let mut cum_gas: u64 = 0;
    let tx = Transaction { encoded: vec![] };
    let receipt = Receipt { cumulative_gas_used: 1, encoded: vec![] };
    let mut empty_hash = plain_account(vec![]);
    empty_hash.code_hash = Hash256 { hi: EMPTY_CODE_HASH_HI, lo: EMPTY_CODE_HASH_LO };
    empty_hash.code = Some(vec![1, 2]);
    let diff = vec![DiffEntry { address: addr(3), account: empty_hash }];
    let t = trace_transaction(&tx, &receipt, &diff, &mut code_db, &mut cum_gas, &mut access);
    assert_eq!(t.changes[0].change.code_usage, None);
    assert_eq!(code_db.get(&Hash256 { hi: EMPTY_CODE_HASH_HI, lo: EMPTY_CODE_HASH_LO }), None);
}

#[test]
fn self_destruct_flag_never_false() {
    let mut code_db = CodeDb::new();
    let mut access = AccessSet::new();
    let mut cum_gas: u64 = 0;
    let tx = Transaction { encoded: vec![] };
    let receipt = Receipt { cumulative_gas_used: 5, encoded: vec![] };
    let mut destroyed = plain_account(vec![]);
    destroyed.self_destructed = true;
    let alive = plain_account(vec![]);
    let diff = vec![
        DiffEntry { address: addr(1), account: destroyed },
        DiffEntry { address: addr(2), account: alive },
    ];
    let t = trace_transaction(&tx, &receipt, &diff, &mut code_db, &mut cum_gas, &mut access);
    assert_eq!(t.changes[0].change.self_destructed, Some(true));
    assert_eq!(t.changes[1].change.self_destructed, None);
}

#[test]
fn untouched_account_omits_balance_and_nonce() {
    let mut code_db = CodeDb::new();
    let mut access = AccessSet::new();
    let mut cum_gas: u64 = 0;
    let tx = Transaction { encoded: vec![] };
    let receipt = Receipt { cumulative_gas_used: 5, encoded: vec![] };
    let mut untouched = plain_account(vec![]);
    untouched.touched = false;
    let diff = vec![DiffEntry { address: addr(1), account: untouched }];
    let t = trace_transaction(&tx, &receipt, &diff, &mut code_db, &mut cum_gas, &mut access);
    assert_eq!(t.changes[0].change.balance, None);
    assert_eq!(t.changes[0].change.nonce, None);
    let touched = plain_account(vec![]);
    let diff2 = vec![DiffEntry { address: addr(2), account: touched }];
    let receipt2 = Receipt { cumulative_gas_used: 9, encoded: vec![] };
    let t2 = trace_transaction(&tx, &receipt2, &diff2, &mut code_db, &mut cum_gas, &mut access);
    assert_eq!(t2.changes[0].change.balance, Some(word(100)));
    assert_eq!(t2.changes[0].change.nonce, Some(1));
    assert_eq!(t2.meta.gas_used, 4);
}

#[test]
fn trace_metadata_carries_encodings() {
    let mut code_db = CodeDb::new();
    let mut access = AccessSet::new();
    let mut cum_gas: u64 = 0;
    let tx = Transaction { encoded: vec![0xde, 0xad] };
    let receipt = Receipt { cumulative_gas_used: 100, encoded: vec![0xbe, 0xef] };
    let t = trace_transaction(&tx, &receipt, &vec![], &mut code_db, &mut cum_gas, &mut access);
    assert_eq!(t.meta.byte_code, vec![0xde, 0xad]);
    assert_eq!(t.meta.new_txn_trie_node_byte, vec![0xde, 0xad]);
    assert_eq!(t.meta.new_receipt_trie_node_byte, vec![0xbe, 0xef]);
    assert_eq!(t.meta.gas_used, 100);
}
