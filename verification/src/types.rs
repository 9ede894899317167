//! Plain-value models of the chain data the tracer works on.
//!
//! Addresses, hashes and 256-bit words are held as pairs of machine integers;
//! the host converts between these and its own representations at the edge.

use vstd::prelude::*;

verus! {

/// A 20-byte account address: 16 high bytes and 4 low bytes, big-endian.
#[derive(Clone, Copy, Debug, PartialEq, Eq, Structural, Hash)]
pub struct Address {
    pub hi: u128,
    pub lo: u32,
}

/// A 32-byte hash value (block hash, code hash, storage key, trie root).
#[derive(Clone, Copy, Debug, PartialEq, Eq, Structural, Hash)]
pub struct Hash256 {
    pub hi: u128,
    pub lo: u128,
}

/// A 256-bit unsigned value (balance, storage value).
#[derive(Clone, Copy, Debug, PartialEq, Eq, Structural, Hash)]
pub struct Word256 {
    pub hi: u128,
    pub lo: u128,
}

/// High half of `keccak256` of the empty byte string, the code hash of an
/// account without contract code.
pub const EMPTY_CODE_HASH_HI: u128 = 0xc5d2460186f7233c927e7db2dcc703c0;
/// Low half of `keccak256` of the empty byte string.
pub const EMPTY_CODE_HASH_LO: u128 = 0xe500b653ca82273b7bfad8045d85a470;

/// A code hash that stands for "no code": the canonical empty-code hash or the
/// all-zero hash.
pub open spec fn code_hash_absent(h: Hash256) -> bool {
    (h.hi == EMPTY_CODE_HASH_HI && h.lo == EMPTY_CODE_HASH_LO) || (h.hi == 0 && h.lo == 0)
}

/// Decides whether a code hash stands for "no code".
pub fn is_code_hash_absent(h: &Hash256) -> (r: bool)
    ensures
        r == code_hash_absent(*h),
{
    (h.hi == EMPTY_CODE_HASH_HI && h.lo == EMPTY_CODE_HASH_LO) || (h.hi == 0 && h.lo == 0)
}

/// The per-block execution environment the tracer reads: the beneficiary and
/// the withdrawal recipients, both of which must always appear in the block's
/// access set.
pub struct BlockContext {
    pub beneficiary: Address,
    pub withdrawal_recipients: Vec<Address>,
}

/// One transaction, as its raw envelope encoding.
pub struct Transaction {
    pub encoded: Vec<u8>,
}

/// One transaction's receipt: the running gas total through this transaction
/// and the receipt's encoding (with bloom) for the trace metadata.
pub struct Receipt {
    pub cumulative_gas_used: u64,
    pub encoded: Vec<u8>,
}

/// One storage slot of a transaction's state diff: the value the slot had
/// before the transaction and the value it has after.
#[derive(Clone, Copy, Debug, PartialEq, Eq, Structural)]
pub struct StorageSlot {
    pub key: Hash256,
    pub original_value: Word256,
    pub present_value: Word256,
}

/// A slot the transaction read but did not change.
pub open spec fn slot_unchanged(s: StorageSlot) -> bool {
    s.present_value == s.original_value
}

/// One account's post-state in a transaction's diff, as the execution engine
/// reports it.
pub struct AccountState {
    pub balance: Word256,
    pub nonce: u64,
    pub code_hash: Hash256,
    pub code: Option<Vec<u8>>,
    pub storage: Vec<StorageSlot>,
    /// The engine observed this account, whether or not a value changed.
    pub touched: bool,
    /// The account was created within this transaction.
    pub created: bool,
    /// The account self-destructed within this transaction.
    pub self_destructed: bool,
}

/// One entry of a transaction's state diff.
pub struct DiffEntry {
    pub address: Address,
    pub account: AccountState,
}

/// A block identifier as a query names it: a literal number, or a symbolic
/// tag, which the query surface rejects.
#[derive(Clone, Copy, Debug, PartialEq, Eq, Structural)]
pub enum BlockNumberOrTag {
    Number(u64),
    Latest,
    Earliest,
    Pending,
    Finalized,
    Safe,
}

/// Copies a byte vector; the verified replacement for `Vec::clone` where two
/// owned copies of code bytes or a stored blob are needed.
pub fn clone_bytes(v: &Vec<u8>) -> (r: Vec<u8>)
    ensures
        r@ == v@,
{
    let mut r: Vec<u8> = Vec::new();
    let mut i: usize = 0;
    while i < v.len()
        invariant
            i <= v.len(),
            r@ == v@.take(i as int),
        decreases v.len() - i,
    {
        r.push(v[i]);
        i = i + 1;
        proof {
            assert(v@.take(i as int) =~= v@.take(i - 1).push(v@[i - 1]));
        }
    }
    proof {
        assert(v@.take(v@.len() as int) =~= v@);
    }
    r
}

} // verus!
