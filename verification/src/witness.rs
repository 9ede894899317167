//! The witness assembler: builds the partial account trie and the
//! per-address partial storage tries from the raw proof material the state
//! provider returned for the block's access set.
//!
//! The trie construction itself is mpt_trie's; this module drives it through
//! trusted wrappers and proves which roots, proof nodes and hashed addresses
//! each produced trie came from. mpt_trie's decoder panics on malformed
//! node bytes, so every node is first checked against `valid_proof_node`, a
//! verified shape check for the canonical RLP encodings the decoder accepts;
//! a witness with an undecodable node is refused as a typed error. An
//! address whose storage root is the empty (or zero) root has no storage and
//! produces no storage-trie entry.

use vstd::prelude::*;
use crate::types::{Address, Hash256};
use mpt_trie::builder::PartialTrieBuilder;
use mpt_trie::partial_trie::HashedPartialTrie;

verus! {

#[verifier::external_type_specification]
#[verifier::external_body]
#[verifier::reject_recursive_types(T)]
pub struct ExPartialTrieBuilder<T>(PartialTrieBuilder<T>);

#[verifier::external_type_specification]
#[verifier::external_body]
pub struct ExHashedPartialTrie(HashedPartialTrie);

/// The root a trie builder was started with.
pub uninterp spec fn builder_root(b: PartialTrieBuilder<HashedPartialTrie>) -> Hash256;

/// The proof nodes held by a trie builder. The builder keys each node by its
/// hash, so its contents are a set: order and multiplicity are not kept.
pub uninterp spec fn builder_nodes(b: PartialTrieBuilder<HashedPartialTrie>) -> Set<Seq<u8>>;

/// The partial trie that building from this root and this set of proof
/// nodes yields; a function of the two alone.
pub uninterp spec fn built_trie(root: Hash256, nodes: Set<Seq<u8>>) -> HashedPartialTrie;

/// The one-way hash that keys an address's storage trie in the witness; a
/// function of the address alone.
pub uninterp spec fn hashed_address(a: Address) -> Hash256;

/// High half of the hash of an empty Merkle-Patricia trie.
pub const EMPTY_TRIE_ROOT_HI: u128 = 0x56e81f171bcc55a6ff8345e692c0f86e;
/// Low half of the hash of an empty Merkle-Patricia trie.
pub const EMPTY_TRIE_ROOT_LO: u128 = 0x5b48e01b996cadc001622fb5e363b421;

/// A storage root that stands for "no storage": the canonical empty-trie
/// root or the all-zero hash.
pub open spec fn storage_root_absent(h: Hash256) -> bool {
    (h.hi == 0 && h.lo == 0) || (h.hi == EMPTY_TRIE_ROOT_HI && h.lo == EMPTY_TRIE_ROOT_LO)
}

/// Decides whether a storage root stands for "no storage".
pub fn is_storage_root_absent(h: &Hash256) -> (r: bool)
    ensures
        r == storage_root_absent(*h),
{
    (h.hi == 0 && h.lo == 0) || (h.hi == EMPTY_TRIE_ROOT_HI && h.lo == EMPTY_TRIE_ROOT_LO)
}

// --- Canonical RLP shape of a proof node -------------------------------
//
// mpt_trie decodes a node as an RLP list of byte strings: 17 items for a
// branch, 2 for an extension or leaf (told apart by the path's first
// nibble), with child items holding either a 32-byte hash or a short inline
// node. Anything else makes its decoder panic, so the spec below admits
// only byte strings the decoder accepts. It is deliberately strict: only
// canonical encodings with lengths below 65536 pass.

/// Total length of the canonically encoded RLP byte-string item starting at
/// `i`, or a negative value when no such item starts there.
pub open spec fn item_len(s: Seq<u8>, i: int) -> int {
    if i < 0 || i >= s.len() {
        -1
    } else {
        let c = s[i] as int;
        if c < 0x80 {
            1
        } else if c <= 0xb7 {
            let pl = c - 0x80;
            if i + 1 + pl > s.len() {
                -1
            } else if pl == 1 && (s[i + 1] as int) < 0x80 {
                -1
            } else {
                1 + pl
            }
        } else if c <= 0xb9 {
            let lol = c - 0xb7;
            if i + 1 + lol > s.len() {
                -1
            } else {
                let pl = if lol == 1 {
                    s[i + 1] as int
                } else {
                    (s[i + 1] as int) * 256 + (s[i + 2] as int)
                };
                if (s[i + 1] as int) == 0 || pl < 56 || i + 1 + lol + pl > s.len() {
                    -1
                } else {
                    1 + lol + pl
                }
            }
        } else {
            -1
        }
    }
}

/// Where the value bytes of the item starting at `i` begin.
pub open spec fn item_value_start(s: Seq<u8>, i: int) -> int {
    let c = s[i] as int;
    if c < 0x80 {
        i
    } else if c <= 0xb7 {
        i + 1
    } else {
        i + 1 + (c - 0xb7)
    }
}

/// How many value bytes the item starting at `i` has.
pub open spec fn item_value_len(s: Seq<u8>, i: int) -> int {
    let c = s[i] as int;
    if c < 0x80 {
        1
    } else if c <= 0xb7 {
        c - 0x80
    } else if c == 0xb8 {
        s[i + 1] as int
    } else {
        (s[i + 1] as int) * 256 + (s[i + 2] as int)
    }
}

/// Where the payload of the node's RLP list header begins, or a negative
/// value when the node is not one canonically encoded list filling its
/// bytes exactly.
pub open spec fn list_payload_start(s: Seq<u8>) -> int {
    if s.len() == 0 {
        -1
    } else {
        let c = s[0] as int;
        if c < 0xc0 {
            -1
        } else if c <= 0xf7 {
            if s.len() == 1 + (c - 0xc0) {
                1
            } else {
                -1
            }
        } else if c <= 0xf9 {
            let lol = c - 0xf7;
            if 1 + lol > s.len() {
                -1
            } else {
                let pl = if lol == 1 {
                    s[1] as int
                } else {
                    (s[1] as int) * 256 + (s[2] as int)
                };
                if (s[1] as int) == 0 || pl < 56 || s.len() != 1 + lol + pl {
                    -1
                } else {
                    1 + lol
                }
            }
        } else {
            -1
        }
    }
}

/// How many byte-string items tile the bytes from `i` to the end, or a
/// negative value if they do not tile it exactly.
pub open spec fn items_count(s: Seq<u8>, i: int) -> int
    decreases s.len() - i,
{
    if i >= s.len() {
        if i == s.len() {
            0
        } else {
            -1
        }
    } else {
        let l = item_len(s, i);
        if l < 1 || i + l > s.len() {
            -1
        } else {
            let rest = items_count(s, i + l);
            if rest < 0 {
                -1
            } else {
                1 + rest
            }
        }
    }
}

/// A child item of a node: a 32-byte hash referring to another node, or a
/// short inline node, itself well shaped.
pub open spec fn valid_child(s: Seq<u8>, vs: int, vl: int) -> bool
    decreases s.len(), 0int, 0int,
{
    if vl == 32 {
        true
    } else if vl <= 0 || vl > 32 {
        false
    } else if 0 <= vs && vs + vl <= s.len() && vl < s.len() {
        valid_proof_node(s.subrange(vs, vs + vl))
    } else {
        false
    }
}

/// The first sixteen items of a branch node, from item `idx` at position
/// `i` on: each is empty or a valid child.
pub open spec fn branch_children_valid(s: Seq<u8>, i: int, idx: int) -> bool
    decreases s.len(), 1int, 16 - idx,
{
    if idx >= 16 {
        true
    } else {
        let l = item_len(s, i);
        if l < 1 || i + l > s.len() {
            false
        } else {
            let vs = item_value_start(s, i);
            let vl = item_value_len(s, i);
            (vl == 0 || valid_child(s, vs, vl)) && branch_children_valid(s, i + l, idx + 1)
        }
    }
}

/// A proof node mpt_trie's decoder accepts without panicking: one RLP list
/// of byte strings, either a branch (17 items, the first 16 empty or valid
/// children) or a leaf or extension (2 items, a non-empty hex-prefixed path
/// of at most 33 bytes whose first nibble is below 4, and — for an
/// extension — a valid child).
pub open spec fn valid_proof_node(s: Seq<u8>) -> bool
    decreases s.len(), 2int, 0int,
{
    let p = list_payload_start(s);
    if p < 0 {
        false
    } else {
        let n = items_count(s, p);
        if n == 17 {
            branch_children_valid(s, p, 0)
        } else if n == 2 {
            let l0 = item_len(s, p);
            if l0 < 1 {
                false
            } else {
                let vs0 = item_value_start(s, p);
                let vl0 = item_value_len(s, p);
                let vs1 = item_value_start(s, p + l0);
                let vl1 = item_value_len(s, p + l0);
                1 <= vl0 <= 33 && (s[vs0] as int) / 16 <= 3 && ((s[vs0] as int) / 16 >= 2
                    || valid_child(s, vs1, vl1))
            }
        } else {
            false
        }
    }
}

/// Every node of the sequence is a valid proof node.
pub open spec fn valid_proof_nodes(nodes: Seq<Seq<u8>>) -> bool {
    forall|j: int| 0 <= j < nodes.len() ==> valid_proof_node(#[trigger] nodes[j])
}

proof fn lemma_vec_len_bound(v: &Vec<u8>)
    ensures
        v@.len() <= usize::MAX,
{
    assert(v@.len() == v.len());
}

/// The length of the item at `i`, or `None` where no valid item starts
/// there.
fn check_item_len(v: &Vec<u8>, i: usize) -> (r: Option<usize>)
    ensures
        match r {
            Some(l) => item_len(v@, i as int) == l && 1 <= l && i + l <= v@.len(),
            None => item_len(v@, i as int) < 1,
        },
{
    if i >= v.len() {
        return None;
    }
    let c = v[i];
    if c < 0x80 {
        Some(1)
    } else if c <= 0xb7 {
        let pl = (c - 0x80) as usize;
        if v.len() - i - 1 < pl {
            None
        } else if pl == 1 && v[i + 1] < 0x80 {
            None
        } else {
            Some(1 + pl)
        }
    } else if c <= 0xb9 {
        let lol = (c - 0xb7) as usize;
        if v.len() - i - 1 < lol {
            None
        } else {
            let pl: usize = if lol == 1 {
                v[i + 1] as usize
            } else {
                (v[i + 1] as usize) * 256 + (v[i + 2] as usize)
            };
            if v[i + 1] == 0 || pl < 56 || v.len() - (i + 1 + lol) < pl {
                None
            } else {
                Some(1 + lol + pl)
            }
        }
    } else {
        None
    }
}

/// The value range of the item at `i`, valid only for a well-formed item.
fn item_value_range(v: &Vec<u8>, i: usize) -> (r: (usize, usize))
    requires
        item_len(v@, i as int) >= 1,
    ensures
        r.0 == item_value_start(v@, i as int),
        r.1 == item_value_len(v@, i as int),
        r.0 + r.1 <= v@.len(),
{
    proof {
        lemma_vec_len_bound(v);
        let s = v@;
        let ii = i as int;
        assert(ii < s.len());
        if 0x80 <= s[ii] && s[ii] <= 0xb7 {
            assert(ii + 1 + (s[ii] as int - 0x80) <= s.len());
        }
        if s[ii] > 0xb7 {
            assert(s[ii] <= 0xb9);
            assert(ii + 1 + (s[ii] as int - 0xb7) <= s.len());
            assert(ii + 1 + (s[ii] as int - 0xb7) + item_value_len(s, ii) <= s.len());
        }
    }
    let c = v[i];
    if c < 0x80 {
        (i, 1)
    } else if c <= 0xb7 {
        (i + 1, (c - 0x80) as usize)
    } else if c == 0xb8 {
        (i + 2, v[i + 1] as usize)
    } else {
        (i + 3, (v[i + 1] as usize) * 256 + (v[i + 2] as usize))
    }
}

/// The payload start of the node's list header, or `None` where the node is
/// not one exactly-filled canonical list.
fn check_list_payload_start(v: &Vec<u8>) -> (r: Option<usize>)
    ensures
        match r {
            Some(p) => list_payload_start(v@) == p && 1 <= p <= v@.len(),
            None => list_payload_start(v@) < 0,
        },
{
    if v.len() == 0 {
        return None;
    }
    let c = v[0];
    if c < 0xc0 {
        None
    } else if c <= 0xf7 {
        if v.len() == 1 + (c - 0xc0) as usize {
            Some(1)
        } else {
            None
        }
    } else if c <= 0xf9 {
        let lol = (c - 0xf7) as usize;
        if v.len() - 1 < lol {
            None
        } else {
            let pl: usize = if lol == 1 {
                v[1] as usize
            } else {
                (v[1] as usize) * 256 + (v[2] as usize)
            };
            if v[1] == 0 || pl < 56 || v.len() - (1 + lol) != pl {
                None
            } else {
                Some(1 + lol)
            }
        }
    } else {
        None
    }
}

proof fn lemma_items_count_bound(s: Seq<u8>, i: int)
    requires
        0 <= i <= s.len(),
    ensures
        items_count(s, i) <= s.len() - i,
    decreases s.len() - i,
{
    if i < s.len() {
        let l = item_len(s, i);
        if l >= 1 && i + l <= s.len() {
            lemma_items_count_bound(s, i + l);
        }
    }
}

/// Counts the items tiling the bytes from `i` on, or `None` where they do
/// not tile exactly.
fn count_items(v: &Vec<u8>, i: usize) -> (r: Option<usize>)
    ensures
        match r {
            Some(n) => items_count(v@, i as int) == n,
            None => items_count(v@, i as int) < 0,
        },
    decreases v@.len() - i,
{
    if i >= v.len() {
        if i == v.len() {
            return Some(0);
        }
        return None;
    }
    proof {
        lemma_vec_len_bound(v);
    }
    match check_item_len(v, i) {
        None => None,
        Some(l) => match count_items(v, i + l) {
            None => None,
            Some(rest) => {
                proof {
                    lemma_items_count_bound(v@, i + l);
                }
                Some(1 + rest)
            },
        },
    }
}

/// Copies the byte range `[start, start + len)`.
#[verifier::loop_isolation(false)]
fn copy_range(v: &Vec<u8>, start: usize, len: usize) -> (r: Vec<u8>)
    requires
        start + len <= v@.len(),
    ensures
        r@ == v@.subrange(start as int, start as int + len as int),
{
    let mut r: Vec<u8> = Vec::new();
    let mut k: usize = 0;
    while k < len
        invariant
            k <= len,
            start + len <= v@.len(),
            r@ == v@.subrange(start as int, start as int + k as int),
        decreases len - k,
    {
        proof {
            lemma_vec_len_bound(v);
        }
        r.push(v[start + k]);
        k = k + 1;
        proof {
            assert(v@.subrange(start as int, start as int + k as int) =~= v@.subrange(
                start as int,
                start as int + k - 1,
            ).push(v@[start + k - 1]));
        }
    }
    r
}

/// Decides `valid_child` for the value range of a child item.
fn check_child(v: &Vec<u8>, vs: usize, vl: usize) -> (r: bool)
    requires
        vs + vl <= v@.len(),
    ensures
        r == valid_child(v@, vs as int, vl as int),
    decreases v@.len(), 0int, 0int,
{
    if vl == 32 {
        true
    } else if vl == 0 || vl > 32 {
        false
    } else if vl < v.len() {
        let sub = copy_range(v, vs, vl);
        check_proof_node(&sub)
    } else {
        false
    }
}

/// Decides `branch_children_valid` from item `idx` at position `i` on.
fn check_branch_children(v: &Vec<u8>, i: usize, idx: usize) -> (r: bool)
    requires
        idx <= 16,
    ensures
        r == branch_children_valid(v@, i as int, idx as int),
    decreases v@.len(), 1int, 16 - idx,
{
    if idx >= 16 {
        return true;
    }
    proof {
        lemma_vec_len_bound(v);
    }
    match check_item_len(v, i) {
        None => false,
        Some(l) => {
            let (vs, vl) = item_value_range(v, i);
            let child_ok = if vl == 0 {
                true
            } else {
                check_child(v, vs, vl)
            };
            child_ok && check_branch_children(v, i + l, idx + 1)
        },
    }
}

/// Decides `valid_proof_node`.
pub fn check_proof_node(v: &Vec<u8>) -> (r: bool)
    ensures
        r == valid_proof_node(v@),
    decreases v@.len(), 2int, 0int,
{
    let p = match check_list_payload_start(v) {
        None => {
            return false;
        },
        Some(p) => p,
    };
    let n = match count_items(v, p) {
        None => {
            return false;
        },
        Some(n) => n,
    };
    proof {
        lemma_vec_len_bound(v);
    }
    if n == 17 {
        check_branch_children(v, p, 0)
    } else if n == 2 {
        let l0 = match check_item_len(v, p) {
            None => {
                return false;
            },
            Some(l0) => l0,
        };
        let (vs0, vl0) = item_value_range(v, p);
        if !(1 <= vl0 && vl0 <= 33) {
            return false;
        }
        let nib = v[vs0] / 16;
        if nib > 3 {
            return false;
        }
        if nib >= 2 {
            return true;
        }
        proof {
            assert(items_count(v@, p as int + l0) == 1);
            assert(item_len(v@, p as int + l0) >= 1);
        }
        let (vs1, vl1) = item_value_range(v, p + l0);
        check_child(v, vs1, vl1)
    } else {
        false
    }
}

/// Decides `valid_proof_nodes`.
pub fn check_proof_nodes(nodes: &Vec<Vec<u8>>) -> (r: bool)
    ensures
        r == valid_proof_nodes(nodes.deep_view()),
{
    let mut j: usize = 0;
    while j < nodes.len()
        invariant
            j <= nodes@.len(),
            forall|t: int| 0 <= t < j ==> valid_proof_node(#[trigger] nodes.deep_view()[t]),
        decreases nodes@.len() - j,
    {
        if !check_proof_node(&nodes[j]) {
            proof {
                assert(nodes.deep_view()[j as int] == nodes@[j as int]@);
            }
            return false;
        }
        proof {
            assert(nodes.deep_view()[j as int] == nodes@[j as int]@);
        }
        j = j + 1;
    }
    true
}

/// Relies on mpt_trie's `PartialTrieBuilder::new`: starts a builder at the
/// given root with no nodes.
#[verifier::external_body]
fn trie_builder_new(root: &Hash256) -> (b: PartialTrieBuilder<HashedPartialTrie>)
    ensures
        builder_root(b) == *root,
        builder_nodes(b) == Set::<Seq<u8>>::empty(),
{
    let mut bytes = [0u8; 32];
    bytes[..16].copy_from_slice(&root.hi.to_be_bytes());
    bytes[16..].copy_from_slice(&root.lo.to_be_bytes());
    PartialTrieBuilder::new(primitive_types::H256(bytes), std::collections::HashMap::new())
}

/// Relies on mpt_trie's `PartialTrieBuilder::insert_proof`: adds the
/// proof's nodes to the builder's hash-keyed node map — a set union — and
/// leaves the root as it was.
#[verifier::external_body]
fn trie_builder_insert_proof(b: &mut PartialTrieBuilder<HashedPartialTrie>, nodes: Vec<Vec<u8>>)
    ensures
        builder_root(*final(b)) == builder_root(*old(b)),
        builder_nodes(*final(b)) == builder_nodes(*old(b)).union(nodes.deep_view().to_set()),
{
    b.insert_proof(nodes)
}

/// Relies on mpt_trie's `PartialTrieBuilder::build`: constructs the partial
/// trie determined by the builder's root and node set. The decoder panics
/// on malformed node bytes, so every node in the builder must be a valid
/// proof node.
#[verifier::external_body]
fn trie_builder_build(b: PartialTrieBuilder<HashedPartialTrie>) -> (t: HashedPartialTrie)
    requires
        forall|n: Seq<u8>| builder_nodes(b).contains(n) ==> valid_proof_node(n),
    ensures
        t == built_trie(builder_root(b), builder_nodes(b)),
{
    b.build()
}

/// Relies on `keccak_hash::keccak`: the one-way hash of the address's 20
/// bytes, a function of the address alone.
#[verifier::external_body]
fn keccak_address(a: &Address) -> (h: Hash256)
    ensures
        h == hashed_address(*a),
{
    let mut bytes = [0u8; 20];
    bytes[..16].copy_from_slice(&a.hi.to_be_bytes());
    bytes[16..].copy_from_slice(&a.lo.to_be_bytes());
    let out = keccak_hash::keccak(&bytes);
    let mut hi = [0u8; 16];
    let mut lo = [0u8; 16];
    hi.copy_from_slice(&out.0[..16]);
    lo.copy_from_slice(&out.0[16..]);
    Hash256 { hi: u128::from_be_bytes(hi), lo: u128::from_be_bytes(lo) }
}

/// One address's share of the witness the state provider returned: its
/// storage root and the proof nodes along its requested storage paths.
pub struct StorageWitnessEntry {
    pub address: Address,
    pub storage_root: Hash256,
    pub nodes: Vec<Vec<u8>>,
}

/// The raw witness for one block: the pre-state root with the account-trie
/// proof nodes, and one entry per requested address; addresses without
/// storage carry the empty or zero storage root.
pub struct WitnessResponse {
    pub state_root: Hash256,
    pub account_nodes: Vec<Vec<u8>>,
    pub storage: Vec<StorageWitnessEntry>,
}

/// Every proof node of the witness, account side and storage side, is a
/// valid proof node.
pub open spec fn witness_nodes_valid(w: WitnessResponse) -> bool {
    valid_proof_nodes(w.account_nodes.deep_view()) && (forall|i: int|
        0 <= i < w.storage@.len() ==> valid_proof_nodes(
            (#[trigger] w.storage@[i]).nodes.deep_view(),
        ))
}

/// The witness entries of the addresses that have storage: those whose
/// storage root is not the empty or zero root, in witness order.
pub open spec fn nonempty_storage(s: Seq<StorageWitnessEntry>) -> Seq<StorageWitnessEntry>
    decreases s.len(),
{
    if s.len() == 0 {
        s
    } else {
        nonempty_storage(s.drop_last()) + (if storage_root_absent(s.last().storage_root) {
            Seq::empty()
        } else {
            seq![s.last()]
        })
    }
}

/// A witness that could not be used: some proof node would not decode.
#[derive(Clone, Copy, Debug, PartialEq, Eq, Structural)]
pub enum WitnessError {
    UndecodableProofNode,
}

/// One partial storage trie, keyed by the hash of its address.
pub struct StorageTriePreImage {
    pub hashed_address: Hash256,
    pub trie: HashedPartialTrie,
}

/// The block's trie pre-images: the partial account trie and the partial
/// storage tries.
pub struct TriePreImages {
    pub state: HashedPartialTrie,
    pub storage: Vec<StorageTriePreImage>,
}

/// Builds the partial account trie from the state root and its proof nodes,
/// and one partial storage trie per witness entry with a non-empty storage
/// root, keyed by the hash of the entry's address; entries with the empty
/// or zero storage root have no storage and produce no entry. A witness
/// holding any undecodable proof node is refused whole.
#[verifier::loop_isolation(false)]
pub fn assemble_trie_pre_images(w: WitnessResponse) -> (r: Result<TriePreImages, WitnessError>)
    ensures
        match r {
            Ok(t) => {
                &&& witness_nodes_valid(w)
                &&& t.state == built_trie(w.state_root, w.account_nodes.deep_view().to_set())
                &&& t.storage@.len() == nonempty_storage(w.storage@).len()
                &&& forall|i: int|
                    0 <= i < t.storage@.len() ==> (#[trigger] t.storage@[i]).hashed_address
                        == hashed_address(nonempty_storage(w.storage@)[i].address)
                        && t.storage@[i].trie == built_trie(
                        nonempty_storage(w.storage@)[i].storage_root,
                        nonempty_storage(w.storage@)[i].nodes.deep_view().to_set(),
                    )
            },
            Err(e) => e == WitnessError::UndecodableProofNode && !witness_nodes_valid(w),
        },
{
    if !check_proof_nodes(&w.account_nodes) {
        return Err(WitnessError::UndecodableProofNode);
    }
    let mut i: usize = 0;
    while i < w.storage.len()
        invariant
            i <= w.storage@.len(),
            forall|t: int|
                0 <= t < i ==> valid_proof_nodes((#[trigger] w.storage@[t]).nodes.deep_view()),
        decreases w.storage@.len() - i,
    {
        if !check_proof_nodes(&w.storage[i].nodes) {
            return Err(WitnessError::UndecodableProofNode);
        }
        i = i + 1;
    }
    let WitnessResponse { state_root, account_nodes, storage } = w;
    let ghost orig = storage@;
    let ghost account_nodes_view = account_nodes.deep_view();
    let mut b = trie_builder_new(&state_root);
    trie_builder_insert_proof(&mut b, account_nodes);
    proof {
        assert(builder_nodes(b) =~= account_nodes_view.to_set());
        assert forall|n: Seq<u8>| builder_nodes(b).contains(n) implies valid_proof_node(n) by {
            let j = choose|j: int| 0 <= j < account_nodes_view.len() && account_nodes_view[j] == n;
        }
    }
    let state = trie_builder_build(b);
    let mut storage = storage;
    let ghost mut processed: int = 0;
    let mut out: Vec<StorageTriePreImage> = Vec::new();
    proof {
        assert(nonempty_storage(orig.take(0)) =~= Seq::<StorageWitnessEntry>::empty());
    }
    while storage.len() > 0
        invariant
            0 <= processed <= orig.len(),
            storage@ == orig.skip(processed),
            out@.len() == nonempty_storage(orig.take(processed)).len(),
            forall|t: int|
                0 <= t < out@.len() ==> (#[trigger] out@[t]).hashed_address == hashed_address(
                    nonempty_storage(orig.take(processed))[t].address,
                ) && out@[t].trie == built_trie(
                    nonempty_storage(orig.take(processed))[t].storage_root,
                    nonempty_storage(orig.take(processed))[t].nodes.deep_view().to_set(),
                ),
        decreases storage@.len(),
    {
        proof {
            assert(storage@[0] == orig[processed]);
        }
        let e = storage.remove(0);
        let ghost pre_out = out@;
        let ghost p0 = processed;
        if !is_storage_root_absent(&e.storage_root) {
            let ghost nodes_view = e.nodes.deep_view();
            let mut sb = trie_builder_new(&e.storage_root);
            trie_builder_insert_proof(&mut sb, e.nodes);
            proof {
                assert(builder_nodes(sb) =~= nodes_view.to_set());
                assert forall|n: Seq<u8>| builder_nodes(sb).contains(n) implies valid_proof_node(
                    n,
                ) by {
                    let j = choose|j: int| 0 <= j < nodes_view.len() && nodes_view[j] == n;
                    assert(valid_proof_nodes(orig[p0].nodes.deep_view()));
                }
            }
            let ha = keccak_address(&e.address);
            let trie = trie_builder_build(sb);
            out.push(StorageTriePreImage { hashed_address: ha, trie });
        }
        proof {
            processed = p0 + 1;
            assert(storage@ =~= orig.skip(processed));
            assert(orig.take(processed).drop_last() =~= orig.take(p0));
            assert(orig.take(processed).last() == orig[p0]);
            if storage_root_absent(orig[p0].storage_root) {
                assert(nonempty_storage(orig.take(processed)) =~= nonempty_storage(
                    orig.take(p0),
                ));
            } else {
                assert(nonempty_storage(orig.take(processed)) =~= nonempty_storage(
                    orig.take(p0),
                ).push(orig[p0]));
            }
        }
    }
    proof {
        assert(orig.take(orig.len() as int) =~= orig);
        assert(orig.skip(processed).len() == 0);
        assert(processed == orig.len());
    }
    Ok(TriePreImages { state, storage: out })
}

} // verus!
