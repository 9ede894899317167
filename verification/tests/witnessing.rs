use zero_tracer::types::{Address, Hash256};
use zero_tracer::witness::{
    assemble_trie_pre_images, check_proof_node, StorageWitnessEntry, TriePreImages,
    WitnessError, WitnessResponse, EMPTY_TRIE_ROOT_HI, EMPTY_TRIE_ROOT_LO,
};
use mpt_trie::partial_trie::PartialTrie;

fn hash_bytes(h: &Hash256) -> [u8; 32] {
    let mut b = [0u8; 32];
    b[..16].copy_from_slice(&h.hi.to_be_bytes());
    b[16..].copy_from_slice(&h.lo.to_be_bytes());
    b
}

fn assembled(w: WitnessResponse) -> TriePreImages {
    assemble_trie_pre_images(w).expect("witness assembles")
}

#[test]
fn account_trie_rooted_at_state_root() {
    let root = Hash256 { hi: 0x1122, lo: 0x3344 };
    let w = WitnessResponse { state_root: root, account_nodes: vec![], storage: vec![] };
    let r = assembled(w);
    // With no proof nodes the partial trie is a bare hash node of the root.
    assert_eq!(r.state.hash().0, hash_bytes(&root));
    assert_eq!(r.storage.len(), 0);
}

#[test]
fn storage_tries_keyed_by_hashed_address() {
    let a = Address { hi: 0xabcdef, lo: 0x99 };
    let sroot = Hash256 { hi: 7, lo: 8 };
    let w = WitnessResponse {
        state_root: Hash256 { hi: 1, lo: 2 },
        account_nodes: vec![],
        storage: vec![StorageWitnessEntry { address: a, storage_root: sroot, nodes: vec![] }],
    };
    let r = assembled(w);
    assert_eq!(r.storage.len(), 1);
    let mut ab = [0u8; 20];
    ab[..16].copy_from_slice(&a.hi.to_be_bytes());
    ab[16..].copy_from_slice(&a.lo.to_be_bytes());
    let k = keccak_hash::keccak(ab);
    assert_eq!(hash_bytes(&r.storage[0].hashed_address), k.0);
    assert_eq!(r.storage[0].trie.hash().0, hash_bytes(&sroot));
}

#[test]
fn empty_storage_roots_produce_no_entries() {
    let zero_root = Hash256 { hi: 0, lo: 0 };
    let empty_trie_root = Hash256 { hi: EMPTY_TRIE_ROOT_HI, lo: EMPTY_TRIE_ROOT_LO };
    let real_root = Hash256 { hi: 9, lo: 10 };
    let a = Address { hi: 0, lo: 1 };
    let b = Address { hi: 0, lo: 2 };
    let c = Address { hi: 0, lo: 3 };
    let w = WitnessResponse {
        state_root: Hash256 { hi: 1, lo: 2 },
        account_nodes: vec![],
        storage: vec![
            StorageWitnessEntry { address: a, storage_root: zero_root, nodes: vec![] },
            StorageWitnessEntry { address: b, storage_root: real_root, nodes: vec![] },
            StorageWitnessEntry { address: c, storage_root: empty_trie_root, nodes: vec![] },
        ],
    };
    let r = assembled(w);
    // Only the address with a real storage root gets a storage trie.
    assert_eq!(r.storage.len(), 1);
    let mut bb = [0u8; 20];
    bb[..16].copy_from_slice(&b.hi.to_be_bytes());
    bb[16..].copy_from_slice(&b.lo.to_be_bytes());
    assert_eq!(hash_bytes(&r.storage[0].hashed_address), keccak_hash::keccak(bb).0);
    assert_eq!(r.storage[0].trie.hash().0, hash_bytes(&real_root));
}

#[test]
fn inserted_proof_nodes_shape_the_trie() {
    // A one-node trie: the RLP list [0x20, 0x41] is a leaf (hex-prefix 0x20:
    // empty key, terminator) holding the value 0x41. Building from the
    // leaf's hash as root plus the leaf node itself must expand the node,
    // not leave a bare hash node.
    let leaf = vec![0xc2u8, 0x20, 0x41];
    let leaf_hash = keccak_hash::keccak(&leaf);
    let root = Hash256 {
        hi: u128::from_be_bytes(leaf_hash.0[..16].try_into().unwrap()),
        lo: u128::from_be_bytes(leaf_hash.0[16..].try_into().unwrap()),
    };
    let w = WitnessResponse { state_root: root, account_nodes: vec![leaf], storage: vec![] };
    let r = assembled(w);
    assert!(matches!(*r.state, mpt_trie::partial_trie::Node::Leaf { .. }));
    assert_eq!(r.state.hash(), leaf_hash);
}

#[test]
fn undecodable_witness_is_refused() {
    // Not an RLP list at all.
    let w = WitnessResponse {
        state_root: Hash256 { hi: 1, lo: 2 },
        account_nodes: vec![vec![0x00]],
        storage: vec![],
    };
    assert!(matches!(assemble_trie_pre_images(w), Err(WitnessError::UndecodableProofNode)));

    // A one-item list is neither a branch nor a leaf or extension.
    let w2 = WitnessResponse {
        state_root: Hash256 { hi: 1, lo: 2 },
        account_nodes: vec![],
        storage: vec![StorageWitnessEntry {
            address: Address { hi: 0, lo: 1 },
            storage_root: Hash256 { hi: 9, lo: 9 },
            nodes: vec![vec![0xc1, 0x41]],
        }],
    };
    assert!(matches!(assemble_trie_pre_images(w2), Err(WitnessError::UndecodableProofNode)));
}

#[test]
fn proof_node_shapes() {
    // A leaf: two items, hex-prefix nibble 2.
    assert!(check_proof_node(&vec![0xc2, 0x20, 0x41]));
    // A branch: seventeen empty items.
    let mut branch = vec![0xc0 + 17u8];
    branch.extend(std::iter::repeat(0x80u8).take(17));
    assert!(check_proof_node(&branch));
    // A branch whose first child is a 32-byte hash.
    let mut hashed_child = vec![0xc0 + 16 + 33u8, 0xa0];
    hashed_child.extend([0x11u8; 32]);
    hashed_child.extend(std::iter::repeat(0x80u8).take(16));
    assert!(check_proof_node(&hashed_child));
    // Wrong item counts, truncated bytes and non-lists are rejected.
    assert!(!check_proof_node(&vec![0xc1, 0x41]));
    assert!(!check_proof_node(&vec![0xc3, 0x20, 0x41]));
    assert!(!check_proof_node(&vec![0x20, 0x41]));
    // A two-item node whose path nibble is 4 or more decodes as nothing.
    assert!(!check_proof_node(&vec![0xc2, 0x40, 0x41]));
    // An empty path panics the decoder, so it is rejected.
    assert!(!check_proof_node(&vec![0xc2, 0x80, 0x41]));
}
