use merkle::tree::{Direction, MerkleTree, ProofError};
use std::collections::hash_map::DefaultHasher;
use std::hash::Hasher;

#[test]
fn basic_proof() {
    let values: Vec<u64> = (0..100_000).collect();
    let mut tree = MerkleTree::from(values);
    let proof = tree.get_proof(500).unwrap();

    assert!(MerkleTree::verify_proof(&proof));
    assert_eq!(&proof.root, &tree.root());

    tree.add(42);
    assert_ne!(&proof.root, &tree.root());
}

#[test]
fn empty_tree() {
    let tree: MerkleTree = MerkleTree::from(vec![]);

    // tree initiated with an empty list should have 1 leaf which is also the root
    assert_eq!(tree.leafs().len(), 1);

    let proof = tree.get_proof(0).unwrap();
    assert!(MerkleTree::verify_proof(&proof));
    assert_eq!(&proof.root, &tree.root());
}

#[test]
fn out_of_bounds() {
    let tree: MerkleTree = MerkleTree::from(vec![1, 2]);
    assert_eq!(tree.leafs().len(), 2);

    let proof = tree.get_proof(2);
    assert!(proof.is_err());
}

#[test]
fn empty_tree_leaf_equals_root() {
    let tree: MerkleTree = MerkleTree::from(vec![]);
    let proof = tree.get_proof(0).unwrap();
    assert_eq!(proof.path.len(), 0);
    assert_eq!(proof.leaf, proof.root);
}

#[test]
fn padding_to_power_of_two() {
    let two: MerkleTree = MerkleTree::from(vec![7, 8]);
    assert_eq!(two.leafs().len(), 2);

    let three: MerkleTree = MerkleTree::from(vec![7, 8, 9]);
    assert_eq!(three.leafs().len(), 4);

    let five: MerkleTree = MerkleTree::from(vec![1, 2, 3, 4, 5]);
    assert_eq!(five.leafs().len(), 8);
}

#[test]
fn bounds_edges() {
    let tree: MerkleTree = MerkleTree::from(vec![7, 8, 9]);
    // padded leaf count is 4: index 3 succeeds, 4 and above fail
    assert!(tree.get_proof(3).is_ok());
    assert_eq!(tree.get_proof(4).unwrap_err(), ProofError::IndexOutOfRange);
    assert_eq!(tree.get_proof(100).unwrap_err(), ProofError::IndexOutOfRange);
}

#[test]
fn round_trip_all_indices() {
    let tree: MerkleTree = MerkleTree::from(vec![10, 20, 30, 40, 50]);
    let root = tree.root();
    for index in 0..8 {
        let proof = tree.get_proof(index).unwrap();
        assert!(MerkleTree::verify_proof(&proof));
        assert_eq!(proof.root, root);
    }
}

#[test]
fn sibling_direction_rule() {
    // two leaves, no padding: leaf 1's sibling (leaf 0) sits to its Left,
    // leaf 0's sibling (leaf 1) to its Right
    let tree: MerkleTree = MerkleTree::from(vec![10, 20]);
    let leafs = tree.leafs();

    let at_one = tree.get_proof(1).unwrap();
    assert_eq!(at_one.path.len(), 1);
    assert_eq!(at_one.path[0].direction, Direction::Left);
    assert_eq!(at_one.path[0].value, leafs[0]);

    let at_zero = tree.get_proof(0).unwrap();
    assert_eq!(at_zero.path.len(), 1);
    assert_eq!(at_zero.path[0].direction, Direction::Right);
    assert_eq!(at_zero.path[0].value, leafs[1]);
}

#[test]
fn exact_digests_two_values() {
    // fix the hashing discipline by hand: a leaf digest is the DefaultHasher
    // digest of the value's little-endian bytes, and the root of two leaves
    // hashes the two leaf digests' bytes, left first
    let tree: MerkleTree = MerkleTree::from(vec![10, 20]);

    let mut h0 = DefaultHasher::new();
    h0.write(&10u64.to_le_bytes());
    let leaf0 = h0.finish();

    let mut h1 = DefaultHasher::new();
    h1.write(&20u64.to_le_bytes());
    let leaf1 = h1.finish();

    let leafs = tree.leafs();
    assert_eq!(leafs[0], leaf0);
    assert_eq!(leafs[1], leaf1);

    let mut hp = DefaultHasher::new();
    hp.write(&leaf0.to_le_bytes());
    hp.write(&leaf1.to_le_bytes());
    assert_eq!(tree.root(), hp.finish());
}

#[test]
fn padding_hashes_default_value() {
    // the padded fourth leaf of a 3-value tree is the hash of the default
    // value 0, not a sentinel digest
    let tree: MerkleTree = MerkleTree::from(vec![7, 8, 9]);
    let leafs = tree.leafs();

    let mut h = DefaultHasher::new();
    h.write(&0u64.to_le_bytes());
    assert_eq!(leafs[3], h.finish());
}

#[test]
fn tampered_root_rejected() {
    let tree: MerkleTree = MerkleTree::from(vec![1, 2, 3, 4]);
    let mut proof = tree.get_proof(2).unwrap();
    assert!(MerkleTree::verify_proof(&proof));

    proof.root = proof.root.wrapping_add(1);
    assert!(!MerkleTree::verify_proof(&proof));
}

#[test]
fn tampered_leaf_rejected() {
    let tree: MerkleTree = MerkleTree::from(vec![1, 2, 3, 4]);
    let mut proof = tree.get_proof(2).unwrap();
    assert!(MerkleTree::verify_proof(&proof));

    proof.leaf ^= 1;
    assert!(!MerkleTree::verify_proof(&proof));
}

#[test]
fn tampered_step_digest_rejected() {
    let tree: MerkleTree = MerkleTree::from(vec![1, 2, 3, 4]);
    let mut proof = tree.get_proof(2).unwrap();
    assert!(MerkleTree::verify_proof(&proof));

    proof.path[0].value ^= 1;
    assert!(!MerkleTree::verify_proof(&proof));
}

#[test]
fn tampered_step_direction_rejected() {
    let tree: MerkleTree = MerkleTree::from(vec![1, 2, 3, 4]);
    let mut proof = tree.get_proof(2).unwrap();
    assert!(MerkleTree::verify_proof(&proof));

    proof.path[1].direction = match proof.path[1].direction {
        Direction::Left => Direction::Right,
        Direction::Right => Direction::Left,
    };
    assert!(!MerkleTree::verify_proof(&proof));
}

#[test]
fn append_changes_root() {
    let mut tree: MerkleTree = MerkleTree::from(vec![5, 6, 7]);
    let before = tree.root();
    tree.add(42);
    assert_ne!(before, tree.root());

    // the documented weakness of default-value padding: appending the
    // default value where a padded leaf already stood leaves every leaf
    // digest, and so the root, unchanged
    let mut padded: MerkleTree = MerkleTree::from(vec![5, 6, 7]);
    let padded_before = padded.root();
    padded.add(0);
    assert_eq!(padded_before, padded.root());
}
