use bonded_bft::merkle::{compute_merkle_proof, compute_merkle_root, verify_merkle_proof};
use sha2::Digest;

fn h(data: &[u8]) -> Vec<u8> {
    sha2::Sha256::digest(data).to_vec()
}

fn cat_hash(a: &[u8], b: &[u8]) -> Vec<u8> {
    let mut joined = a.to_vec();
    joined.extend_from_slice(b);
    h(&joined)
}

#[test]
fn merkle_root_of_no_leaves_is_empty() {
    let leaves: Vec<Vec<u8>> = vec![];
    assert_eq!(compute_merkle_root(&leaves), Vec::<u8>::new());
}

#[test]
fn merkle_root_of_one_leaf_is_the_leaf() {
    let leaf = h(b"only");
    let leaves = vec![leaf.clone()];
    assert_eq!(compute_merkle_root(&leaves), leaf);
}

#[test]
fn merkle_root_of_two_leaves_hashes_the_pair() {
    let h1 = h(b"left");
    let h2 = h(b"right");
    let leaves = vec![h1.clone(), h2.clone()];
    assert_eq!(compute_merkle_root(&leaves), cat_hash(&h1, &h2));
}

#[test]
fn merkle_root_of_three_leaves_duplicates_the_odd_leaf() {
    let h1 = h(b"a");
    let h2 = h(b"b");
    let h3 = h(b"c");
    let leaves = vec![h1.clone(), h2.clone(), h3.clone()];
    let left = cat_hash(&h1, &h2);
    let right = cat_hash(&h3, &h3);
    assert_eq!(compute_merkle_root(&leaves), cat_hash(&left, &right));
}

#[test]
fn generated_proofs_verify_for_every_leaf() {
    let leaves: Vec<Vec<u8>> = (0u8..7).map(|i| h(&[i])).collect();
    let root = compute_merkle_root(&leaves);
    for i in 0..leaves.len() {
        let proof = compute_merkle_proof(&leaves, i);
        assert!(verify_merkle_proof(&leaves[i], &proof, &root, i));
    }
}

#[test]
fn altered_root_is_rejected() {
    let leaves: Vec<Vec<u8>> = (0u8..4).map(|i| h(&[i])).collect();
    let root = compute_merkle_root(&leaves);
    let proof = compute_merkle_proof(&leaves, 2);
    assert!(verify_merkle_proof(&leaves[2], &proof, &root, 2));
    let mut bad_root = root.clone();
    bad_root[0] ^= 0x01;
    assert!(!verify_merkle_proof(&leaves[2], &proof, &bad_root, 2));
}

#[test]
fn altered_sibling_is_rejected() {
    let leaves: Vec<Vec<u8>> = (0u8..4).map(|i| h(&[i])).collect();
    let root = compute_merkle_root(&leaves);
    let mut proof = compute_merkle_proof(&leaves, 1);
    proof[0][0] ^= 0x01;
    assert!(!verify_merkle_proof(&leaves[1], &proof, &root, 1));
}

#[test]
fn wrong_index_is_rejected() {
    let leaves: Vec<Vec<u8>> = (0u8..4).map(|i| h(&[i])).collect();
    let root = compute_merkle_root(&leaves);
    let proof = compute_merkle_proof(&leaves, 0);
    assert!(verify_merkle_proof(&leaves[0], &proof, &root, 0));
    assert!(!verify_merkle_proof(&leaves[0], &proof, &root, 1));
}
