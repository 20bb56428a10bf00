use merkle::hash_leaf;
use merkle::MerkleError;
use merkle::MerkleProof;
use merkle::MerkleTree;

fn strings(xs: &[&str]) -> Vec<String> {
    xs.iter().map(|x| x.to_string()).collect()
}

#[test]
fn test_merkle_root() {
    let data = strings(&["a", "b", "c", "d", "e"]);
    let root = MerkleTree::merkle_root(&data).unwrap();
    assert!(!root.is_empty(), "Root hash should not be empty");
}

#[test]
fn test_merkle_proof() {
    let data = strings(&["a", "b", "c", "d", "e"]);
    let proof = MerkleTree::merkle_proof(&data, 1).unwrap();
    assert_eq!(proof.leaf_index, 1);
    assert_eq!(proof.leaf_content, "b");
}

#[test]
fn test_verify_proof() {
    let data = strings(&["a", "b", "c", "d", "e"]);
    let root = MerkleTree::merkle_root(&data).unwrap();
    let proof = MerkleTree::merkle_proof(&data, 1).unwrap();
    assert!(
        MerkleTree::verify_proof(&root, &proof),
        "Proof should be valid"
    );
}

#[test]
fn test_odd_number_of_leaves() {
    let data = strings(&["a", "b", "c", "d", "e", "f", "g"]);
    let root = MerkleTree::merkle_root(&data).unwrap();
    let proof = MerkleTree::merkle_proof(&data, 4).unwrap();
    assert!(
        MerkleTree::verify_proof(&root, &proof),
        "Proof should be valid"
    );
}

#[test]
fn root_is_deterministic() {
    let data = strings(&["a", "b", "c", "d", "e"]);
    let first = MerkleTree::merkle_root(&data).unwrap();
    let second = MerkleTree::merkle_root(&data).unwrap();
    assert_eq!(first, second);
}

#[test]
fn single_leaf_root_is_leaf_hash() {
    let data = strings(&["x"]);
    let root = MerkleTree::merkle_root(&data).unwrap();
    assert_eq!(root, hash_leaf("x"));
}

#[test]
fn leaf_hash_is_a_real_digest() {
    let h = hash_leaf("a");
    assert_eq!(h.len(), 128);
    assert_ne!(h, "a");
    assert!(h.chars().all(|c| c.is_ascii_hexdigit() && !c.is_ascii_uppercase()));
    assert_eq!(hash_leaf("").len(), 128);
    assert_ne!(hash_leaf(""), hash_leaf("a"));
}

#[test]
fn empty_input_is_rejected() {
    let data: Vec<String> = Vec::new();
    assert_eq!(MerkleTree::merkle_root(&data), Err(MerkleError::EmptyInput));
    assert!(matches!(
        MerkleTree::merkle_proof(&data, 0),
        Err(MerkleError::EmptyInput)
    ));
}

#[test]
fn out_of_range_index_is_rejected() {
    let data = strings(&["a", "b", "c"]);
    assert!(matches!(
        MerkleTree::merkle_proof(&data, 3),
        Err(MerkleError::IndexOutOfRange)
    ));
    assert!(matches!(
        MerkleTree::merkle_proof(&data, 100),
        Err(MerkleError::IndexOutOfRange)
    ));
}

#[test]
fn round_trip_all_indices_odd_length() {
    let data = strings(&["a", "b", "c", "d", "e"]);
    let root = MerkleTree::merkle_root(&data).unwrap();
    for i in 0..data.len() {
        let proof = MerkleTree::merkle_proof(&data, i).unwrap();
        assert!(MerkleTree::verify_proof(&root, &proof));
    }
}

#[test]
fn round_trip_all_indices_even_length() {
    let data = strings(&["a", "b", "c", "d", "e", "f", "g", "h"]);
    let root = MerkleTree::merkle_root(&data).unwrap();
    for i in 0..data.len() {
        let proof = MerkleTree::merkle_proof(&data, i).unwrap();
        assert!(MerkleTree::verify_proof(&root, &proof));
    }
}

#[test]
fn proof_length_is_ceil_log2_of_leaf_count() {
    let expected: &[(usize, usize)] = &[(1, 0), (2, 1), (3, 2), (4, 2), (5, 3), (7, 3), (8, 3), (9, 4)];
    for &(n, len) in expected {
        let data: Vec<String> = (0..n).map(|i| format!("leaf{}", i)).collect();
        let proof = MerkleTree::merkle_proof(&data, n - 1).unwrap();
        assert_eq!(proof.hashes.len(), len, "leaf count {}", n);
        assert_eq!(proof.num_of_leaves, n);
    }
}

#[test]
fn example_vector_five_leaves_index_one() {
    let data = strings(&["a", "b", "c", "d", "e"]);
    let root = MerkleTree::merkle_root(&data).unwrap();
    let proof = MerkleTree::merkle_proof(&data, 1).unwrap();
    assert_eq!(proof.leaf_content, "b");
    assert_eq!(proof.leaf_index, 1);
    assert!(MerkleTree::verify_proof(&root, &proof));
}

#[test]
fn example_vector_tampered_leaf_content() {
    let data = strings(&["abc", "bcd", "cde", "def", "efg"]);
    let root = MerkleTree::merkle_root(&data).unwrap();
    let proof = MerkleTree::merkle_proof(&data, 0).unwrap();
    assert!(MerkleTree::verify_proof(&root, &proof));
    let tampered = MerkleProof {
        hashes: proof.hashes.clone(),
        num_of_leaves: proof.num_of_leaves,
        leaf_index: proof.leaf_index,
        leaf_content: "Abc".to_string(),
    };
    assert!(!MerkleTree::verify_proof(&root, &tampered));
}

#[test]
fn tampered_sibling_digest_fails() {
    let data = strings(&["a", "b", "c", "d", "e"]);
    let root = MerkleTree::merkle_root(&data).unwrap();
    let proof = MerkleTree::merkle_proof(&data, 2).unwrap();
    for level in 0..proof.hashes.len() {
        let mut hashes = proof.hashes.clone();
        let flipped = if hashes[level].starts_with('0') { "1" } else { "0" };
        hashes[level].replace_range(0..1, flipped);
        let tampered = MerkleProof {
            hashes,
            num_of_leaves: proof.num_of_leaves,
            leaf_index: proof.leaf_index,
            leaf_content: proof.leaf_content.clone(),
        };
        assert!(!MerkleTree::verify_proof(&root, &tampered), "level {}", level);
    }
}

#[test]
fn tampered_root_fails() {
    let data = strings(&["a", "b", "c", "d", "e"]);
    let mut root = MerkleTree::merkle_root(&data).unwrap();
    let proof = MerkleTree::merkle_proof(&data, 3).unwrap();
    let flipped = if root.starts_with('0') { "1" } else { "0" };
    root.replace_range(0..1, flipped);
    assert!(!MerkleTree::verify_proof(&root, &proof));
}

#[test]
fn inconsistent_proof_shape_fails() {
    let data = strings(&["a", "b", "c", "d", "e"]);
    let root = MerkleTree::merkle_root(&data).unwrap();
    let proof = MerkleTree::merkle_proof(&data, 1).unwrap();

    let mut truncated_hashes = proof.hashes.clone();
    truncated_hashes.pop();
    let truncated = MerkleProof {
        hashes: truncated_hashes,
        num_of_leaves: proof.num_of_leaves,
        leaf_index: proof.leaf_index,
        leaf_content: proof.leaf_content.clone(),
    };
    assert!(!MerkleTree::verify_proof(&root, &truncated));

    let mut extended_hashes = proof.hashes.clone();
    extended_hashes.push(hash_leaf("extra"));
    let extended = MerkleProof {
        hashes: extended_hashes,
        num_of_leaves: proof.num_of_leaves,
        leaf_index: proof.leaf_index,
        leaf_content: proof.leaf_content.clone(),
    };
    assert!(!MerkleTree::verify_proof(&root, &extended));

    let index_past_count = MerkleProof {
        hashes: proof.hashes.clone(),
        num_of_leaves: proof.num_of_leaves,
        leaf_index: proof.num_of_leaves,
        leaf_content: proof.leaf_content.clone(),
    };
    assert!(!MerkleTree::verify_proof(&root, &index_past_count));

    let zero_leaves = MerkleProof {
        hashes: proof.hashes.clone(),
        num_of_leaves: 0,
        leaf_index: 0,
        leaf_content: proof.leaf_content.clone(),
    };
    assert!(!MerkleTree::verify_proof(&root, &zero_leaves));
}

#[test]
fn roots_differ_for_different_leaves() {
    let one = MerkleTree::merkle_root(&strings(&["a", "b"])).unwrap();
    let other = MerkleTree::merkle_root(&strings(&["a", "c"])).unwrap();
    assert_ne!(one, other);
    let swapped = MerkleTree::merkle_root(&strings(&["b", "a"])).unwrap();
    assert_ne!(one, swapped);
}
