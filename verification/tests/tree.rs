use merkle_tree::{hash_concat, hash_data, MerkleError, MerkleTree, MerkleTreeChildren};

fn from_hex(text: &str) -> Vec<u8> {
    (0..text.len())
        .step_by(2)
        .map(|i| u8::from_str_radix(&text[i..i + 2], 16).unwrap())
        .collect()
}

fn counting(n: usize) -> Vec<Vec<u8>> {
    (0..n).map(|i| vec![i as u8]).collect()
}

/// The number of layers on the leftmost path.
fn left_depth(tree: &MerkleTree) -> usize {
    match tree.children() {
        MerkleTreeChildren::Leaf => 1,
        MerkleTreeChildren::Branch { left, .. } => 1 + left_depth(left),
    }
}

/// The depth of a tree whose leaves all sit in one layer, and whose inner
/// nodes carry the digest of their children; `None` for any other tree.
fn checked_depth(tree: &MerkleTree) -> Option<usize> {
    match tree.children() {
        MerkleTreeChildren::Leaf => Some(1),
        MerkleTreeChildren::Branch { left, right } => {
            if *tree.hash() != hash_concat(left.hash(), right.hash()) {
                return None;
            }
            let l = checked_depth(left)?;
            let r = checked_depth(right)?;
            if l == r {
                Some(l + 1)
            } else {
                None
            }
        }
    }
}

/// The digests of the leaves, from left to right.
fn leaf_digests(tree: &MerkleTree, out: &mut Vec<Vec<u8>>) {
    match tree.children() {
        MerkleTreeChildren::Leaf => out.push(tree.hash().clone()),
        MerkleTreeChildren::Branch { left, right } => {
            leaf_digests(left, out);
            leaf_digests(right, out);
        }
    }
}

fn same_tree(a: &MerkleTree, b: &MerkleTree) -> bool {
    if a.hash() != b.hash() {
        return false;
    }
    match (a.children(), b.children()) {
        (MerkleTreeChildren::Leaf, MerkleTreeChildren::Leaf) => true,
        (
            MerkleTreeChildren::Branch { left: al, right: ar },
            MerkleTreeChildren::Branch { left: bl, right: br },
        ) => same_tree(al, bl) && same_tree(ar, br),
        _ => false,
    }
}

#[test]
fn four_blobs_have_the_expected_root() {
    let input = counting(4);
    let tree = MerkleTree::construct(&input);
    assert_eq!(
        *tree.hash(),
        from_hex("9675e04b4ba9dc81b06e81731e2d21caa2c95557a85dcfa3fff70c9ff0f30b2e")
    );
}

#[test]
fn eight_blobs_have_the_expected_root() {
    let input = counting(8);
    let tree = MerkleTree::construct(&input);
    assert_eq!(
        *tree.hash(),
        from_hex("0727b310f87099c1ba2ec0ba408def82c308237c8577f0bdfd2643e9cc6b7578")
    );
}

#[test]
fn single_blob_is_a_single_leaf() {
    let input = vec![vec![5u8]];
    let tree = MerkleTree::construct(&input);
    assert_eq!(*tree.hash(), hash_data(&vec![5u8]));
    assert_eq!(
        *tree.hash(),
        from_hex("e77b9a9ae9e30b0dbdb6f510a264ef9de781501d7b6b92ae89eb059c5ab743db")
    );
    assert!(matches!(tree.children(), MerkleTreeChildren::Leaf));
    assert_eq!(left_depth(&tree), 1);
    assert!(MerkleTree::verify(&input, tree.hash()));
}

#[test]
fn two_blobs_make_one_branch() {
    let input = vec![vec![0u8], vec![1u8]];
    let tree = MerkleTree::construct(&input);
    match tree.children() {
        MerkleTreeChildren::Branch { left, right } => {
            assert_eq!(*left.hash(), hash_data(&input[0]));
            assert_eq!(*right.hash(), hash_data(&input[1]));
            assert!(matches!(left.children(), MerkleTreeChildren::Leaf));
            assert!(matches!(right.children(), MerkleTreeChildren::Leaf));
        }
        MerkleTreeChildren::Leaf => panic!("two blobs gave a leaf"),
    }
    assert_eq!(
        *tree.hash(),
        from_hex("30e1867424e66e8b6d159246db94e3486778136f7e386ff5f001859d6b8484ab")
    );
}

#[test]
fn depth_is_log2_of_the_length_plus_one() {
    for k in 0..9 {
        let input = counting(1 << k);
        let tree = MerkleTree::construct(&input);
        assert_eq!(left_depth(&tree), k + 1);
    }
}

#[test]
fn trees_are_balanced_and_consistent() {
    for k in 0..8 {
        let input = counting(1 << k);
        let tree = MerkleTree::construct(&input);
        assert_eq!(checked_depth(&tree), Some(k + 1));
    }
}

#[test]
fn leaves_are_the_blob_digests_in_order() {
    let input: Vec<Vec<u8>> = (0..16u8).map(|i| vec![i, i.wrapping_mul(7), 3]).collect();
    let tree = MerkleTree::construct(&input);
    let mut leaves = Vec::new();
    leaf_digests(&tree, &mut leaves);
    let expected: Vec<Vec<u8>> = input.iter().map(hash_data).collect();
    assert_eq!(leaves, expected);
}

#[test]
fn construct_is_deterministic() {
    let input = counting(32);
    let first = MerkleTree::construct(&input);
    let second = MerkleTree::construct(&input.clone());
    assert_eq!(first.hash(), second.hash());
    assert!(same_tree(&first, &second));
}

#[test]
fn root_verifies_for_every_small_size() {
    for k in 0..9 {
        let input = counting(1 << k);
        let tree = MerkleTree::construct(&input);
        assert!(MerkleTree::verify(&input, tree.hash()));
        assert_eq!(MerkleTree::try_verify(&input, tree.hash()), Ok(true));
    }
}

#[test]
fn mutated_first_blob_fails_verification() {
    let mut input = counting(8);
    let root = MerkleTree::construct(&input).hash().clone();
    input[0][0] += 1;
    assert!(!MerkleTree::verify(&input, &root));
    assert_eq!(MerkleTree::try_verify(&input, &root), Ok(false));
}

#[test]
fn any_single_byte_change_fails_verification() {
    let input: Vec<Vec<u8>> = (0..8u8).map(|i| vec![i, 0x10, 0x20]).collect();
    let root = MerkleTree::construct(&input).hash().clone();
    for blob in 0..input.len() {
        for byte in 0..input[blob].len() {
            let mut changed = input.clone();
            changed[blob][byte] ^= 0x01;
            assert!(!MerkleTree::verify(&changed, &root));
        }
    }
}

#[test]
fn longer_blob_fails_verification() {
    let input = counting(4);
    let root = MerkleTree::construct(&input).hash().clone();
    let mut changed = input.clone();
    changed[3].push(0);
    assert!(!MerkleTree::verify(&changed, &root));
}

#[test]
fn swapping_two_blobs_changes_the_root() {
    let input = counting(8);
    let root = MerkleTree::construct(&input).hash().clone();
    for i in 0..input.len() {
        for j in (i + 1)..input.len() {
            let mut other = input.clone();
            other.swap(i, j);
            assert_ne!(*MerkleTree::construct(&other).hash(), root);
            assert!(!MerkleTree::verify(&other, &root));
        }
    }
}

#[test]
fn swapping_two_equal_blobs_keeps_the_root() {
    let input = vec![vec![1u8], vec![2u8], vec![1u8], vec![3u8]];
    let root = MerkleTree::construct(&input).hash().clone();
    let mut other = input.clone();
    other.swap(0, 2);
    assert_eq!(*MerkleTree::construct(&other).hash(), root);
}

#[test]
fn verify_rejects_a_foreign_digest() {
    let input = counting(4);
    assert!(!MerkleTree::verify(&input, &Vec::new()));
    assert!(!MerkleTree::verify(&input, &vec![0u8; 32]));
    let mut root = MerkleTree::construct(&input).hash().clone();
    root.pop();
    assert!(!MerkleTree::verify(&input, &root));
    assert!(!MerkleTree::verify(&input, &hash_data(&vec![0u8])));
}

#[test]
fn empty_input_is_an_invalid_length() {
    let input: Vec<Vec<u8>> = Vec::new();
    assert!(matches!(
        MerkleTree::try_construct(&input),
        Err(MerkleError::InvalidInputLength)
    ));
    assert_eq!(
        MerkleTree::try_verify(&input, &vec![0u8; 32]),
        Err(MerkleError::InvalidInputLength)
    );
}

#[test]
fn three_blobs_are_an_invalid_length() {
    let input = counting(3);
    assert!(matches!(
        MerkleTree::try_construct(&input),
        Err(MerkleError::InvalidInputLength)
    ));
    assert_eq!(
        MerkleTree::try_verify(&input, &hash_data(&vec![2u8])),
        Err(MerkleError::InvalidInputLength)
    );
}

#[test]
fn only_powers_of_two_are_valid_lengths() {
    for n in 0..70usize {
        let input = counting(n);
        let valid = n.is_power_of_two();
        assert_eq!(MerkleTree::try_construct(&input).is_ok(), valid);
        assert_eq!(MerkleTree::try_verify(&input, &Vec::new()).is_ok(), valid);
    }
}

#[test]
fn try_construct_builds_the_same_tree() {
    for k in 0..7 {
        let input = counting(1 << k);
        let tree = MerkleTree::construct(&input);
        match MerkleTree::try_construct(&input) {
            Ok(other) => assert!(same_tree(&tree, &other)),
            Err(_) => panic!("a power of two was refused"),
        }
    }
}

#[test]
fn leaf_carries_the_given_digest() {
    let digest = hash_data(&vec![9u8]);
    let leaf = MerkleTree::leaf(digest.clone());
    assert_eq!(*leaf.hash(), digest);
    assert!(matches!(leaf.children(), MerkleTreeChildren::Leaf));
}

#[test]
fn branch_hashes_its_children() {
    let a = hash_data(&vec![0u8]);
    let b = hash_data(&vec![1u8]);
    let node = MerkleTree::branch(MerkleTree::leaf(a.clone()), MerkleTree::leaf(b.clone()));
    assert_eq!(*node.hash(), hash_concat(&a, &b));
    match node.children() {
        MerkleTreeChildren::Branch { left, right } => {
            assert_eq!(*left.hash(), a);
            assert_eq!(*right.hash(), b);
        }
        MerkleTreeChildren::Leaf => panic!("a branch has children"),
    }
}

#[test]
fn hand_built_tree_equals_the_constructed_one() {
    let input = counting(4);
    let leaves: Vec<MerkleTree> = input.iter().map(|b| MerkleTree::leaf(hash_data(b))).collect();
    let mut it = leaves.into_iter();
    let (l0, l1, l2, l3) = (
        it.next().unwrap(),
        it.next().unwrap(),
        it.next().unwrap(),
        it.next().unwrap(),
    );
    let by_hand = MerkleTree::branch(MerkleTree::branch(l0, l1), MerkleTree::branch(l2, l3));
    assert!(same_tree(&by_hand, &MerkleTree::construct(&input)));
}

#[test]
fn large_blobs_and_empty_blobs_are_accepted() {
    let input = vec![Vec::new(), vec![0u8; 100_000], vec![0xffu8; 64], Vec::new()];
    let tree = MerkleTree::construct(&input);
    assert_eq!(tree.hash().len(), 32);
    assert!(MerkleTree::verify(&input, tree.hash()));
    assert_eq!(checked_depth(&tree), Some(3));
}
