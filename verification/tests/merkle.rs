use num_bigint::BigInt;
use r1cs_circuit::error::Error;
use r1cs_circuit::field::{FieldElement, Modulus};
use r1cs_circuit::merkle::MerkleTree;

fn modulus(n: u64) -> Modulus {
    Modulus::new(BigInt::from(n)).unwrap()
}

fn leaves(values: &[i64]) -> Vec<BigInt> {
    values.iter().map(|v| BigInt::from(*v)).collect()
}

fn tree(values: &[i64], m: u64) -> MerkleTree {
    MerkleTree::new(leaves(values), modulus(m))
}

fn step(sibling: i64, is_left: bool) -> (BigInt, bool) {
    (BigInt::from(sibling), is_left)
}

/// Follows `path` upwards from `leaf`.
fn climb(t: &MerkleTree, leaf: &BigInt, path: &[(BigInt, bool)], m: &Modulus) -> BigInt {
    let mut node = FieldElement::new(leaf.clone(), m);
    for (sibling, is_left) in path {
        let sibling = FieldElement::new(sibling.clone(), m);
        node = if *is_left { t.apply_hash(&sibling, &node) } else { t.apply_hash(&node, &sibling) };
    }
    node.get_value()
}

#[test]
fn root_of_four_leaves() {
    let t = tree(&[10, 20, 50, 80], 1_000_000_007);
    assert_eq!(t.leaf_count(), 4);
    assert_eq!(t.root(), BigInt::from(160));
}

#[test]
fn root_is_reduced_on_every_level() {
    let t = tree(&[10, 20, 50, 80], 7);
    // 30 and 130 are 2 and 4 modulo 7.
    assert_eq!(t.root(), BigInt::from(6));
    assert_eq!(t.merkle_path(0).unwrap(), vec![step(20, false), step(4, false)]);
}

#[test]
fn paths_of_four_leaves() {
    let t = tree(&[10, 20, 50, 80], 1_000_000_007);
    assert_eq!(t.merkle_path(0).unwrap(), vec![step(20, false), step(130, false)]);
    assert_eq!(t.merkle_path(1).unwrap(), vec![step(10, true), step(130, false)]);
    assert_eq!(t.merkle_path(2).unwrap(), vec![step(80, false), step(30, true)]);
    assert_eq!(t.merkle_path(3).unwrap(), vec![step(50, true), step(30, true)]);
}

#[test]
fn a_last_node_without_neighbour_is_combined_with_itself() {
    let t = tree(&[1, 2, 3], 1_000_000_007);
    assert_eq!(t.root(), BigInt::from(9));
    assert_eq!(t.merkle_path(2).unwrap(), vec![step(3, false), step(3, true)]);
    assert_eq!(t.merkle_path(0).unwrap(), vec![step(2, false), step(6, false)]);
}

#[test]
fn a_single_leaf_is_its_own_root() {
    let t = tree(&[42], 7);
    assert_eq!(t.root(), BigInt::from(42));
    assert!(t.merkle_path(0).unwrap().is_empty());
}

#[test]
fn a_tree_without_leaves_has_root_zero() {
    let t = tree(&[], 7);
    assert_eq!(t.leaf_count(), 0);
    assert_eq!(t.root(), BigInt::from(0));
    assert!(matches!(t.merkle_path(0), Err(Error::InvalidIndex)));
}

#[test]
fn merkle_path_rejects_a_position_without_leaf() {
    let t = tree(&[10, 20, 50, 80], 101);
    assert!(matches!(t.merkle_path(4), Err(Error::InvalidIndex)));
    assert!(matches!(t.merkle_path(usize::MAX), Err(Error::InvalidIndex)));
}

#[test]
fn apply_hash_is_field_addition() {
    let m = modulus(7);
    let t = tree(&[1], 7);
    let a = FieldElement::new(BigInt::from(5), &m);
    let b = FieldElement::new(BigInt::from(4), &m);
    assert_eq!(t.apply_hash(&a, &b).get_value(), BigInt::from(2));
}

#[test]
fn every_path_leads_to_the_root() {
    for size in 2..=9usize {
        let values: Vec<i64> = (0..size as i64).map(|i| 3 * i * i + 5).collect();
        let m = modulus(1009);
        let t = tree(&values, 1009);
        let root = t.root();
        for (index, leaf) in leaves(&values).iter().enumerate() {
            let path = t.merkle_path(index).unwrap();
            assert_eq!(climb(&t, leaf, &path, &m), root);
        }
    }
}
