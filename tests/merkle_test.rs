use contracts::bytemap::ByteMap;
use contracts::merkle::{get_from_merkle, merklize, MerkleError};
use sha2::{Digest, Sha256};

fn state_of(pairs: &[(&str, &[u8])]) -> ByteMap {
    let mut m = ByteMap::new();
    for (k, v) in pairs {
        m.insert(k.to_string(), v.to_vec());
    }
    m
}

#[test]
fn every_key_looks_up_its_value() {
    let state = state_of(&[("ab", &[1]), ("ac", &[2, 2]), ("b", &[3]), ("abc", &[4])]);
    let mut tree = merklize(&state);
    assert_eq!(get_from_merkle(&mut tree, "ab".to_string()), Ok(vec![1]));
    assert_eq!(get_from_merkle(&mut tree, "ac".to_string()), Ok(vec![2, 2]));
    assert_eq!(get_from_merkle(&mut tree, "b".to_string()), Ok(vec![3]));
    assert_eq!(get_from_merkle(&mut tree, "abc".to_string()), Ok(vec![4]));
}

#[test]
fn unknown_keys_are_rejected() {
    let state = state_of(&[("ab", &[1]), ("b", &[3])]);
    let mut tree = merklize(&state);
    assert_eq!(get_from_merkle(&mut tree, "zz".to_string()), Err(MerkleError::UnknownLocation));
    assert_eq!(get_from_merkle(&mut tree, "abx".to_string()), Err(MerkleError::UnknownLocation));
}

#[test]
fn empty_state_has_the_empty_root_hash() {
    let tree = merklize(&ByteMap::new());
    assert_eq!(tree.len(), 1);
    assert_eq!(tree[0].hash, "");
}

#[test]
fn single_entry_root_hash_is_reproducible() {
    let state = state_of(&[("a", &[7, 8])]);
    let tree = merklize(&state);
    assert_eq!(tree.len(), 2);
    let leaf = hex::encode(Sha256::digest([7u8, 8u8]));
    assert_eq!(tree[1].hash, leaf);
    let root = hex::encode(Sha256::digest(leaf.as_bytes()));
    assert_eq!(tree[0].hash, root);
    assert_eq!(tree[1].parent, 0);
    assert_eq!(tree[0].children, vec![('a', 1)]);
}

#[test]
fn tampered_values_fail_the_integrity_check() {
    let state = state_of(&[("ab", &[1]), ("b", &[3])]);
    let mut tree = merklize(&state);
    let leaf = tree.iter().position(|n| n.value == vec![1u8]).unwrap();
    tree[leaf].value = vec![9];
    assert_eq!(get_from_merkle(&mut tree, "ab".to_string()), Err(MerkleError::IntegrityFailure));
}

#[test]
fn children_are_kept_in_character_order() {
    let forward = merklize(&state_of(&[("a", &[1]), ("b", &[2]), ("c", &[3])]));
    let backward = merklize(&state_of(&[("c", &[3]), ("b", &[2]), ("a", &[1])]));
    let chars: Vec<char> = backward[0].children.iter().map(|(c, _)| *c).collect();
    assert_eq!(chars, vec!['a', 'b', 'c']);
    assert_eq!(forward[0].hash, backward[0].hash);
}
