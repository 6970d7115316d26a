use merkle_tree::create_merkle_tree;
use merkle_tree::get_aggregate_proof;
use merkle_tree::get_proof;
use merkle_tree::get_root;
use merkle_tree::hash_leaf;
use merkle_tree::hash_node;
use merkle_tree::hasher;
use merkle_tree::update_element;
use merkle_tree::verify_aggregate_proof;
use merkle_tree::verify_proof;
use merkle_tree::MerkleTree;

fn strings(input: &[&str]) -> Vec<String> {
    input.iter().map(|s| s.to_string()).collect()
}

fn build(input: &[&str]) -> MerkleTree {
    create_merkle_tree(&strings(input)).expect("non-empty input must build")
}

// The digest is SHA-256 in lowercase hexadecimal: check two well-known
// values, so a broken hasher cannot slip through.
#[test]
fn digest_has_known_values() {
    assert_eq!(
        hasher("abc"),
        "ba7816bf8f01cfea414140de5dae2223b00361a396177a9cb410ff61f20015ad"
    );
    assert_eq!(
        hash_leaf(""),
        "e3b0c44298fc1c149afbf4c8996fb92427ae41e4649b934ca495991b7852b855"
    );
}

// hash_node concatenates the two hex strings before hashing, so splitting
// one input in two places must give the same digest.
#[test]
fn node_hash_concatenates_strings() {
    assert_eq!(hash_node("a", "bc"), hash_leaf("abc"));
    assert_eq!(hash_node("ab", "c"), hash_leaf("abc"));
    assert_eq!(hash_node("abc", ""), hash_leaf("abc"));
    assert_ne!(hash_node("a", "bc"), hash_leaf("a"));
}

// An odd element count is padded with one empty string; the root is the
// combination of the four leaf hashes.
#[test]
fn odd_count_root_matches_formula() {
    let mt = build(&["some", "test", "elements"]);
    let expected = hash_node(
        &hash_node(&hash_leaf("some"), &hash_leaf("test")),
        &hash_node(&hash_leaf("elements"), &hash_leaf("")),
    );
    assert_eq!(get_root(&mt), expected);
    assert_eq!(mt.leaves.len(), 4);
    assert_eq!(mt.leaves[3], "");
}

// Every valid index of every small tree yields a proof that verifies,
// including indices that fall on the padding sentinel.
#[test]
fn proofs_verify_at_every_index() {
    let pool = ["u", "v", "w", "x", "y", "z", "q", "r"];
    for n in 1..=pool.len() {
        let mt = build(&pool[..n]);
        for i in 0..mt.leaves.len() {
            let proof = get_proof(&mt, i).expect("index within the padded leaves");
            assert!(verify_proof(get_root(&mt), &proof));
        }
    }
}

// Flipping any single bit of the claimed root makes verification fail.
#[test]
fn any_flipped_root_bit_fails() {
    let mt = build(&["some", "test", "elements"]);
    let proof = get_proof(&mt, 1).expect("valid index");
    let root = get_root(&mt);
    assert!(verify_proof(root.clone(), &proof));
    for pos in 0..root.len() {
        for bit in 0..8 {
            let mut bytes = root.clone().into_bytes();
            bytes[pos] ^= 1 << bit;
            if let Ok(flipped) = String::from_utf8(bytes) {
                assert!(!verify_proof(flipped, &proof));
            }
        }
    }
}

// Building is deterministic: the same input always yields the same root.
#[test]
fn build_is_deterministic() {
    let input = ["some", "more", "valid", "test", "elements"];
    let first = build(&input);
    let second = build(&input);
    assert_eq!(get_root(&first), get_root(&second));
}

// Building from zero elements is rejected with an error.
#[test]
fn empty_input_is_rejected() {
    let empty: Vec<String> = Vec::new();
    let result = create_merkle_tree(&empty);
    assert!(result.is_err());
    assert_eq!(
        result.unwrap_err(),
        "cannot build a tree with zero elements"
    );
}

// After an update the new tree proves the new element at the updated
// index, and a differing element changes the root.
#[test]
fn update_proves_new_element_and_changes_root() {
    let mt = build(&["some", "test", "elements"]);
    let old_root = get_root(&mt);
    let updated = update_element(mt, 1, "different").expect("index within the original count");
    assert_ne!(get_root(&updated), old_root);

    let proof = get_proof(&updated, 1).expect("updated index is valid");
    assert_eq!(proof.element, "different");
    assert!(verify_proof(get_root(&updated), &proof));
}

// The update index is interpreted against the unpadded element sequence:
// the index equal to the original count is already out of bounds.
#[test]
fn update_index_counts_unpadded_elements() {
    let mt = build(&["some", "test", "elements"]);
    assert_eq!(mt.leaves.len(), 4);
    let result = update_element(mt, 3, "late");
    assert!(result.is_err());
}

// An index at or past the leaf count yields an error from get_proof.
#[test]
fn proof_index_out_of_bounds_is_rejected() {
    let mt = build(&["some", "test", "elements"]);
    let oob = mt.leaves.len();
    assert!(get_proof(&mt, oob).is_err());
    assert!(get_proof(&mt, oob + 17).is_err());
}

// Aggregate proofs verify for every valid half-open range, including
// windows touching either edge of the tree.
#[test]
fn aggregate_proofs_verify_for_all_valid_ranges() {
    let pool = ["some", "more", "valid", "test", "elements", "to", "use", "again"];
    for n in 2..=pool.len() {
        let mt = build(&pool[..n]);
        let len = mt.leaves.len();
        for start in 0..len {
            for end in (start + 1)..len {
                let proof = get_aggregate_proof(&mt, start, end).expect("valid range");
                assert!(
                    verify_aggregate_proof(get_root(&mt), &proof),
                    "range [{start},{end}) of {n} elements"
                );
            }
        }
    }
}

// An aggregate proof for a run of at least two elements carries no more
// sibling hashes than the per-element inclusion proofs it replaces.
#[test]
fn aggregate_proof_is_no_larger_than_inclusion_proofs() {
    let mt = build(&["some", "more", "valid", "test", "elements", "to", "use", "again"]);
    let aggregate = get_aggregate_proof(&mt, 2, 6).expect("valid range");

    let mut inclusion_total = 0;
    for i in 2..6 {
        let proof = get_proof(&mt, i).expect("valid index");
        inclusion_total += proof.siblings.len();
    }
    assert!(aggregate.siblings.len() <= inclusion_total);
}

// The aggregate range [2,6) of the eight known elements verifies against
// the tree's root and fails against an unrelated root string.
#[test]
fn aggregate_range_scenario() {
    let mt = build(&["some", "more", "valid", "test", "elements", "to", "use", "again"]);
    let proof = get_aggregate_proof(&mt, 2, 6).expect("valid range");
    assert!(verify_aggregate_proof(get_root(&mt), &proof));
    assert!(!verify_aggregate_proof("unrelated root string".to_string(), &proof));
}
