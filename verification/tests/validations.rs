use merkle_tree::create_merkle_tree;
use merkle_tree::get_aggregate_proof;
use merkle_tree::get_proof;
use merkle_tree::get_root;
use merkle_tree::hash_leaf;
use merkle_tree::hash_node;
use merkle_tree::update_element;
use merkle_tree::verify_aggregate_proof;
use merkle_tree::verify_proof;
use merkle_tree::MerkleTree;

fn test_elements() -> Vec<&'static str> {
    vec!["some", "test", "elements"]
}

fn more_test_elements() -> Vec<&'static str> {
    vec!["some", "more", "test", "elements"]
}

fn even_more_test_elements() -> Vec<&'static str> {
    vec!["some", "more", "valid", "test", "elements"]
}

fn yet_more_test_elements() -> Vec<&'static str> {
    vec!["some", "more", "valid", "test", "elements", "too"]
}

fn lots_more_test_elements() -> Vec<&'static str> {
    vec!["some", "more", "valid", "test", "elements", "to", "use"]
}

fn increasingly_more_test_elements() -> Vec<&'static str> {
    vec!["some", "more", "valid", "test", "elements", "to", "use", "again"]
}

const INVALID_HASH: &str = "not_a_valid_hash";
const VERIFY_PROOF_FAILED: bool = false;

fn get_test_tree(input: Vec<&str>) -> MerkleTree {
    let elements = input.iter().map(|s| s.to_string()).collect::<Vec<_>>();
    create_merkle_tree(&elements)
        .expect("Should have received a valid tree given const test inputs")
}

fn get_expected_root_hash(input: Vec<&str>) -> String {
    let mut leaves = input;
    if leaves.len() % 2 == 1 {
        leaves.push("");
    }

    let mut nodes: Vec<String> = leaves.iter().map(|e| hash_leaf(e)).collect::<Vec<_>>();

    while nodes.len() > 1 {
        let mut parents: Vec<String> = Vec::new();
        let mut i = 0;
        while i + 1 < nodes.len() {
            parents.push(hash_node(&nodes[i], &nodes[i + 1]));
            i += 2;
        }
        if i < nodes.len() {
            parents.push(hash_node(&nodes[i], &hash_leaf("")));
        }
        nodes = parents;
    }

    nodes[0].to_owned()
}

#[test]
fn getting_root_hashes() {
    let mt = get_test_tree(test_elements());
    let expected_root_hash = mt.root_hash.to_owned();

    assert_eq!(get_root(&mt), expected_root_hash);
}

#[test]
fn verifying_proofs() {
    let mt = get_test_tree(test_elements());

    let proof =
        get_proof(&mt, 0).expect("Should have received a valid proof for the first element");

    assert!(verify_proof(get_root(&mt), &proof));
    assert_eq!(
        verify_proof(INVALID_HASH.into(), &proof),
        VERIFY_PROOF_FAILED
    );
}

#[test]
fn updating_elements() {
    let mt = get_test_tree(test_elements());
    let new_element = "extra";
    let mut elements = test_elements();
    elements.insert(1, new_element);
    let expected_root = get_expected_root_hash(elements);

    let updated_mt = update_element(mt, 1, new_element).expect(
        "Should have received a valid tree from the implementation given these known inputs",
    );

    assert_eq!(get_root(&updated_mt), expected_root);
}

#[test]
fn updating_elements_out_of_bounds() {
    let mt = get_test_tree(test_elements());
    let new_element = "and this is what it means to go even further beyond!";

    let oob = mt.leaves.len();
    let result = update_element(mt, oob, new_element);

    assert!(result.is_err());
}

#[test]
fn generating_trees_of_varying_heights() {
    let mt_expected_root = get_expected_root_hash(test_elements());
    let mt = get_test_tree(test_elements());

    let more_mt_expected_root = get_expected_root_hash(more_test_elements());
    let more_mt = get_test_tree(more_test_elements());

    let even_more_mt_expected_root = get_expected_root_hash(even_more_test_elements());
    let even_more_mt = get_test_tree(even_more_test_elements());

    let yet_more_mt_expected_root = get_expected_root_hash(yet_more_test_elements());
    let yet_more_mt = get_test_tree(yet_more_test_elements());

    let lots_more_mt_expected_root = get_expected_root_hash(lots_more_test_elements());
    let lots_more_mt = get_test_tree(lots_more_test_elements());

    let increasingly_more_mt_expected_root =
        get_expected_root_hash(increasingly_more_test_elements());
    let increasingly_more_mt = get_test_tree(increasingly_more_test_elements());

    assert_eq!(get_root(&mt), mt_expected_root);
    assert_eq!(get_root(&more_mt), more_mt_expected_root);
    assert_eq!(get_root(&even_more_mt), even_more_mt_expected_root);
    assert_eq!(get_root(&yet_more_mt), yet_more_mt_expected_root);
    assert_eq!(get_root(&lots_more_mt), lots_more_mt_expected_root);
    assert_eq!(
        get_root(&increasingly_more_mt),
        increasingly_more_mt_expected_root
    );
}

#[test]
fn verifying_aggregate_proofs() {
    let mt = get_test_tree(increasingly_more_test_elements());

    let proof = get_aggregate_proof(&mt, 2, 6)
        .expect("Should have received a valid proof for the elements [2,6)");

    assert!(verify_aggregate_proof(get_root(&mt), &proof));
    assert_eq!(
        verify_aggregate_proof(INVALID_HASH.into(), &proof),
        VERIFY_PROOF_FAILED
    );
}

#[test]
fn verifying_aggregate_proofs_out_of_bounds() {
    let mt = get_test_tree(increasingly_more_test_elements());

    let oob = mt.leaves.len();
    let overflow_result = get_aggregate_proof(&mt, 0, oob);
    let invert_result = get_aggregate_proof(&mt, 1, 0);
    let eq_result = get_aggregate_proof(&mt, 2, 2);

    assert!(overflow_result.is_err());
    assert!(invert_result.is_err());
    assert!(eq_result.is_err());
}

#[test]
fn test_root() {
    let expected_root = get_expected_root_hash(test_elements());

    let mt = get_test_tree(test_elements());

    assert_eq!(get_root(&mt), expected_root);
}

#[test]
fn test_proof() {
    let mt = get_test_tree(test_elements());

    for i in 0..test_elements().len() {
        let proof = get_proof(&mt, i)
            .expect("Should have received a valid proof for any of the original elements");

        assert!(verify_proof(get_root(&mt), &proof))
    }
}
