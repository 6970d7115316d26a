//! Inclusion proofs: a sibling-hash path from one leaf to the root,
//! generated from a tree's leaves and verified against a bare root hash.

use vstd::prelude::*;

use crate::hashing::empty_hash;
use crate::hashing::empty_hash_string;
use crate::hashing::hash_leaf;
use crate::hashing::hash_node;
use crate::hashing::leaf_hash_of;
use crate::hashing::node_hash_of;
use crate::model::leaf_row_of;
use crate::model::parent_row_of;
use crate::model::views_of;
use crate::tree::build_leaf_row;
use crate::tree::generate_parent_row;
use crate::tree::values_of;
use crate::tree::MerkleNode;
use crate::tree::MerkleTree;

verus! {

/// A proof that one element sits at a known position under a root:
/// the element, the sibling hash met at each level from leaf to root, and
/// for each sibling whether it is the left operand when recombining.
#[derive(Debug)]
pub struct MerkleProof {
    pub element: String,
    pub siblings: Vec<String>,
    pub directions: Vec<bool>,
}

/// The sibling of the node at `idx` in a row: its pair partner, or the
/// empty-node hash when the node is the unpaired last node of an odd row.
pub open spec fn sibling_in_row(row: Seq<Seq<char>>, idx: int) -> Seq<char> {
    if idx % 2 == 1 {
        row[idx - 1]
    } else if idx + 1 < row.len() {
        row[idx + 1]
    } else {
        empty_hash()
    }
}

/// The sibling hashes met on the path from position `idx` of `row` up to
/// the root, leaf level first.
pub open spec fn path_siblings(row: Seq<Seq<char>>, idx: int) -> Seq<Seq<char>>
    decreases row.len(),
{
    if row.len() <= 1 {
        Seq::<Seq<char>>::empty()
    } else {
        seq![sibling_in_row(row, idx)] + path_siblings(parent_row_of(row), idx / 2)
    }
}

/// For each level of the path from position `idx` of `row`: whether the
/// sibling there is the left member of its pair.
pub open spec fn path_directions(row: Seq<Seq<char>>, idx: int) -> Seq<bool>
    decreases row.len(),
{
    if row.len() <= 1 {
        Seq::<bool>::empty()
    } else {
        seq![idx % 2 == 1] + path_directions(parent_row_of(row), idx / 2)
    }
}

/// Recombine a starting digest with sibling hashes in order: at each step
/// the sibling is hashed on the left when its direction flag is set, on the
/// right otherwise. Pairing stops with the shorter of the two lists.
pub open spec fn climb(current: Seq<char>, siblings: Seq<Seq<char>>, directions: Seq<bool>) -> Seq<
    char,
>
    decreases siblings.len(),
{
    if siblings.len() == 0 || directions.len() == 0 {
        current
    } else {
        let next = if directions[0] {
            node_hash_of(siblings[0], current)
        } else {
            node_hash_of(current, siblings[0])
        };
        climb(next, siblings.drop_first(), directions.drop_first())
    }
}

/// Generate an inclusion proof for the element at `index`: re-derive the
/// rows from the stored leaves, and at each level record the hash of the
/// tracked node's sibling and on which side it sits. The path is tracked by
/// index, never by comparing hash values. An index at or past the leaf
/// count is rejected with an error.
pub fn get_proof(ref_tree: &MerkleTree, index: usize) -> (r: Result<MerkleProof, String>)
    ensures
        r is Ok <==> index < ref_tree.leaves@.len(),
        r is Err ==> (r->Err_0)@ == "Index of the target element is out of bounds for this tree"@,
        r is Ok ==> (r->Ok_0).element@ == ref_tree.leaves_view()[index as int],
        r is Ok ==> views_of((r->Ok_0).siblings@) == path_siblings(
            leaf_row_of(ref_tree.leaves_view()),
            index as int,
        ),
        r is Ok ==> (r->Ok_0).directions@ == path_directions(
            leaf_row_of(ref_tree.leaves_view()),
            index as int,
        ),
{
    if index >= ref_tree.leaves.len() {
        return Err("Index of the target element is out of bounds for this tree".to_owned());
    }

    let element = ref_tree.leaves[index].clone();
    let mut siblings: Vec<String> = Vec::new();
    let mut directions: Vec<bool> = Vec::new();

    let ghost row0 = leaf_row_of(ref_tree.leaves_view());
    let mut current_row: Vec<MerkleNode> = build_leaf_row(&ref_tree.leaves);
    let mut current_index: usize = index;
    proof {
        assert(views_of(ref_tree.leaves@).len() == ref_tree.leaves@.len());
        assert(row0.len() == ref_tree.leaves_view().len());
        assert(values_of(current_row@).len() == current_row@.len());
        assert(views_of(siblings@) =~= Seq::<Seq<char>>::empty());
        assert(Seq::<Seq<char>>::empty() + path_siblings(row0, index as int) =~= path_siblings(
            row0,
            index as int,
        ));
        assert(Seq::<bool>::empty() + path_directions(row0, index as int) =~= path_directions(
            row0,
            index as int,
        ));
    }

    while current_row.len() > 1
        invariant
            current_row@.len() >= 1,
            current_index < current_row@.len(),
            values_of(current_row@).len() == current_row@.len(),
            path_siblings(row0, index as int) == views_of(siblings@) + path_siblings(
                values_of(current_row@),
                current_index as int,
            ),
            path_directions(row0, index as int) == directions@ + path_directions(
                values_of(current_row@),
                current_index as int,
            ),
            siblings@.len() == directions@.len(),
        decreases current_row@.len(),
    {
        let ghost row = values_of(current_row@);
        let ghost ci = current_index as int;
        let ghost sibs0 = siblings@;
        let ghost dirs0 = directions@;

        let sibling_is_left_child = current_index % 2 == 1;

        let sibling: String = if sibling_is_left_child {
            current_row[current_index - 1].value.clone()
        } else if current_index + 1 < current_row.len() {
            current_row[current_index + 1].value.clone()
        } else {
            empty_hash_string()
        };
        proof {
            if ci % 2 == 1 {
                assert(values_of(current_row@)[ci - 1] == current_row@[ci - 1].value@);
            } else if ci + 1 < current_row@.len() {
                assert(values_of(current_row@)[ci + 1] == current_row@[ci + 1].value@);
            }
            assert(sibling@ == sibling_in_row(row, ci));
        }
        let ghost sv = sibling@;
        siblings.push(sibling);
        directions.push(sibling_is_left_child);

        current_row = generate_parent_row(current_row);
        current_index = current_index / 2;

        proof {
            assert(path_siblings(row, ci) == seq![sibling_in_row(row, ci)] + path_siblings(
                parent_row_of(row),
                ci / 2,
            ));
            assert(path_directions(row, ci) == seq![ci % 2 == 1] + path_directions(
                parent_row_of(row),
                ci / 2,
            ));
            assert forall|j: int| 0 <= j < siblings@.len() implies #[trigger] views_of(siblings@)[j]
                == (views_of(sibs0) + seq![sv])[j] by {
                assert(views_of(siblings@)[j] == siblings@[j]@);
                if j < sibs0.len() {
                    assert(views_of(sibs0)[j] == sibs0[j]@);
                }
            }
            assert(views_of(siblings@) =~= views_of(sibs0) + seq![sv]);
            assert(views_of(sibs0) + seq![sv] + path_siblings(parent_row_of(row), ci / 2)
                =~= views_of(sibs0) + path_siblings(row, ci));
            assert(dirs0 + seq![ci % 2 == 1] + path_directions(parent_row_of(row), ci / 2)
                =~= dirs0 + path_directions(row, ci));
            assert(directions@ =~= dirs0 + seq![ci % 2 == 1]);
            assert(values_of(current_row@).len() == current_row@.len());
        }
    }
    proof {
        assert(path_siblings(values_of(current_row@), current_index as int)
            =~= Seq::<Seq<char>>::empty());
        assert(path_directions(values_of(current_row@), current_index as int)
            =~= Seq::<bool>::empty());
        assert(views_of(siblings@) + Seq::<Seq<char>>::empty() =~= views_of(siblings@));
        assert(directions@ + Seq::<bool>::empty() =~= directions@);
        assert(ref_tree.leaves_view()[index as int] == ref_tree.leaves@[index as int]@);
    }

    Ok(MerkleProof { element, siblings, directions })
}

/// Verify an inclusion proof against a known root by pure recomputation:
/// hash the claimed element, fold in each sibling on its recorded side, and
/// compare the final digest to the root. A mismatch is reported as `false`,
/// never as an error.
pub fn verify_proof(root: String, proof: &MerkleProof) -> (r: bool)
    ensures
        r == (climb(leaf_hash_of(proof.element@), views_of(proof.siblings@), proof.directions@)
            == root@),
{
    let mut current_hash = hash_leaf(proof.element.as_str());

    let n = if proof.siblings.len() < proof.directions.len() {
        proof.siblings.len()
    } else {
        proof.directions.len()
    };
    let ghost goal = climb(
        leaf_hash_of(proof.element@),
        views_of(proof.siblings@),
        proof.directions@,
    );
    proof {
        assert(views_of(proof.siblings@).skip(0) =~= views_of(proof.siblings@));
        assert(proof.directions@.skip(0) =~= proof.directions@);
    }

    let mut i: usize = 0;
    while i < n
        invariant
            i <= n,
            n == if proof.siblings@.len() < proof.directions@.len() {
                proof.siblings@.len()
            } else {
                proof.directions@.len()
            },
            goal == climb(
                current_hash@,
                views_of(proof.siblings@).skip(i as int),
                proof.directions@.skip(i as int),
            ),
        decreases n - i,
    {
        let is_left_child = proof.directions[i];
        let sibling = &proof.siblings[i];
        let ghost pre = current_hash@;

        current_hash = if is_left_child {
            hash_node(sibling.as_str(), current_hash.as_str())
        } else {
            hash_node(current_hash.as_str(), sibling.as_str())
        };

        proof {
            let sibs = views_of(proof.siblings@);
            let dirs = proof.directions@;
            assert(sibs[i as int] == proof.siblings@[i as int]@);
            assert(sibs.skip(i as int)[0] == sibs[i as int]);
            assert(dirs.skip(i as int)[0] == dirs[i as int]);
            assert(sibs.skip(i as int).drop_first() =~= sibs.skip(i + 1));
            assert(dirs.skip(i as int).drop_first() =~= dirs.skip(i + 1));
        }
        i = i + 1;
    }
    proof {
        let sibs = views_of(proof.siblings@);
        let dirs = proof.directions@;
        assert(sibs.len() == proof.siblings@.len());
        assert(sibs.skip(n as int).len() == 0 || dirs.skip(n as int).len() == 0);
        assert(goal == current_hash@);
    }

    current_hash == root
}

} // verus!
