//! Aggregate proofs: one proof that a contiguous run of elements is present
//! under a root, collecting at most two boundary siblings per level instead
//! of one full sibling path per element.

use vstd::prelude::*;

use crate::hashing::empty_hash;
use crate::hashing::empty_hash_string;
use crate::model::leaf_row_of;
use crate::model::parent_row_of;
use crate::model::row_root_of;
use crate::model::views_of;
use crate::tree::build_leaf_row;
use crate::tree::generate_parent_row;
use crate::tree::values_of;
use crate::tree::MerkleNode;
use crate::tree::MerkleTree;

verus! {

/// A proof that a contiguous run of elements is present under a root: the
/// run itself in tree order, then per level one left-boundary and one
/// right-boundary entry. A boundary entry whose direction flag is set is a
/// sibling hash to fold in; one whose flag is clear is a placeholder (the
/// empty-node hash) kept so the proof stays rectangular.
#[derive(Debug)]
pub struct MerkleAggregateProof {
    pub elements: Vec<String>,
    pub siblings: Vec<String>,
    pub directions: Vec<bool>,
}

/// The boundary entries collected while the inclusive window `[s, e]`
/// climbs from `row` towards the root: per level, the left neighbor's hash
/// when `s` is a right-hand child (else a placeholder), then the right
/// neighbor's hash when `e` is a left-hand child other than the row's last
/// node (else a placeholder). Collection stops once the window spans the
/// whole row.
pub open spec fn range_siblings(row: Seq<Seq<char>>, s: int, e: int) -> Seq<Seq<char>>
    decreases row.len(),
    when 0 <= s <= e < row.len()
{
    if s == 0 && e == row.len() - 1 {
        Seq::<Seq<char>>::empty()
    } else {
        let ls = if s % 2 == 1 {
            row[s - 1]
        } else {
            empty_hash()
        };
        let rs = if e % 2 == 0 && e < row.len() - 1 {
            row[e + 1]
        } else {
            empty_hash()
        };
        seq![ls, rs] + range_siblings(parent_row_of(row), s / 2, e / 2)
    }
}

/// The direction flags matching [`range_siblings`]: per level, whether a
/// left-boundary sibling is present, then whether a right-boundary sibling
/// is present.
pub open spec fn range_directions(row: Seq<Seq<char>>, s: int, e: int) -> Seq<bool>
    decreases row.len(),
    when 0 <= s <= e < row.len()
{
    if s == 0 && e == row.len() - 1 {
        Seq::<bool>::empty()
    } else {
        seq![s % 2 == 1, e % 2 == 0 && e < row.len() - 1] + range_directions(
            parent_row_of(row),
            s / 2,
            e / 2,
        )
    }
}

/// The row a verifier is left with after consuming the boundary entries two
/// per level: the left one is prepended when its flag is set, the right one
/// appended when its flag is set, and the extended row is combined into its
/// parent row. Consumption stops when fewer than two entries remain in
/// either list.
pub open spec fn range_climb(
    row: Seq<Seq<char>>,
    siblings: Seq<Seq<char>>,
    directions: Seq<bool>,
) -> Seq<Seq<char>>
    decreases siblings.len(),
{
    if siblings.len() < 2 || directions.len() < 2 {
        row
    } else {
        let with_left = if directions[0] {
            seq![siblings[0]] + row
        } else {
            row
        };
        let extended = if directions[1] {
            with_left.push(siblings[1])
        } else {
            with_left
        };
        range_climb(parent_row_of(extended), siblings.skip(2), directions.skip(2))
    }
}

/// Generate an aggregate proof for the leaves in `[start_index, end_index)`.
/// The window is tracked by index, never by comparing hash values. The
/// range is rejected with an error unless `start_index < end_index` and
/// `end_index < len(leaves)`: the upper bound is validated as a valid leaf
/// index, so the full-width range is not provable; this convention is
/// checked by the tests.
pub fn get_aggregate_proof(ref_tree: &MerkleTree, start_index: usize, end_index: usize) -> (r:
    Result<MerkleAggregateProof, String>)
    ensures
        r is Ok <==> (start_index < end_index && end_index < ref_tree.leaves@.len()),
        r is Err ==> (r->Err_0)@
            == "Invalid range indices for the target elements. Ensure your start and end both fall within the leaves vector for the given tree."@,
        r is Ok ==> views_of((r->Ok_0).elements@) == ref_tree.leaves_view().subrange(
            start_index as int,
            end_index as int,
        ),
        r is Ok ==> views_of((r->Ok_0).siblings@) == range_siblings(
            leaf_row_of(ref_tree.leaves_view()),
            start_index as int,
            end_index - 1,
        ),
        r is Ok ==> (r->Ok_0).directions@ == range_directions(
            leaf_row_of(ref_tree.leaves_view()),
            start_index as int,
            end_index - 1,
        ),
{
    if start_index >= end_index || end_index >= ref_tree.leaves.len() {
        return Err(
            "Invalid range indices for the target elements. Ensure your start and end both fall within the leaves vector for the given tree.".to_owned(),
        );
    }

    let mut elements: Vec<String> = Vec::new();
    let mut i: usize = start_index;
    while i < end_index
        invariant
            start_index <= i <= end_index,
            end_index < ref_tree.leaves@.len(),
            elements@.len() == i - start_index,
            forall|j: int|
                0 <= j < elements@.len() ==> #[trigger] elements@[j]@ == ref_tree.leaves@[j
                    + start_index]@,
        decreases end_index - i,
    {
        elements.push(ref_tree.leaves[i].clone());
        i = i + 1;
    }
    proof {
        assert forall|j: int| 0 <= j < elements@.len() implies #[trigger] views_of(elements@)[j]
            == ref_tree.leaves_view().subrange(start_index as int, end_index as int)[j] by {
            assert(views_of(elements@)[j] == elements@[j]@);
            assert(ref_tree.leaves_view()[j + start_index] == ref_tree.leaves@[j + start_index]@);
        }
        assert(views_of(elements@) =~= ref_tree.leaves_view().subrange(
            start_index as int,
            end_index as int,
        ));
    }

    let mut siblings: Vec<String> = Vec::new();
    let mut directions: Vec<bool> = Vec::new();

    let ghost row0 = leaf_row_of(ref_tree.leaves_view());
    let ghost s0 = start_index as int;
    let ghost e0 = end_index - 1;
    let mut current_row: Vec<MerkleNode> = build_leaf_row(&ref_tree.leaves);
    let mut current_start: usize = start_index;
    let mut current_end: usize = end_index - 1;

    proof {
        assert(views_of(ref_tree.leaves@).len() == ref_tree.leaves@.len());
        assert(row0.len() == ref_tree.leaves_view().len());
        assert(values_of(current_row@).len() == current_row@.len());
        assert(views_of(siblings@) =~= Seq::<Seq<char>>::empty());
        assert(Seq::<Seq<char>>::empty() + range_siblings(row0, s0, e0) =~= range_siblings(
            row0,
            s0,
            e0,
        ));
        assert(Seq::<bool>::empty() + range_directions(row0, s0, e0) =~= range_directions(
            row0,
            s0,
            e0,
        ));
    }

    while current_start != 0 || current_end != current_row.len() - 1
        invariant
            current_row@.len() >= 1,
            values_of(current_row@).len() == current_row@.len(),
            current_start <= current_end,
            current_end < current_row@.len(),
            range_siblings(row0, s0, e0) == views_of(siblings@) + range_siblings(
                values_of(current_row@),
                current_start as int,
                current_end as int,
            ),
            range_directions(row0, s0, e0) == directions@ + range_directions(
                values_of(current_row@),
                current_start as int,
                current_end as int,
            ),
            siblings@.len() == directions@.len(),
        decreases current_row@.len(),
    {
        let ghost row = values_of(current_row@);
        let ghost cs = current_start as int;
        let ghost ce = current_end as int;
        let ghost sibs0 = siblings@;
        let ghost dirs0 = directions@;

        let start_sibling_is_left_child = current_start % 2 == 1;
        let end_sibling_is_right_child = current_end % 2 == 0 && current_end + 1
            < current_row.len();

        if start_sibling_is_left_child {
            proof {
                assert(values_of(current_row@)[cs - 1] == current_row@[cs - 1].value@);
            }
            siblings.push(current_row[current_start - 1].value.clone());
        } else {
            siblings.push(empty_hash_string());
        }
        directions.push(start_sibling_is_left_child);

        if end_sibling_is_right_child {
            proof {
                assert(values_of(current_row@)[ce + 1] == current_row@[ce + 1].value@);
            }
            siblings.push(current_row[current_end + 1].value.clone());
        } else {
            siblings.push(empty_hash_string());
        }
        directions.push(end_sibling_is_right_child);

        let ghost lsv = if cs % 2 == 1 {
            row[cs - 1]
        } else {
            empty_hash()
        };
        let ghost rsv = if ce % 2 == 0 && ce < row.len() - 1 {
            row[ce + 1]
        } else {
            empty_hash()
        };

        current_row = generate_parent_row(current_row);
        current_start = current_start / 2;
        current_end = current_end / 2;

        proof {
            assert(range_siblings(row, cs, ce) == seq![lsv, rsv] + range_siblings(
                parent_row_of(row),
                cs / 2,
                ce / 2,
            ));
            assert(range_directions(row, cs, ce) == seq![cs % 2 == 1, ce % 2 == 0 && ce < row.len()
                - 1] + range_directions(parent_row_of(row), cs / 2, ce / 2));
            assert forall|j: int| 0 <= j < siblings@.len() implies #[trigger] views_of(siblings@)[j]
                == (views_of(sibs0) + seq![lsv, rsv])[j] by {
                assert(views_of(siblings@)[j] == siblings@[j]@);
                if j < sibs0.len() {
                    assert(views_of(sibs0)[j] == sibs0[j]@);
                }
            }
            assert(views_of(siblings@) =~= views_of(sibs0) + seq![lsv, rsv]);
            assert(views_of(sibs0) + seq![lsv, rsv] + range_siblings(parent_row_of(row), cs / 2, ce
                / 2) =~= views_of(sibs0) + range_siblings(row, cs, ce));
            assert(directions@ =~= dirs0 + seq![cs % 2 == 1, ce % 2 == 0 && ce < row.len() - 1]);
            assert(dirs0 + seq![cs % 2 == 1, ce % 2 == 0 && ce < row.len() - 1] + range_directions(
                parent_row_of(row),
                cs / 2,
                ce / 2,
            ) =~= dirs0 + range_directions(row, cs, ce));
            assert(values_of(current_row@).len() == current_row@.len());
        }
    }
    proof {
        assert(range_siblings(values_of(current_row@), current_start as int, current_end as int)
            =~= Seq::<Seq<char>>::empty());
        assert(range_directions(values_of(current_row@), current_start as int, current_end as int)
            =~= Seq::<bool>::empty());
        assert(views_of(siblings@) + Seq::<Seq<char>>::empty() =~= views_of(siblings@));
        assert(directions@ + Seq::<bool>::empty() =~= directions@);
    }

    Ok(MerkleAggregateProof { elements, siblings, directions })
}

/// Verify an aggregate proof against a known root by pure recomputation:
/// hash the run of elements into a leaf row, replay the recorded boundary
/// entries two per level while combining rows pairwise, finish combining
/// until one digest remains, and compare it to the root. A mismatch is
/// reported as `false`, never as an error.
pub fn verify_aggregate_proof(root: String, proof: &MerkleAggregateProof) -> (r: bool)
    ensures
        r == ({
            let final_row = range_climb(
                leaf_row_of(views_of(proof.elements@)),
                views_of(proof.siblings@),
                proof.directions@,
            );
            final_row.len() > 0 && row_root_of(final_row) == root@
        }),
{
    let mut current_row: Vec<MerkleNode> = build_leaf_row(&proof.elements);

    let n = if proof.siblings.len() < proof.directions.len() {
        proof.siblings.len()
    } else {
        proof.directions.len()
    };
    let ghost frow = range_climb(
        leaf_row_of(views_of(proof.elements@)),
        views_of(proof.siblings@),
        proof.directions@,
    );
    proof {
        assert(views_of(proof.siblings@).skip(0) =~= views_of(proof.siblings@));
        assert(proof.directions@.skip(0) =~= proof.directions@);
        assert(values_of(current_row@).len() == current_row@.len());
    }

    let mut i: usize = 0;
    while n - i > 1
        invariant
            i <= n,
            n == if proof.siblings@.len() < proof.directions@.len() {
                proof.siblings@.len()
            } else {
                proof.directions@.len()
            },
            values_of(current_row@).len() == current_row@.len(),
            frow == range_climb(
                values_of(current_row@),
                views_of(proof.siblings@).skip(i as int),
                proof.directions@.skip(i as int),
            ),
        decreases n - i,
    {
        let ghost row = values_of(current_row@);
        let ghost sibs = views_of(proof.siblings@);
        let ghost dirs = proof.directions@;

        let start_is_left_child = proof.directions[i];
        let end_is_right_child = proof.directions[i + 1];

        if start_is_left_child {
            let node = MerkleNode { value: proof.siblings[i].clone(), left: None, right: None };
            current_row.insert(0, node);
        }
        let ghost with_left = values_of(current_row@);
        if end_is_right_child {
            let node = MerkleNode { value: proof.siblings[i + 1].clone(), left: None, right: None };
            current_row.push(node);
        }
        let ghost extended = values_of(current_row@);

        proof {
            assert(sibs[i as int] == proof.siblings@[i as int]@);
            assert(sibs[i + 1] == proof.siblings@[i + 1]@);
            assert(sibs.skip(i as int)[0] == sibs[i as int]);
            assert(sibs.skip(i as int)[1] == sibs[i + 1]);
            assert(dirs.skip(i as int)[0] == dirs[i as int]);
            assert(dirs.skip(i as int)[1] == dirs[i + 1]);
            if dirs[i as int] {
                assert(with_left =~= seq![sibs[i as int]] + row);
            } else {
                assert(with_left =~= row);
            }
            if dirs[i + 1] {
                assert(extended =~= with_left.push(sibs[i + 1]));
            } else {
                assert(extended =~= with_left);
            }
            assert(sibs.skip(i as int).skip(2) =~= sibs.skip(i + 2));
            assert(dirs.skip(i as int).skip(2) =~= dirs.skip(i + 2));
        }

        current_row = generate_parent_row(current_row);
        i = i + 2;

        proof {
            assert(values_of(current_row@) == parent_row_of(extended));
            assert(values_of(current_row@).len() == current_row@.len());
        }
    }
    proof {
        let sibs = views_of(proof.siblings@);
        let dirs = proof.directions@;
        assert(sibs.len() == proof.siblings@.len());
        assert(sibs.skip(i as int).len() < 2 || dirs.skip(i as int).len() < 2);
        assert(frow == values_of(current_row@));
    }

    if current_row.len() == 0 {
        return false;
    }

    while current_row.len() > 1
        invariant
            current_row@.len() >= 1,
            values_of(current_row@).len() == current_row@.len(),
            row_root_of(values_of(current_row@)) == row_root_of(frow),
            frow.len() > 0,
        decreases current_row@.len(),
    {
        let ghost before = values_of(current_row@);
        current_row = generate_parent_row(current_row);
        proof {
            assert(row_root_of(before) == row_root_of(parent_row_of(before)));
            assert(values_of(current_row@).len() == current_row@.len());
        }
    }

    proof {
        assert(values_of(current_row@)[0] == current_row@[0].value@);
        assert(row_root_of(values_of(current_row@)) == values_of(current_row@)[0]);
    }
    let root_node = &current_row[0];
    root_node.value == root
}

} // verus!
