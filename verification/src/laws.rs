//! The laws the library guarantees, each proved against the contracts of
//! the executable functions: an inclusion proof generated for a valid index
//! verifies against the tree's root; verification fails under any other
//! root; the root is a pure function of the leaves; an updated tree proves
//! its new element; and an aggregate proof verifies and stays small.

use vstd::prelude::*;

use crate::aggregate::range_climb;
use crate::aggregate::range_directions;
use crate::aggregate::range_siblings;
use crate::hashing::empty_hash;
use crate::hashing::leaf_hash_of;
use crate::hashing::node_hash_of;
use crate::model::height_of;
use crate::model::leaf_row_of;
use crate::model::merkle_root_of;
use crate::model::padded_elements;
use crate::model::parent_row_of;
use crate::model::row_root_of;
use crate::model::strip_empty;
use crate::proofs::climb;
use crate::proofs::path_directions;
use crate::proofs::path_siblings;
use crate::proofs::sibling_in_row;
use crate::tree::MerkleTree;

verus! {

/// Climbing the recorded sibling path from the node at `idx` of any row
/// reproduces that row's root.
proof fn lemma_climb_path(row: Seq<Seq<char>>, idx: int)
    requires
        row.len() >= 1,
        0 <= idx < row.len(),
    ensures
        climb(row[idx], path_siblings(row, idx), path_directions(row, idx)) == row_root_of(row),
    decreases row.len(),
{
    if row.len() <= 1 {
        assert(path_siblings(row, idx) =~= Seq::<Seq<char>>::empty());
        assert(path_directions(row, idx) =~= Seq::<bool>::empty());
    } else {
        let parent = parent_row_of(row);
        let sib = sibling_in_row(row, idx);
        let sibs = path_siblings(row, idx);
        let dirs = path_directions(row, idx);
        assert(sibs == seq![sib] + path_siblings(parent, idx / 2));
        assert(dirs == seq![idx % 2 == 1] + path_directions(parent, idx / 2));
        assert(sibs[0] == sib && dirs[0] == (idx % 2 == 1));
        assert(sibs.drop_first() =~= path_siblings(parent, idx / 2));
        assert(dirs.drop_first() =~= path_directions(parent, idx / 2));

        let next = if idx % 2 == 1 {
            node_hash_of(sib, row[idx])
        } else {
            node_hash_of(row[idx], sib)
        };
        if idx % 2 == 1 {
            assert(2 * (idx / 2) == idx - 1);
            assert(parent[idx / 2] == node_hash_of(row[idx - 1], row[idx]));
        } else {
            assert(2 * (idx / 2) == idx);
            if idx + 1 < row.len() {
                assert(parent[idx / 2] == node_hash_of(row[idx], row[idx + 1]));
            } else {
                assert(parent[idx / 2] == node_hash_of(row[idx], empty_hash()));
            }
        }
        assert(next == parent[idx / 2]);
        assert(climb(row[idx], sibs, dirs) == climb(
            next,
            path_siblings(parent, idx / 2),
            path_directions(parent, idx / 2),
        ));
        lemma_climb_path(parent, idx / 2);
        assert(row_root_of(row) == row_root_of(parent));
    }
}

/// For every non-empty element sequence and every valid index of the built
/// tree, the generated inclusion proof recombines to exactly the built
/// root, so verification accepts it.
pub proof fn lemma_inclusion_proof_verifies(elements: Seq<Seq<char>>, index: int)
    requires
        elements.len() >= 1,
        0 <= index < padded_elements(elements).len(),
    ensures
        climb(
            leaf_hash_of(padded_elements(elements)[index]),
            path_siblings(leaf_row_of(padded_elements(elements)), index),
            path_directions(leaf_row_of(padded_elements(elements)), index),
        ) == merkle_root_of(elements),
{
    let padded = padded_elements(elements);
    let row = leaf_row_of(padded);
    assert(row.len() == padded.len());
    assert(row[index] == leaf_hash_of(padded[index]));
    lemma_climb_path(row, index);
}

/// A proof that recombines to one root is rejected under any different
/// claimed root — in particular under a root with any single bit flipped,
/// which is a different string.
pub proof fn lemma_verify_needs_matching_root(
    element: Seq<char>,
    siblings: Seq<Seq<char>>,
    directions: Seq<bool>,
    root: Seq<char>,
    claimed: Seq<char>,
)
    requires
        climb(leaf_hash_of(element), siblings, directions) == root,
        claimed != root,
    ensures
        climb(leaf_hash_of(element), siblings, directions) != claimed,
{
}

/// Building is deterministic: two well-formed trees over the same leaf
/// sequence carry the same root hash.
pub proof fn lemma_build_deterministic(t1: MerkleTree, t2: MerkleTree)
    requires
        t1.wf(),
        t2.wf(),
        t1.leaves_view() == t2.leaves_view(),
    ensures
        t1.root_hash@ == t2.root_hash@,
{
}

/// After an update at a valid index, that index is valid in the new tree,
/// it holds the new element, and the inclusion proof generated there
/// recombines to the new tree's root.
pub proof fn lemma_update_then_prove(leaves: Seq<Seq<char>>, index: int, element: Seq<char>)
    requires
        0 <= index < strip_empty(leaves).len(),
    ensures
        ({
            let updated = strip_empty(leaves).insert(index, element);
            &&& index < padded_elements(updated).len()
            &&& padded_elements(updated)[index] == element
            &&& climb(
                leaf_hash_of(element),
                path_siblings(leaf_row_of(padded_elements(updated)), index),
                path_directions(leaf_row_of(padded_elements(updated)), index),
            ) == merkle_root_of(updated)
        }),
{
    let updated = strip_empty(leaves).insert(index, element);
    assert(updated.len() == strip_empty(leaves).len() + 1);
    assert(updated[index] == element);
    assert(padded_elements(updated)[index] == element);
    lemma_inclusion_proof_verifies(updated, index);
}

/// Combining an evenly aligned slice of a row gives exactly the matching
/// slice of the combined row.
proof fn lemma_parent_of_aligned_slice(row: Seq<Seq<char>>, s: int, e: int)
    requires
        0 <= s <= e < row.len(),
        s % 2 == 0,
        e % 2 == 1 || e == row.len() - 1,
    ensures
        parent_row_of(row.subrange(s, e + 1)) == parent_row_of(row).subrange(s / 2, e / 2 + 1),
{
    let sub = row.subrange(s, e + 1);
    let lhs = parent_row_of(sub);
    let rhs = parent_row_of(row).subrange(s / 2, e / 2 + 1);
    let u = s / 2;
    let v = e / 2;
    assert(s == 2 * u);
    assert(e == 2 * v || e == 2 * v + 1);
    assert(sub.len() == e + 1 - s);
    assert(lhs.len() == (sub.len() + 1) / 2);
    assert(lhs.len() == v + 1 - u);
    assert(v < (row.len() + 1) / 2);
    assert(rhs.len() == v + 1 - u);
    assert forall|k: int| 0 <= k < lhs.len() implies lhs[k] == rhs[k] by {
        assert(sub[2 * k] == row[s + 2 * k]);
        assert(rhs[k] == parent_row_of(row)[u + k]);
        assert(2 * (u + k) == s + 2 * k);
        if 2 * k + 1 < sub.len() {
            assert(sub[2 * k + 1] == row[s + 2 * k + 1]);
            assert(s + 2 * k + 1 < row.len());
            assert(lhs[k] == node_hash_of(row[s + 2 * k], row[s + 2 * k + 1]));
            assert(rhs[k] == node_hash_of(row[s + 2 * k], row[s + 2 * k + 1]));
        } else {
            assert(2 * k == sub.len() - 1);
            assert(s + 2 * k == e);
            assert(e % 2 == 0);
            assert(e == row.len() - 1);
            assert(lhs[k] == node_hash_of(row[e], empty_hash()));
            assert(rhs[k] == node_hash_of(row[e], empty_hash()));
        }
    }
    assert(lhs =~= rhs);
}

/// Replaying the boundary entries collected for the inclusive window
/// `[s, e]` of a row, starting from that window's slice, ends in a row
/// whose combined root is the full row's root.
proof fn lemma_range_climb_reaches_root(row: Seq<Seq<char>>, s: int, e: int)
    requires
        row.len() >= 1,
        0 <= s <= e < row.len(),
    ensures
        ({
            let fr = range_climb(
                row.subrange(s, e + 1),
                range_siblings(row, s, e),
                range_directions(row, s, e),
            );
            fr.len() > 0 && row_root_of(fr) == row_root_of(row)
        }),
    decreases row.len(),
{
    let sub = row.subrange(s, e + 1);
    let sibs = range_siblings(row, s, e);
    let dirs = range_directions(row, s, e);
    if s == 0 && e == row.len() - 1 {
        assert(sibs =~= Seq::<Seq<char>>::empty());
        assert(range_climb(sub, sibs, dirs) == sub);
        assert(sub =~= row);
    } else {
        assert(row.len() >= 2);
        let parent = parent_row_of(row);
        let ls = if s % 2 == 1 {
            row[s - 1]
        } else {
            empty_hash()
        };
        let rs = if e % 2 == 0 && e < row.len() - 1 {
            row[e + 1]
        } else {
            empty_hash()
        };
        assert(sibs == seq![ls, rs] + range_siblings(parent, s / 2, e / 2));
        assert(dirs == seq![s % 2 == 1, e % 2 == 0 && e < row.len() - 1] + range_directions(
            parent,
            s / 2,
            e / 2,
        ));
        assert(sibs[0] == ls && sibs[1] == rs);
        assert(dirs[0] == (s % 2 == 1) && dirs[1] == (e % 2 == 0 && e < row.len() - 1));
        assert(sibs.skip(2) =~= range_siblings(parent, s / 2, e / 2));
        assert(dirs.skip(2) =~= range_directions(parent, s / 2, e / 2));

        let s2 = if s % 2 == 1 {
            s - 1
        } else {
            s
        };
        let e2 = if e % 2 == 0 && e < row.len() - 1 {
            e + 1
        } else {
            e
        };
        let with_left = if dirs[0] {
            seq![sibs[0]] + sub
        } else {
            sub
        };
        let extended = if dirs[1] {
            with_left.push(sibs[1])
        } else {
            with_left
        };
        assert(with_left =~= row.subrange(s2, e + 1));
        assert(extended =~= row.subrange(s2, e2 + 1));
        assert(s2 % 2 == 0);
        assert(e2 % 2 == 1 || e2 == row.len() - 1);
        lemma_parent_of_aligned_slice(row, s2, e2);
        assert(s2 / 2 == s / 2);
        assert(e2 / 2 == e / 2);
        assert(range_climb(sub, sibs, dirs) == range_climb(
            parent_row_of(extended),
            sibs.skip(2),
            dirs.skip(2),
        ));
        assert(parent_row_of(extended) == parent.subrange(s / 2, e / 2 + 1));
        lemma_range_climb_reaches_root(parent, s / 2, e / 2);
        assert(row_root_of(parent) == row_root_of(row));
    }
}

/// For every valid half-open range of the built tree, the generated
/// aggregate proof replays to exactly the built root, so verification
/// accepts it.
pub proof fn lemma_aggregate_proof_verifies(elements: Seq<Seq<char>>, start: int, end: int)
    requires
        elements.len() >= 1,
        0 <= start < end,
        end < padded_elements(elements).len(),
    ensures
        ({
            let row = leaf_row_of(padded_elements(elements));
            let fr = range_climb(
                leaf_row_of(padded_elements(elements).subrange(start, end)),
                range_siblings(row, start, end - 1),
                range_directions(row, start, end - 1),
            );
            fr.len() > 0 && row_root_of(fr) == merkle_root_of(elements)
        }),
{
    let padded = padded_elements(elements);
    let row = leaf_row_of(padded);
    assert forall|j: int|
        0 <= j < end - start implies #[trigger] leaf_row_of(padded.subrange(start, end))[j]
        == row.subrange(start, end)[j] by {
        assert(leaf_row_of(padded.subrange(start, end))[j] == leaf_hash_of(
            padded.subrange(start, end)[j],
        ));
        assert(row[start + j] == leaf_hash_of(padded[start + j]));
    }
    assert(leaf_row_of(padded.subrange(start, end)) =~= row.subrange(start, (end - 1) + 1));
    lemma_range_climb_reaches_root(row, start, end - 1);
}

/// An inclusion proof carries exactly one sibling per level of the row it
/// was generated from.
pub proof fn lemma_path_siblings_len(row: Seq<Seq<char>>, idx: int)
    ensures
        path_siblings(row, idx).len() == height_of(row.len()),
    decreases row.len(),
{
    if row.len() <= 1 {
    } else {
        lemma_path_siblings_len(parent_row_of(row), idx / 2);
    }
}

/// An aggregate proof records at most two boundary entries per level.
proof fn lemma_range_siblings_len(row: Seq<Seq<char>>, s: int, e: int)
    requires
        0 <= s <= e < row.len(),
    ensures
        range_siblings(row, s, e).len() <= 2 * height_of(row.len()),
    decreases row.len(),
{
    if s == 0 && e == row.len() - 1 {
        assert(range_siblings(row, s, e) =~= Seq::<Seq<char>>::empty());
    } else {
        lemma_range_siblings_len(parent_row_of(row), s / 2, e / 2);
    }
}

/// An aggregate proof over a run of at least two leaves carries no more
/// sibling hashes than the run's per-element inclusion proofs together.
pub proof fn lemma_aggregate_proof_no_larger(row: Seq<Seq<char>>, start: int, end: int)
    requires
        0 <= start,
        start + 2 <= end,
        end - 1 < row.len(),
    ensures
        range_siblings(row, start, end - 1).len() <= (end - start) * height_of(row.len()),
{
    lemma_range_siblings_len(row, start, end - 1);
    assert(2 * height_of(row.len()) <= (end - start) * height_of(row.len()))
        by (nonlinear_arith)
        requires
            end - start >= 2,
            height_of(row.len()) >= 0,
    ;
}

} // verus!
