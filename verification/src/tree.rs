//! Building a tree from an ordered list of elements, reading its root, and
//! deriving a new tree with one element inserted.

use vstd::prelude::*;

use crate::hashing::empty_hash;
use crate::hashing::empty_hash_string;
use crate::hashing::hash_leaf;
use crate::hashing::hash_node;
use crate::hashing::leaf_hash_of;
use crate::hashing::node_hash_of;
use crate::model::leaf_row_of;
use crate::model::merkle_root_of;
use crate::model::padded_elements;
use crate::model::parent_row_of;
use crate::model::row_root_of;
use crate::model::strip_empty;
use crate::model::views_of;

verus! {

/// One node of the binary hash tree: a digest and exclusively owned
/// children. A leaf has no children; an internal node hashes its two
/// children's digests.
#[derive(Debug)]
pub struct MerkleNode {
    pub value: String,
    pub left: Option<Box<MerkleNode>>,
    pub right: Option<Box<MerkleNode>>,
}

/// The digests carried by a row of nodes.
pub open spec fn values_of(nodes: Seq<MerkleNode>) -> Seq<Seq<char>> {
    nodes.map_values(|n: MerkleNode| n.value@)
}

impl MerkleNode {
    /// A leaf node for one element: the element's leaf hash, no children.
    pub fn from_element(value: &str) -> (node: MerkleNode)
        ensures
            node.value@ == leaf_hash_of(value@),
            node.left is None,
            node.right is None,
    {
        MerkleNode { value: hash_leaf(value), left: None, right: None }
    }
}

/// The synthetic node paired with an unpaired last node of an odd-length
/// row: the hash of the empty string, no children.
fn empty_node() -> (node: MerkleNode)
    ensures
        node.value@ == empty_hash(),
        node.left is None,
        node.right is None,
{
    MerkleNode { value: empty_hash_string(), left: None, right: None }
}

/// Combine two sibling nodes into their parent, which exclusively owns
/// them: the left and right children of the result are exactly the two
/// nodes given.
fn generate_parent(left: MerkleNode, right: MerkleNode) -> (parent: MerkleNode)
    ensures
        parent.value@ == node_hash_of(left.value@, right.value@),
        parent.left is Some && parent.left->Some_0 == left,
        parent.right is Some && parent.right->Some_0 == right,
{
    let value = hash_node(left.value.as_str(), right.value.as_str());
    MerkleNode { value, left: Some(Box::new(left)), right: Some(Box::new(right)) }
}

/// Replace a row by its parent row: consecutive non-overlapping pairs are
/// combined, and an unpaired last node is paired with the empty node.
pub(crate) fn generate_parent_row(nodes: Vec<MerkleNode>) -> (parents: Vec<MerkleNode>)
    ensures
        values_of(parents@) == parent_row_of(values_of(nodes@)),
{
    let ghost orig = values_of(nodes@);
    let mut nodes = nodes;
    let mut parents: Vec<MerkleNode> = Vec::new();
    while nodes.len() >= 2
        invariant
            values_of(nodes@) =~= orig.subrange(2 * parents@.len() as int, orig.len() as int),
            values_of(parents@) =~= parent_row_of(orig).subrange(0, parents@.len() as int),
            2 * parents@.len() + nodes@.len() == orig.len(),
        decreases nodes@.len(),
    {
        let ghost k = parents@.len() as int;
        let ghost pre = nodes@;
        proof {
            assert(values_of(pre).len() == pre.len());
            assert(values_of(pre)[0] == pre[0].value@);
            assert(values_of(pre)[1] == pre[1].value@);
            assert(values_of(pre)[0] == orig[2 * k] && values_of(pre)[1] == orig[2 * k + 1]);
        }
        let left = nodes.remove(0);
        let right = nodes.remove(0);
        let parent = generate_parent(left, right);
        parents.push(parent);
        proof {
            assert(0 <= k < parent_row_of(orig).len());
            assert(parent_row_of(orig)[k] == node_hash_of(orig[2 * k], orig[2 * k + 1]));
            assert(parent.value@ == parent_row_of(orig)[k]);
            assert forall|j: int| 0 <= j < k + 1 implies values_of(parents@)[j] == parent_row_of(
                orig,
            ).subrange(0, k + 1)[j] by {
                assert(values_of(parents@)[j] == parents@[j].value@);
            }
            assert(values_of(parents@) =~= parent_row_of(orig).subrange(0, k + 1));
            assert forall|j: int| 0 <= j < nodes@.len() implies values_of(nodes@)[j]
                == orig.subrange(2 * (k + 1), orig.len() as int)[j] by {
                assert(values_of(nodes@)[j] == nodes@[j].value@);
                assert(nodes@[j] == pre[j + 2]);
                assert(values_of(pre)[j + 2] == pre[j + 2].value@);
            }
            assert(values_of(nodes@) =~= orig.subrange(2 * (k + 1), orig.len() as int));
        }
    }
    let ghost k = parents@.len() as int;
    if nodes.len() == 1 {
        proof {
            assert(values_of(nodes@).len() == nodes@.len());
            assert(values_of(nodes@)[0] == nodes@[0].value@);
            assert(nodes@[0].value@ == orig[2 * k]);
            assert(orig.len() == 2 * k + 1);
        }
        let last = nodes.pop().unwrap();
        let parent = generate_parent(last, empty_node());
        parents.push(parent);
        proof {
            assert(0 <= k < parent_row_of(orig).len());
            assert(parent_row_of(orig)[k] == node_hash_of(orig[2 * k], empty_hash()));
            assert forall|j: int| 0 <= j < k + 1 implies values_of(parents@)[j] == parent_row_of(
                orig,
            )[j] by {
                assert(values_of(parents@)[j] == parents@[j].value@);
                if j < k {
                    assert(parent_row_of(orig).subrange(0, k)[j] == parent_row_of(orig)[j]);
                }
            }
            assert(values_of(parents@) =~= parent_row_of(orig));
        }
    } else {
        proof {
            assert(values_of(nodes@).len() == nodes@.len());
            assert(orig.len() == 2 * k);
            assert(values_of(parents@) =~= parent_row_of(orig));
        }
    }
    parents
}

/// A built tree: the (possibly leaf-padded) element sequence and the single
/// root hash. Intermediate rows are not retained; proof generation re-derives
/// them from the leaves.
#[derive(Debug)]
pub struct MerkleTree {
    pub leaves: Vec<String>,
    pub root_hash: String,
}

impl MerkleTree {
    /// The stored leaf elements, as a sequence of character sequences.
    pub open spec fn leaves_view(self) -> Seq<Seq<char>> {
        views_of(self.leaves@)
    }

    /// A tree is well formed when its leaves were padded to even length and
    /// its root hash is the pairwise combination of the hashed leaf row.
    pub open spec fn wf(self) -> bool {
        &&& self.leaves@.len() >= 2
        &&& self.leaves@.len() % 2 == 0
        &&& self.root_hash@ == row_root_of(leaf_row_of(self.leaves_view()))
    }
}

/// Pad the element list to even length with one empty-string sentinel.
fn leaf_pairwise_check(leaves: &mut Vec<String>)
    ensures
        views_of(final(leaves)@) == padded_elements(views_of(old(leaves)@)),
        final(leaves)@.len() % 2 == 0,
        final(leaves)@.len() >= old(leaves)@.len(),
{
    if leaves.len() % 2 == 1 {
        leaves.push(String::new());
    }
    proof {
        let ghost pre = old(leaves)@;
        assert forall|j: int|
            0 <= j < leaves@.len() implies #[trigger] views_of(leaves@)[j] == padded_elements(
            views_of(pre),
        )[j] by {
            assert(views_of(leaves@)[j] == leaves@[j]@);
            if j < pre.len() {
                assert(views_of(pre)[j] == pre[j]@);
            }
        }
        assert(views_of(leaves@) =~= padded_elements(views_of(pre)));
    }
}

/// Hash every element into a leaf node.
pub(crate) fn build_leaf_row(leaves: &Vec<String>) -> (row: Vec<MerkleNode>)
    ensures
        values_of(row@) == leaf_row_of(views_of(leaves@)),
{
    let mut row: Vec<MerkleNode> = Vec::new();
    let mut i: usize = 0;
    while i < leaves.len()
        invariant
            i <= leaves@.len(),
            row@.len() == i,
            forall|j: int|
                0 <= j < i ==> #[trigger] row@[j].value@ == leaf_hash_of(leaves@[j]@),
        decreases leaves@.len() - i,
    {
        row.push(MerkleNode::from_element(leaves[i].as_str()));
        i = i + 1;
    }
    proof {
        assert forall|j: int| 0 <= j < row@.len() implies values_of(row@)[j] == leaf_row_of(
            views_of(leaves@),
        )[j] by {
            assert(values_of(row@)[j] == row@[j].value@);
            assert(views_of(leaves@)[j] == leaves@[j]@);
            assert(leaf_row_of(views_of(leaves@))[j] == leaf_hash_of(views_of(leaves@)[j]));
        }
        assert(values_of(row@) =~= leaf_row_of(views_of(leaves@)));
    }
    row
}

/// Build a Merkle tree from a list of elements: copy and pad the list, hash
/// every element into a leaf node, then combine rows pairwise until a single
/// node — the root — remains. A tree cannot be built from zero elements;
/// that input is rejected with an error.
pub fn create_merkle_tree(elements: &Vec<String>) -> (r: Result<MerkleTree, String>)
    ensures
        r is Ok <==> elements@.len() > 0,
        r is Err ==> (r->Err_0)@ == "cannot build a tree with zero elements"@,
        r is Ok ==> (r->Ok_0).wf(),
        r is Ok ==> (r->Ok_0).leaves_view() == padded_elements(views_of(elements@)),
        r is Ok ==> (r->Ok_0).root_hash@ == merkle_root_of(views_of(elements@)),
{
    if elements.is_empty() {
        return Err("cannot build a tree with zero elements".to_owned());
    }
    let mut leaves: Vec<String> = Vec::new();
    let mut i: usize = 0;
    while i < elements.len()
        invariant
            i <= elements@.len(),
            leaves@.len() == i,
            forall|j: int| 0 <= j < i ==> #[trigger] leaves@[j]@ == elements@[j]@,
        decreases elements@.len() - i,
    {
        leaves.push(elements[i].clone());
        i = i + 1;
    }
    proof {
        assert forall|j: int| 0 <= j < leaves@.len() implies views_of(leaves@)[j] == views_of(
            elements@,
        )[j] by {
            assert(views_of(leaves@)[j] == leaves@[j]@);
            assert(views_of(elements@)[j] == elements@[j]@);
        }
        assert(views_of(leaves@) =~= views_of(elements@));
    }

    leaf_pairwise_check(&mut leaves);

    let mut nodes: Vec<MerkleNode> = build_leaf_row(&leaves);
    let ghost row0 = values_of(nodes@);
    proof {
        assert(views_of(leaves@).len() == leaves@.len());
        assert(leaf_row_of(views_of(leaves@)).len() == views_of(leaves@).len());
        assert(values_of(nodes@).len() == nodes@.len());
    }

    while nodes.len() > 1
        invariant
            nodes@.len() >= 1,
            values_of(nodes@).len() == nodes@.len(),
            row_root_of(values_of(nodes@)) == row_root_of(row0),
        decreases nodes@.len(),
    {
        let ghost before = values_of(nodes@);
        nodes = generate_parent_row(nodes);
        proof {
            assert(row_root_of(before) == row_root_of(parent_row_of(before)));
            assert(values_of(nodes@).len() == nodes@.len());
        }
    }

    proof {
        assert(values_of(nodes@)[0] == nodes@[0].value@);
        assert(row_root_of(values_of(nodes@)) == values_of(nodes@)[0]);
    }
    let root_hash = nodes[0].value.clone();

    Ok(MerkleTree { leaves, root_hash })
}

/// Derive a new tree with `element` inserted at `index`. Every empty
/// element is removed from the tree's leaves first — the stored sequence
/// cannot tell a padding sentinel from a caller-supplied empty string, so
/// all of them go; `element` is then inserted at `index` into that stripped
/// sequence, and a brand-new tree is built from the result; nothing is
/// patched in place. `index` is interpreted against the stripped sequence,
/// and an index at or past its length is rejected with an error.
pub fn update_element(tree: MerkleTree, index: usize, element: &str) -> (r: Result<
    MerkleTree,
    String,
>)
    ensures
        r is Ok <==> index < strip_empty(tree.leaves_view()).len(),
        r is Err ==> (r->Err_0)@ == "Index of the target element is out of bounds for this tree"@,
        r is Ok ==> (r->Ok_0).wf(),
        r is Ok ==> (r->Ok_0).leaves_view() == padded_elements(
            strip_empty(tree.leaves_view()).insert(index as int, element@),
        ),
        r is Ok ==> (r->Ok_0).root_hash@ == merkle_root_of(
            strip_empty(tree.leaves_view()).insert(index as int, element@),
        ),
{
    let ghost all = tree.leaves_view();
    let mut elements: Vec<String> = Vec::new();
    let mut i: usize = 0;
    while i < tree.leaves.len()
        invariant
            i <= tree.leaves@.len(),
            all == tree.leaves_view(),
            views_of(elements@) == strip_empty(all.subrange(0, i as int)),
        decreases tree.leaves@.len() - i,
    {
        let ghost p_cur = all.subrange(0, i as int);
        let ghost p_next = all.subrange(0, i + 1);
        proof {
            reveal(Seq::filter);
            assert(p_next.drop_last() =~= p_cur);
            assert(p_next.last() == all[i as int]);
            assert(all[i as int] == tree.leaves@[i as int]@);
        }
        if !tree.leaves[i].as_str().is_empty() {
            elements.push(tree.leaves[i].clone());
            proof {
                assert(views_of(elements@) =~= strip_empty(p_cur).push(all[i as int]));
                assert(strip_empty(p_next) == strip_empty(p_cur).push(all[i as int]));
            }
        } else {
            proof {
                assert(strip_empty(p_next) == strip_empty(p_cur));
            }
        }
        i = i + 1;
    }
    proof {
        assert(all.subrange(0, all.len() as int) =~= all);
        assert(views_of(elements@) == strip_empty(all));
        assert(views_of(elements@).len() == elements@.len());
    }

    if index >= elements.len() {
        return Err("Index of the target element is out of bounds for this tree".to_owned());
    }

    elements.insert(index, element.to_owned());
    proof {
        assert forall|j: int|
            0 <= j < elements@.len() implies #[trigger] views_of(elements@)[j] == strip_empty(
            all,
        ).insert(index as int, element@)[j] by {
            assert(views_of(elements@)[j] == elements@[j]@);
        }
        assert(views_of(elements@) =~= strip_empty(all).insert(index as int, element@));
    }
    create_merkle_tree(&elements)
}

/// Return the root hash of the tree.
pub fn get_root(ref_tree: &MerkleTree) -> (r: String)
    ensures
        r == ref_tree.root_hash,
{
    ref_tree.root_hash.clone()
}

} // verus!
