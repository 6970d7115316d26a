//! The mathematical model of the tree: rows of digests, pairwise combination,
//! and the root as a pure function of the element sequence.
//!
//! Elements and digests are modelled as `Seq<char>`; a row is a `Seq` of
//! digests. Every executable function's contract is stated over this model.

use vstd::prelude::*;

use crate::hashing::empty_hash;
use crate::hashing::leaf_hash_of;
use crate::hashing::node_hash_of;

verus! {

/// The views of a vector of strings, as a sequence of character sequences.
pub open spec fn views_of(ss: Seq<String>) -> Seq<Seq<char>> {
    ss.map_values(|s: String| s@)
}

/// The element sequence padded to even length: an odd count gets one
/// empty-string sentinel appended; this is the only place padding is
/// injected at the leaf level.
pub open spec fn padded_elements(es: Seq<Seq<char>>) -> Seq<Seq<char>> {
    if es.len() % 2 == 1 {
        es.push(Seq::<char>::empty())
    } else {
        es
    }
}

/// The leaf row: every element hashed with the leaf hash.
pub open spec fn leaf_row_of(es: Seq<Seq<char>>) -> Seq<Seq<char>> {
    es.map_values(|e: Seq<char>| leaf_hash_of(e))
}

/// One level of pairwise combination: consecutive non-overlapping pairs are
/// hashed into parents; an unpaired node left at the end of an odd-length
/// row is paired with the empty node instead.
pub open spec fn parent_row_of(row: Seq<Seq<char>>) -> Seq<Seq<char>> {
    Seq::new((row.len() + 1) / 2, |i: int|
        if 2 * i + 1 < row.len() {
            node_hash_of(row[2 * i], row[2 * i + 1])
        } else {
            node_hash_of(row[2 * i], empty_hash())
        })
}

/// The digest left when a row is combined level by level until one node
/// remains.
pub open spec fn row_root_of(row: Seq<Seq<char>>) -> Seq<char>
    recommends
        row.len() >= 1,
    decreases row.len(),
{
    if row.len() <= 1 {
        row[0]
    } else {
        row_root_of(parent_row_of(row))
    }
}

/// The number of combination levels above a row of `n` nodes.
pub open spec fn height_of(n: nat) -> nat
    decreases n,
{
    if n <= 1 {
        0
    } else {
        1 + height_of((n + 1) / 2)
    }
}

/// The root hash committed to by an element sequence: pad, hash the leaves,
/// then combine pairwise until a single digest remains.
pub open spec fn merkle_root_of(es: Seq<Seq<char>>) -> Seq<char>
    recommends
        es.len() >= 1,
{
    row_root_of(leaf_row_of(padded_elements(es)))
}

/// The element sequence with the empty-string padding sentinels removed.
pub open spec fn strip_empty(es: Seq<Seq<char>>) -> Seq<Seq<char>> {
    es.filter(|e: Seq<char>| e.len() > 0)
}

} // verus!
