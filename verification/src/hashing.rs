//! The digest used throughout the tree: SHA-256, encoded as a fixed-length
//! lowercase hexadecimal string.
//!
//! Digests are modelled by the uninterpreted function [`sha256_hex_of`]; leaf
//! and internal-node hashing are both defined in terms of it.

use vstd::prelude::*;
use vstd::string::StringExecFns;

verus! {

/// The SHA-256 digest of a string, as a 64-character lowercase hexadecimal
/// string. The digest is a pure function of its input; nothing more is
/// assumed of it.
pub uninterp spec fn sha256_hex_of(s: Seq<char>) -> Seq<char>;

/// Whether a character is a lowercase hexadecimal digit.
pub open spec fn is_lower_hex_digit(c: char) -> bool {
    ('0' <= c && c <= '9') || ('a' <= c && c <= 'f')
}

/// The hash stored in a leaf node for a given element.
pub open spec fn leaf_hash_of(e: Seq<char>) -> Seq<char> {
    sha256_hex_of(e)
}

/// The hash stored in an internal node whose children carry the hex digests
/// `l` and `r`: the digest of the two hex strings concatenated (not of the
/// raw binary digests).
pub open spec fn node_hash_of(l: Seq<char>, r: Seq<char>) -> Seq<char> {
    sha256_hex_of(l + r)
}

/// The hash of the synthetic "empty" node used to complete a pairing when a
/// row has odd length.
pub open spec fn empty_hash() -> Seq<char> {
    leaf_hash_of(Seq::<char>::empty())
}

/// Relies on crypto's Sha256 (`crypto::sha2::Sha256` with
/// `crypto::digest::Digest::{input_str, result_str}`): the digest is a pure
/// function of the input string alone, and `result_str` renders it as
/// 64 lowercase hexadecimal characters (two per digest byte, from the
/// lowercase table).
#[verifier::external_body]
pub fn hasher(input: &str) -> (r: String)
    ensures
        r@ == sha256_hex_of(input@),
        r@.len() == 64,
        forall|i: int| 0 <= i < r@.len() ==> is_lower_hex_digit(#[trigger] r@[i]),
{
    let mut hasher = crypto::sha2::Sha256::new();
    crypto::digest::Digest::input_str(&mut hasher, input);
    crypto::digest::Digest::result_str(&mut hasher)
}

/// The digest of the empty string as an owned string: the value of the
/// synthetic empty node, also used for the placeholder entries of an
/// aggregate proof.
pub(crate) fn empty_hash_string() -> (r: String)
    ensures
        r@ == empty_hash(),
{
    proof {
        reveal_strlit("");
        assert(""@ =~= Seq::<char>::empty());
    }
    hash_leaf("")
}

/// Hash one element into the value a leaf node carries.
pub fn hash_leaf(leaf: &str) -> (r: String)
    ensures
        r@ == leaf_hash_of(leaf@),
{
    hasher(leaf)
}

/// Hash two child digests into the value their parent node carries.
pub fn hash_node(left: &str, right: &str) -> (r: String)
    ensures
        r@ == node_hash_of(left@, right@),
{
    let mut combined = left.to_owned();
    combined.append(right);
    hasher(combined.as_str())
}

} // verus!
