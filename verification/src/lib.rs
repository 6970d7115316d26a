//! A Merkle tree library: builds a binary hash tree over an ordered list of
//! string elements, produces compact proofs that one element (or a
//! contiguous range of elements) is included in the tree, and verifies such
//! proofs against a known root hash alone, without the tree.
//!
//! Every contract is stated over the model in [`model`]; the laws the
//! library guarantees are proved in [`laws`].

pub mod aggregate;
pub mod hashing;
pub mod laws;
pub mod model;
pub mod proofs;
pub mod tree;

pub use aggregate::get_aggregate_proof;
pub use aggregate::verify_aggregate_proof;
pub use aggregate::MerkleAggregateProof;
pub use hashing::hash_leaf;
pub use hashing::hash_node;
pub use hashing::hasher;
pub use proofs::get_proof;
pub use proofs::verify_proof;
pub use proofs::MerkleProof;
pub use tree::create_merkle_tree;
pub use tree::get_root;
pub use tree::update_element;
pub use tree::MerkleNode;
pub use tree::MerkleTree;
