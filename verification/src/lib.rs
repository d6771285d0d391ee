//! A generic trie node: an associative tree in which every node owns zero or
//! more keyed children (each itself a trie node) and optionally a payload
//! value. The library provides insertion, membership tests, retrieval by key,
//! predicate-filtered retrieval over a node's immediate children, and a
//! prefix-membership helper for building string predicates.

pub mod key;
pub mod prefix;
pub mod trie;

pub use key::TrieKey;
pub use prefix::chunk;
pub use trie::TrieNode;
