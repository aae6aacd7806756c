//! A live, filtered view over the nodes of a mutable document tree, and a
//! capability registry that gates optional graphics-context features behind
//! version and dependency checks.

pub mod collection;
pub mod elements;
pub mod registry;
pub mod tree;
