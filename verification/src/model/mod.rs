//! The branch tree of a product line: qualified paths, node types, nodes and the
//! tree model built from the branch and tag names of a repository.

pub mod display;
pub mod error;
pub mod node;
pub mod node_type;
pub mod path;
pub mod traverse;
pub mod tree;
