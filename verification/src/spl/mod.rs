//! Product line operations: derivations of products from features, and the inspection of
//! the derivation metadata stored in commits.

pub mod derivation;
pub mod error;
pub mod inspection;
