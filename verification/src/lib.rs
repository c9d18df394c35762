//! A forest of b-trees that stores an RDF dataset as quads of identifiers.
#![allow(unused_imports)]

pub mod identifier;
pub mod quad;

pub use crate::identifier::Identifier;
pub mod order;

pub mod tree;
pub mod dynamic;
pub mod forest;
pub mod compile_time_forest;
pub mod block_order;
pub mod block_forest;
pub mod kind_order;
pub mod animals;
pub mod matchable;
pub mod lattice;
pub mod sortable;
pub mod treed_dataset;
pub mod sub_tree;
pub mod full_index;
