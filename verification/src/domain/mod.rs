//! Discovered tests and what is computed from them.

pub mod ancestry;
pub mod count;
pub mod discovery;
pub mod discovery_laws;
pub mod filter;
pub mod listing;
pub mod runner;
pub mod selection;
pub mod selection_laws;
pub mod source_laws;
pub mod sources;
pub mod table;
pub mod tree;
