//! Finds directories of a given name below a root and coordinates their
//! deletion from an interactive list.

pub mod events;
pub mod folder;
pub mod laws;
pub mod layout;
pub mod lemmas;
pub mod model;
pub mod path;
pub mod search;
pub mod search_laws;
pub mod state;
pub mod tree;
