//! The editor model: focus chain, identifiers, the structural layout
//! tree and the operations that rewrite it.

pub mod focus_chain;
pub mod cursor;
pub mod ids;
pub mod modal_slot;
pub mod editor;
pub mod registry;
pub mod stores;
pub mod tree;
