//! Per-entity sprite animation driven by a graph of small nodes.
//!
//! Each tick a walker starts at an entity's start node, runs nodes against the
//! entity's attribute store and follows their results until one of them names a
//! frame. Node graphs can be built in code or loaded from a small text format.

pub mod hashing;
pub mod text;
pub mod attributes;
pub mod node_id;
pub mod value;
pub mod error;
pub mod state;
pub mod nodes;
pub mod walker;
pub mod parse;
pub mod key_text;
pub mod fields;
pub mod values;
pub mod node_text;
pub mod loader;
pub mod print;
pub mod round_trip;
