//! A crowd-sourced geospatial marker registry.
//!
//! Users place named, typed markers at WGS84 coordinates (microdegrees).
//! Markers can be updated, liked, and deleted. Lookup is by spatial tile
//! or by author, through two capacity-bounded, duplicate-free reverse
//! indexes that the lifecycle operations keep consistent with the marker
//! records themselves. Every record lives at a deterministic address
//! derived from its content, in a keyed store of pre-sized slots.

pub mod address;
pub mod consistency;
pub mod errors;
pub mod laws;
pub mod layout;
pub mod model;
pub mod ops;
pub mod state;
pub mod store;
pub mod wire;
