//! Administrative-boundary shapes: sharding of multi-feature datasets into a
//! per-entity store, and fuzzy resolution of names against that store.
pub mod rank;
pub mod text;
pub mod similarity;
pub mod resolve;
pub mod store;
pub mod record;
pub mod extract;
pub mod cors;
