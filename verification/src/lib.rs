//! Core of an artist-similarity graph visualizer: prunes a raw weighted
//! graph down to the subgraph connected above a similarity threshold (plus
//! one optionally pinned center node) and resolves string node identities
//! to dense integer indices for a force-directed layout engine.
//!
//! Edge weights travel through this crate as order-preserving `u32`
//! encodings chosen by the host bridge: comparing two encoded weights gives
//! the same result as comparing the weights they encode, and weights are
//! passed through unmodified.

pub mod bench;
pub mod graph_processor;
pub mod idents;
pub mod model;
pub mod normalize;
pub mod types;
