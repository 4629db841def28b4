//! Nearest-hit dispatch and shading re-batching for four-wide ray packets.
pub mod lanes;
pub mod hit;
pub mod arena;
pub mod store;
