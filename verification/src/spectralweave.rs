//! Fragment-weaving store: many overlapping spectral curves over shared grids.
pub mod collection;
pub mod frame;
pub mod key;
pub mod laws;
pub mod plan;
pub mod roundtrip;
pub mod store;
pub mod targetweaver;
pub mod tiling;
pub mod weaver;
