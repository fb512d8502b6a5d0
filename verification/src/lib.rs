//! Thin-film design synthesis: the decisions of the needle method, its
//! thickness optimizers, its merit bookkeeping and its spectral weaving.
//!
//! Real quantities travel through the library as IEEE-754 double bit patterns
//! (`scalar::Scalar`). Comparing them, taking a sign or a neighbour are
//! verified integer operations; sums, products and the like are supplied by
//! the caller as functions on bit patterns, and every contract says which
//! operands they are given and where their results go.
pub mod arith;
pub mod inflate;
pub mod jacobian;
pub mod linalg;
pub mod merit;
pub mod nearest;
pub mod needle_pass;
pub mod numeric;
pub mod optics;
pub mod optimizer;
pub mod pipeline;
pub mod reading;
pub mod scalar;
pub mod sorting;
pub mod spectralweave;
pub mod stagnation;
pub mod structure;
pub mod targets;
pub mod text;
pub mod thick_opt;
pub mod trf;
