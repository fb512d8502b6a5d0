//! The needle pass: where seeds may go, what the demands fold to per solver
//! point, and which site promises most.
pub mod agreement;
pub mod buckets;
pub mod colors;
pub mod fold;
pub mod interp;
pub mod landing;
pub mod lookup;
pub mod means;
pub mod point;
pub mod polarization;
pub mod scan;
pub mod sites;
pub mod wording;
