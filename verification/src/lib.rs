//! A growable array over an explicitly managed buffer of slots, with the
//! cursors that move its elements out from either end. Beside it stand two
//! small algorithms: a search for triplets that sum to zero, and the
//! simplifying of a path.

pub mod laws;
pub mod rawvaliter;
pub mod rawvec;
pub mod simplify_path;
pub mod unique_triplet;
pub mod vec;
