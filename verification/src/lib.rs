//! Reconstruction of a travelling-salesman tour from a solver's
//! index permutation: reordering stops, recomputing next-hop
//! distances from a pairwise matrix, and closing the circular route.

pub mod permutation;
pub mod route;
