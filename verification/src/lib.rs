//! A half-edge triangle mesh with a verified one-to-four subdivision step.
//!
//! The mesh is an arena of value records addressed by integer handles: a
//! position array, a face array and a half-edge array, all cross-referenced
//! by plain indices. The subdivision engine turns every triangle into four,
//! deduplicating the midpoint vertex introduced on each shared edge and
//! restitching adjacency across the split, so that a well-formed closed mesh
//! stays well-formed and closed. Midpoint placement is a pluggable policy,
//! which is how the same engine serves flat refinement and geodesic spheres.

pub mod algorithms;
pub mod half_edge;
pub mod midpoint;
