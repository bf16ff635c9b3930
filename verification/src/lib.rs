//! Exact lattice kernel for bond-based peridynamics in two dimensions.
//!
//! A rectangular domain is covered by a uniform grid of material points,
//! each with a volume and a scalar displacement. Two points interact if
//! they lie within the horizon of each other; the energy density of a
//! point is a sum over the bonds to the points of its family.
//!
//! Every length is held as an integer, so that the questions the kernel
//! decides (where the points stand, which points lie within the horizon of
//! which, and what the length and the relative displacement of each bond
//! are) are answered exactly. Evaluating the energy of a bond from its
//! length and displacement takes a square root and is left to the caller.
//!
//! - [`point`]: points with integer coordinates
//! - [`grid`]: the uniform grid, its index convention, and the horizon
//! - [`store`]: positions, volumes and displacements of the points
//! - [`bond`]: length, relative displacement and weight of a bond
//! - [`family`]: the bonds of a point's family, in index order
//! - [`laws`]: what holds of the families of every store

pub mod bond;
pub mod family;
pub mod grid;
pub mod laws;
pub mod point;
pub mod store;
