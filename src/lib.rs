//! Particle-mesh building blocks for a periodic-box N-body simulation.
//!
//! The verified core covers the integer structure of the method: periodic
//! lattice addressing, the discrete sample-frequency ordering, coordinate
//! meshes, separable axis-by-axis transforms, cloud-in-cell mass assignment
//! over fixed-point positions, the force-interpolation stencil and the
//! periodic position update.

pub mod density;
pub mod fourier;
pub mod grid;
pub mod ic;
pub mod integrate;
pub mod lattice;
pub mod meshgrid;
pub mod particle_mesh;
