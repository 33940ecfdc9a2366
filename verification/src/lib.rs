//! Verified core of a distance-cartogram builder.
//!
//! A distance cartogram warps a map so that distances on it follow another
//! quantity, such as travel time. The deformation is carried by a regular
//! lattice of nodes laid over the *source points*; every node has a fixed
//! source position and an interpolated position, and a relaxation moves the
//! interpolated positions until the lattice maps the source points onto their
//! *image points* (Waldo Tobler's bidimensional regression).
//!
//! This crate holds what in that computation is decided by integers and by
//! shape: the row-major lattice and its neighbourhoods ([`node`]), the order
//! in which the relaxation reads and writes the nodes ([`solver`]), the grid
//! that is made of it and the cells that it is drawn with ([`grid`]), the
//! walk over the vertices of a layer of geometries ([`geometry`]), and the
//! rule for the number of passes ([`utils`]).
//!
//! Coordinates are values of a type `P` that the caller chooses. The crate
//! stores them, hands them out and puts back what the caller computes from
//! them, but never looks inside one: the arithmetic on coordinates comes in
//! as functions, and every contract says which of their answers ends up
//! where.
pub mod adjustment;
pub mod determinism;
pub mod errors;
pub mod geometry;
pub mod grid;
pub mod lattice;
pub mod moving_points_unipolar;
pub mod node;
pub mod solver;
pub mod utils;

pub use errors::Error;
pub use grid::Grid;
pub use grid::GridType;
pub use moving_points_unipolar::CentralTendency;
