//! A 2D Ising spin lattice evolved by the single-spin-flip Metropolis
//! Monte Carlo algorithm.
//!
//! The lattice is a square, row-major grid of boolean spins with periodic
//! (toroidal) boundaries. One sweep visits every site in raster order and
//! flips it according to the Metropolis acceptance rule, driven by a
//! pseudo-random source of uniform levels in units of 1/2^53.

pub mod chance;
pub mod errors;
pub mod lattice;
pub mod model;
pub mod rng;

pub use chance::AcceptRule;
pub use chance::Coupling;
pub use errors::ModelError;
pub use lattice::col_of;
pub use lattice::down_of;
pub use lattice::index_of;
pub use lattice::left_of;
pub use lattice::lemma_neighbors_in_bounds;
pub use lattice::lemma_unit_lattice_self_neighbors;
pub use lattice::right_of;
pub use lattice::row_of;
pub use lattice::up_of;
pub use model::Model;
pub use rng::RandomSource;
pub use rng::ScriptedSource;
pub use rng::SeededSource;
pub use rng::HALF_LEVEL;
pub use rng::LEVEL_SCALE;
