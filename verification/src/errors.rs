//! Construction-time errors of the simulation core.
//!
//! The running simulation is total: once a model exists, a sweep cannot
//! fail. The only error-worthy conditions arise when a model or a random
//! source is put together from unusable inputs.

use vstd::prelude::*;

verus! {

/// Why a model or a random source could not be constructed.
#[derive(Clone, Copy, Debug, PartialEq, Eq, Structural)]
pub enum ModelError {
    /// The requested lattice side length was zero: a zero-length grid makes
    /// neighbor arithmetic and rendering undefined.
    ZeroSize,
    /// `size * size` does not fit in `usize`, so the spin grid cannot be
    /// allocated or indexed on this machine.
    GridTooLarge,
    /// The spin sequence handed to the constructor does not hold exactly
    /// `size * size` cells.
    SpinCountMismatch,
    /// A scripted random source needs at least one level to cycle through.
    EmptyScript,
    /// A scripted level was not below `LEVEL_SCALE`, so it names no real
    /// in `[0, 1)`.
    LevelOutOfRange,
}

} // verus!
