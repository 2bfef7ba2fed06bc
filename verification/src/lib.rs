//! Conway's Game of Life evaluated over encrypted cell state.
//!
//! The board holds one ciphertext per cell; a generation is computed purely
//! through homomorphic operations (modular addition, scalar multiplication,
//! programmable lookup tables), so the party running an update never learns
//! the plaintext of any cell.  Three interchangeable neighbor-counting
//! strategies are provided; all are proved to implement the same survival
//! rule on the plaintexts that the ciphertexts decrypt to.

use vstd::prelude::*;

pub mod rule;
pub mod tables;
pub mod fhe;
pub mod strategy;
pub mod board;

verus! {

/// The configuration-time failures of the engine.
#[derive(Clone, Copy, Debug, PartialEq, Eq, Structural)]
pub enum LifeError {
    /// A board was built from a cell sequence whose length does not fill
    /// whole rows of the requested width.
    DimensionMismatch,
    /// The evaluation context's message/carry capacities match no known
    /// fused-lookup table layout.
    UnsupportedParameterRegime,
    /// A strategy's required modulus or table domain exceeds the context's
    /// plaintext capacity.
    CapacityOverflow,
}

} // verus!
