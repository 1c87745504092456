//! What can go wrong.

use vstd::prelude::*;

verus! {

/// The ways in which building a figure or writing to a canvas can fail.
#[derive(Clone, Copy, PartialEq, Eq, Structural, Debug)]
pub enum CanvasError {
    /// A figure was asked for from a text without any characters.
    EmptyInput,
    /// A span was to be read or written beyond the cells that exist.
    OutOfBounds,
}

} // verus!
