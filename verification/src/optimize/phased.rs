//! Directions of staged layout compression.

use vstd::prelude::*;

verus! {

#[derive(Clone, Copy, Debug, PartialEq, Eq, Structural)]
pub enum CompressionAxis {
    X,
    Y,
    Z,
}

#[derive(Clone, Copy, Debug, PartialEq, Eq, Structural)]
pub enum CompressionDirection {
    TowardMinimum,
    TowardMaximum,
}

} // verus!
