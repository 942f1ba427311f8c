//! Kinds of placement mutation an optimizer proposes.

use vstd::prelude::*;

verus! {

#[derive(Clone, Copy, Debug, PartialEq, Eq, Structural)]
pub enum MutationKind {
    Move,
    MovePair,
    Rotate,
    ReplaceCell,
}

} // verus!
