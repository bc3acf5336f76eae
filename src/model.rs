//! Names for the faces of the unit cube that procedural meshes are built
//! from.
use vstd::prelude::*;

verus! {

#[derive(Debug, Clone, Copy, PartialEq, Eq, Structural)]
pub enum CubeSide {
    Top,
    Left,
    Bottom,
    Right,
    Forward,
    Backward,
}

} // verus!
