//! Points of a plotted layer.
use vstd::prelude::*;

verus! {

/// A plotted point: its position in the plane and the spin vector there.
#[derive(Clone, Copy)]
pub struct Point<F> {
    pub x: F,
    pub y: F,
    pub vx: F,
    pub vy: F,
    pub vz: F,
}

} // verus!
