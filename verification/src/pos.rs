//! The translation component of the current text-positioning transform.

use vstd::prelude::*;

verus! {

/// A 2-D position: the translation component of the text-positioning
/// transform at the time a text run is shown. Coordinates are kept as
/// integers; a fractional coordinate is truncated before it reaches the
/// engine.
#[derive(Clone, Copy, PartialEq, Eq, Structural, Debug)]
pub struct Pos {
    pub x: i64,
    pub y: i64,
}

impl Pos {
    pub fn new(x: i64, y: i64) -> (p: Pos)
        ensures
            p.x == x,
            p.y == y,
    {
        Pos { x, y }
    }
}

} // verus!
