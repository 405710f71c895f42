//! Pixel positions that may be the centre of a symbol.

use vstd::prelude::*;

verus! {

/// A pixel that the ring scan marked and whose four neighbours it marked too.
#[derive(Clone, Copy, Debug)]
pub struct Candidate {
    pub x: usize,
    pub y: usize,
}

impl Candidate {
    pub fn new(x: usize, y: usize) -> (c: Self)
        ensures
            c.x == x,
            c.y == y,
    {
        Self { x, y }
    }
}

} // verus!
