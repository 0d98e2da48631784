use vstd::prelude::*;

verus! {

/// One grid cell: a liveness flag and an RGB color.  A dead cell's color is
/// kept zeroed by every operation of this crate.
#[derive(Clone, Copy, PartialEq, Eq, Structural)]
pub struct Cell {
    pub alive: bool,
    pub r: u8,
    pub g: u8,
    pub b: u8,
}

impl Cell {
    /// The unique dead cell value: not alive, color cleared.
    pub open spec fn dead_spec() -> Cell {
        Cell { alive: false, r: 0, g: 0, b: 0 }
    }

    /// A live cell carrying the given color.
    pub open spec fn live_spec(r: u8, g: u8, b: u8) -> Cell {
        Cell { alive: true, r, g, b }
    }

    /// The packed 24-bit RGB encoding a renderer reads: bits 16-23 red,
    /// bits 8-15 green, bits 0-7 blue, and 0 for a dead cell.
    pub open spec fn packed_spec(self) -> u32 {
        if self.alive {
            ((self.r as u32) << 16) | ((self.g as u32) << 8) | (self.b as u32)
        } else {
            0
        }
    }

    pub fn new() -> (c: Cell)
        ensures
            c == Cell::dead_spec(),
    {
        Cell { alive: false, r: 0, g: 0, b: 0 }
    }

    pub fn with_color(r: u8, g: u8, b: u8) -> (c: Cell)
        ensures
            c == Cell::live_spec(r, g, b),
    {
        Cell { alive: true, r, g, b }
    }

    pub fn packed(self) -> (p: u32)
        ensures
            p == self.packed_spec(),
    {
        if self.alive {
            ((self.r as u32) << 16) | ((self.g as u32) << 8) | (self.b as u32)
        } else {
            0
        }
    }
}

} // verus!
