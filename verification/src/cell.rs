use vstd::prelude::*;

verus! {

/// One cell of the uniform grid, named by its column and row.
///
/// A position falls into the cell whose column and row are its coordinates
/// divided by the cell size and rounded down; the caller does that division.
#[derive(Clone, Copy, Debug, PartialEq, Eq, Structural)]
pub struct Cell {
    pub x: i32,
    pub y: i32,
}

impl Cell {
    /// Two cells are adjacent when they differ by at most one in each axis;
    /// a cell is adjacent to itself.
    pub open spec fn adjacent(self, other: Cell) -> bool {
        &&& -1 <= other.x - self.x <= 1
        &&& -1 <= other.y - self.y <= 1
    }

    /// Whether `other` lies in the block of nine cells around this one.
    pub fn is_adjacent(&self, other: &Cell) -> (r: bool)
        ensures
            r == self.adjacent(*other),
    {
        let dx: i64 = other.x as i64 - self.x as i64;
        let dy: i64 = other.y as i64 - self.y as i64;
        -1 <= dx && dx <= 1 && -1 <= dy && dy <= 1
    }

    /// The number under which the cell's bucket is kept: column and row,
    /// each shifted to be non-negative, side by side in one word.
    pub(crate) closed spec fn slot(self) -> u64 {
        ((self.x + 2147483648) * 4294967296 + (self.y + 2147483648)) as u64
    }

    pub(crate) fn bucket(&self) -> (k: u64)
        ensures
            k == self.slot(),
    {
        let hx: u64 = (self.x as i64 + 2147483648) as u64;
        let hy: u64 = (self.y as i64 + 2147483648) as u64;
        hx * 4294967296 + hy
    }

    /// Different cells have different buckets.
    pub(crate) proof fn lemma_slot_injective(a: Cell, b: Cell)
        requires
            a.slot() == b.slot(),
        ensures
            a == b,
    {
    }
}

} // verus!
