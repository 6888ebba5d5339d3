//! Coordinates on the grid, and lists of them.

use vstd::prelude::*;

verus! {

/// A zero-based grid position: `x` counts columns, `y` counts rows.
#[derive(Clone, Copy, Debug, PartialEq, Eq, Structural, Hash)]
pub struct Coord {
    pub x: i32,
    pub y: i32,
}

impl Coord {
    /// Whether the position lies on a grid of `height` rows and `width`
    /// columns.
    pub open spec fn in_grid(self, height: int, width: int) -> bool {
        0 <= self.x < width && 0 <= self.y < height
    }

    pub fn is_in_grid(&self, height: i32, width: i32) -> (b: bool)
        ensures
            b == self.in_grid(height as int, width as int),
    {
        0 <= self.x && self.x < width && 0 <= self.y && self.y < height
    }

    pub fn new(x: i32, y: i32) -> (c: Coord)
        ensures
            c == (Coord { x, y }),
    {
        Coord { x, y }
    }
}

/// Whether `c` occurs in `v`.
pub fn contains_coord(v: &Vec<Coord>, c: Coord) -> (found: bool)
    ensures
        found == v@.contains(c),
{
    let mut i: usize = 0;
    while i < v.len()
        invariant
            i <= v.len(),
            forall|j: int| 0 <= j < i ==> v@[j] != c,
        decreases v.len() - i,
    {
        if v[i] == c {
            return true;
        }
        i += 1;
    }
    false
}

/// A copy of `v`.
pub fn copy_coords(v: &Vec<Coord>) -> (copy: Vec<Coord>)
    ensures
        copy@ == v@,
{
    let mut copy: Vec<Coord> = Vec::new();
    let mut i: usize = 0;
    while i < v.len()
        invariant
            i <= v.len(),
            copy@ == v@.take(i as int),
        decreases v.len() - i,
    {
        copy.push(v[i]);
        proof {
            assert(v@.take(i as int + 1) =~= v@.take(i as int).push(v@[i as int]));
        }
        i += 1;
    }
    proof {
        assert(v@.take(v@.len() as int) =~= v@);
    }
    copy
}

} // verus!
