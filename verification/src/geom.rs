//! Grid coordinates and the four movement directions.

use vstd::prelude::*;

verus! {

/// A cell of the grid, addressed by signed coordinates so that a head one
/// step outside the grid (a wall hit) is still representable.
#[derive(Clone, Copy, PartialEq, Eq, Structural, Debug)]
pub struct Cell {
    pub x: i32,
    pub y: i32,
}

/// One of the four unit directions a snake can head in.
#[derive(Clone, Copy, PartialEq, Eq, Structural, Debug)]
pub enum Dir {
    Up,
    Down,
    Left,
    Right,
}

impl Dir {
    /// Horizontal component of the unit vector for this direction.
    pub open spec fn dx(self) -> int {
        match self {
            Dir::Up => 0,
            Dir::Down => 0,
            Dir::Left => -1,
            Dir::Right => 1,
        }
    }

    /// Vertical component of the unit vector for this direction.
    /// The y axis grows downward, so `Up` is -1.
    pub open spec fn dy(self) -> int {
        match self {
            Dir::Up => -1,
            Dir::Down => 1,
            Dir::Left => 0,
            Dir::Right => 0,
        }
    }

    /// The direction pointing exactly the other way.
    pub open spec fn opposite(self) -> Dir {
        match self {
            Dir::Up => Dir::Down,
            Dir::Down => Dir::Up,
            Dir::Left => Dir::Right,
            Dir::Right => Dir::Left,
        }
    }

    /// Executable form of [`Dir::opposite`].
    pub fn reversed(self) -> (r: Dir)
        ensures
            r == self.opposite(),
    {
        match self {
            Dir::Up => Dir::Down,
            Dir::Down => Dir::Up,
            Dir::Left => Dir::Right,
            Dir::Right => Dir::Left,
        }
    }

    /// The unit vector of this direction as a cell offset.
    pub fn value(self) -> (r: Cell)
        ensures
            r.x == self.dx(),
            r.y == self.dy(),
    {
        match self {
            Dir::Up => Cell { x: 0, y: -1 },
            Dir::Down => Cell { x: 0, y: 1 },
            Dir::Left => Cell { x: -1, y: 0 },
            Dir::Right => Cell { x: 1, y: 0 },
        }
    }
}

impl Cell {
    /// The cell one step from `self` in direction `d`, as a mathematical value.
    pub open spec fn stepped(self, d: Dir) -> Cell {
        Cell { x: (self.x + d.dx()) as i32, y: (self.y + d.dy()) as i32 }
    }

    /// Whether stepping from `self` in direction `d` stays within `i32`.
    pub open spec fn can_step(self, d: Dir) -> bool {
        &&& i32::MIN <= self.x + d.dx() <= i32::MAX
        &&& i32::MIN <= self.y + d.dy() <= i32::MAX
    }

    /// Move one step in direction `d`.
    pub fn step(self, d: Dir) -> (r: Cell)
        requires
            self.can_step(d),
        ensures
            r == self.stepped(d),
    {
        let dv = d.value();
        Cell { x: self.x + dv.x, y: self.y + dv.y }
    }

    /// Whether the cell lies inside a `width` by `height` grid.
    pub open spec fn in_grid(self, width: int, height: int) -> bool {
        &&& 0 <= self.x < width
        &&& 0 <= self.y < height
    }

    /// Executable form of [`Cell::in_grid`].
    pub fn is_in_grid(self, width: i32, height: i32) -> (r: bool)
        ensures
            r == self.in_grid(width as int, height as int),
    {
        0 <= self.x && self.x < width && 0 <= self.y && self.y < height
    }
}

/// Stepping the same cell in two different directions lands on two
/// different cells: the four unit vectors are pairwise distinct and a
/// step changes exactly one coordinate by one.
pub proof fn lemma_step_injective_in_dir(p: Cell, d1: Dir, d2: Dir)
    requires
        p.can_step(d1),
        p.can_step(d2),
        d1 != d2,
    ensures
        p.stepped(d1) != p.stepped(d2),
{
}

} // verus!
