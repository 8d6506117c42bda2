//! The apple: an optional grid cell, spawned uniformly among free cells.

use vstd::prelude::*;
use vstd::arithmetic::div_mod::lemma_fundamental_div_mod;
use vstd::arithmetic::div_mod::lemma_fundamental_div_mod_converse;
use vstd::arithmetic::div_mod::lemma_mod_bound;
use vstd::arithmetic::div_mod::lemma_multiply_divide_lt;
use crate::geom::Cell;

verus! {

/// The single food slot: absent between consumption and the next resolve
/// phase, otherwise one grid cell.
#[derive(Clone, Copy, PartialEq, Eq, Structural, Debug)]
pub enum Apple {
    Absent,
    At(Cell),
}

impl Apple {
    /// Whether an apple is present.
    pub open spec fn is_present(self) -> bool {
        self is At
    }
}

/// The cell at position `k` of the fixed deterministic walk over the
/// grid: column by column, top to bottom within a column.
pub open spec fn walk_cell(height: int, k: int) -> Cell {
    Cell { x: (k / height) as i32, y: (k % height) as i32 }
}

/// How many cells among the first `k` of the walk are free, that is, not
/// listed in `occ`.
pub open spec fn free_before(occ: Seq<Cell>, height: int, k: int) -> nat
    decreases k,
{
    if k <= 0 {
        0
    } else {
        free_before(occ, height, k - 1) + (if occ.contains(walk_cell(height, k - 1)) {
            0nat
        } else {
            1nat
        })
    }
}

/// The total number of free cells of a `width` by `height` grid.
pub open spec fn free_total(occ: Seq<Cell>, width: int, height: int) -> nat {
    free_before(occ, height, width * height)
}

/// `c` is the free cell of 0-based rank `n` in the fixed walk: it is
/// free, and exactly `n` free cells precede it.
pub open spec fn is_nth_free(occ: Seq<Cell>, width: int, height: int, n: int, c: Cell) -> bool {
    exists|k: int|
        0 <= k < width * height && c == walk_cell(height, k) && !occ.contains(c) && free_before(
            occ,
            height,
            k,
        ) == n
}

/// At most `k` of the first `k` walk cells are free.
proof fn lemma_free_before_le(occ: Seq<Cell>, height: int, k: int)
    ensures
        free_before(occ, height, k) <= (if k <= 0 {
            0int
        } else {
            k
        }),
    decreases k,
{
    if k > 0 {
        lemma_free_before_le(occ, height, k - 1);
    }
}

/// The free count never falls as the walk extends.
proof fn lemma_free_before_mono(occ: Seq<Cell>, height: int, k1: int, k2: int)
    requires
        k1 <= k2,
    ensures
        free_before(occ, height, k1) <= free_before(occ, height, k2),
    decreases k2 - k1,
{
    if k1 < k2 {
        lemma_free_before_mono(occ, height, k1, k2 - 1);
    }
}

/// Bounds of a walk cell: position `k` of the walk lies in the grid, at
/// the quotient column and remainder row.
proof fn lemma_walk_bounds(width: int, height: int, k: int)
    requires
        1 <= width <= i32::MAX,
        1 <= height <= i32::MAX,
        0 <= k < width * height,
    ensures
        walk_cell(height, k).x == k / height,
        walk_cell(height, k).y == k % height,
        walk_cell(height, k).in_grid(width, height),
{
    lemma_mod_bound(k, height);
    assert(k < height * width) by (nonlinear_arith)
        requires
            k < width * height,
    ;
    lemma_multiply_divide_lt(k, height, width);
}

/// Distinct walk positions are distinct cells.
proof fn lemma_walk_injective(width: int, height: int, k1: int, k2: int)
    requires
        1 <= width <= i32::MAX,
        1 <= height <= i32::MAX,
        0 <= k1 < width * height,
        0 <= k2 < width * height,
        k1 != k2,
    ensures
        walk_cell(height, k1) != walk_cell(height, k2),
{
    lemma_walk_bounds(width, height, k1);
    lemma_walk_bounds(width, height, k2);
    if walk_cell(height, k1) == walk_cell(height, k2) {
        lemma_fundamental_div_mod(k1, height);
        lemma_fundamental_div_mod(k2, height);
    }
}

/// Every grid cell stands at exactly one walk position.
proof fn lemma_walk_index(width: int, height: int, c: Cell)
    requires
        1 <= width <= i32::MAX,
        1 <= height <= i32::MAX,
        c.in_grid(width, height),
    ensures
        0 <= c.x * height + c.y < width * height,
        walk_cell(height, c.x * height + c.y) == c,
{
    let k = c.x * height + c.y;
    assert(0 <= c.x * height && k < width * height) by (nonlinear_arith)
        requires
            0 <= c.x < width,
            0 <= c.y < height,
            k == c.x * height + c.y,
    ;
    lemma_fundamental_div_mod_converse(k, height, c.x as int, c.y as int);
}

/// Whether `c` occurs in `cells`.
pub fn cells_contain(cells: &Vec<Cell>, c: Cell) -> (r: bool)
    ensures
        r == cells@.contains(c),
{
    let mut i: usize = 0;
    while i < cells.len()
        invariant
            i <= cells@.len(),
            forall|j: int| 0 <= j < i ==> cells@[j] != c,
        decreases cells@.len() - i,
    {
        if cells[i] == c {
            return true;
        }
        i = i + 1;
    }
    false
}

/// Count the free cells of the whole grid: the grid area minus the cells
/// of `occ` that lie in the grid, duplicates counted once.
pub fn count_free(width: i32, height: i32, occ: &Vec<Cell>) -> (r: u32)
    requires
        1 <= width,
        1 <= height,
        width * height <= u32::MAX,
    ensures
        r == free_total(occ@, width as int, height as int),
{
    let area: u32 = (width as u32) * (height as u32);
    let mut cnt: u32 = 0;
    let mut k: u32 = 0;
    while k < area
        invariant
            1 <= width,
            1 <= height,
            area == width * height,
            k <= area,
            cnt == free_before(occ@, height as int, k as int),
        decreases area - k,
    {
        proof {
            lemma_walk_bounds(width as int, height as int, k as int);
            lemma_free_before_le(occ@, height as int, k as int);
        }
        let cell = Cell { x: (k / (height as u32)) as i32, y: (k % (height as u32)) as i32 };
        if !cells_contain(occ, cell) {
            cnt = cnt + 1;
        }
        k = k + 1;
    }
    cnt
}

/// Walk the grid in the fixed order, skip the occupied cells without
/// consuming the draw, and return the free cell whose 0-based rank among
/// free cells equals the draw `n`.
pub fn choose_free_cell(width: i32, height: i32, occ: &Vec<Cell>, n: u32) -> (c: Cell)
    requires
        1 <= width,
        1 <= height,
        width * height <= u32::MAX,
        n < free_total(occ@, width as int, height as int),
    ensures
        is_nth_free(occ@, width as int, height as int, n as int, c),
        !occ@.contains(c),
        c.in_grid(width as int, height as int),
{
    let area: u32 = (width as u32) * (height as u32);
    let mut cnt: u32 = 0;
    let mut k: u32 = 0;
    while k < area
        invariant
            1 <= width,
            1 <= height,
            area == width * height,
            n < free_total(occ@, width as int, height as int),
            k <= area,
            cnt == free_before(occ@, height as int, k as int),
            cnt <= n,
        decreases area - k,
    {
        proof {
            lemma_walk_bounds(width as int, height as int, k as int);
        }
        let cell = Cell { x: (k / (height as u32)) as i32, y: (k % (height as u32)) as i32 };
        if !cells_contain(occ, cell) {
            if cnt == n {
                return cell;
            }
            cnt = cnt + 1;
        }
        k = k + 1;
    }
    proof {
        assert(false);
    }
    Cell { x: 0, y: 0 }
}

/// Apple uniformity, the deterministic half: the map from draws to
/// chosen cells is a bijection between the draws below the free-cell
/// count and the free cells of the grid. A uniform draw therefore picks
/// every free cell with the same probability.
pub proof fn lemma_choice_uniform(occ: Seq<Cell>, width: int, height: int)
    requires
        1 <= width <= i32::MAX,
        1 <= height <= i32::MAX,
    ensures
        // each draw names at most one cell
        forall|n: int, c1: Cell, c2: Cell|
            is_nth_free(occ, width, height, n, c1) && is_nth_free(occ, width, height, n, c2)
                ==> c1 == c2,
        // distinct draws name distinct cells
        forall|n1: int, n2: int, c1: Cell, c2: Cell|
            is_nth_free(occ, width, height, n1, c1) && is_nth_free(occ, width, height, n2, c2)
                && n1 != n2 ==> c1 != c2,
        // every free cell is named by some draw below the free count
        forall|c: Cell|
            c.in_grid(width, height) && !occ.contains(c) ==> exists|n: int|
                0 <= n < free_total(occ, width, height) && is_nth_free(occ, width, height, n, c),
{
    assert forall|n: int, c1: Cell, c2: Cell|
        is_nth_free(occ, width, height, n, c1) && is_nth_free(occ, width, height, n, c2)
            implies c1 == c2 by {
        let k1 = choose|k: int|
            0 <= k < width * height && c1 == walk_cell(height, k) && !occ.contains(c1)
                && free_before(occ, height, k) == n;
        let k2 = choose|k: int|
            0 <= k < width * height && c2 == walk_cell(height, k) && !occ.contains(c2)
                && free_before(occ, height, k) == n;
        if k1 != k2 {
            if k1 < k2 {
                lemma_free_before_mono(occ, height, k1 + 1, k2);
            } else {
                lemma_free_before_mono(occ, height, k2 + 1, k1);
            }
            assert(false);
        }
    }
    assert forall|n1: int, n2: int, c1: Cell, c2: Cell|
        is_nth_free(occ, width, height, n1, c1) && is_nth_free(occ, width, height, n2, c2) && n1
            != n2 implies c1 != c2 by {
        let k1 = choose|k: int|
            0 <= k < width * height && c1 == walk_cell(height, k) && !occ.contains(c1)
                && free_before(occ, height, k) == n1;
        let k2 = choose|k: int|
            0 <= k < width * height && c2 == walk_cell(height, k) && !occ.contains(c2)
                && free_before(occ, height, k) == n2;
        if c1 == c2 {
            lemma_walk_injective(width, height, k1, k2);
        }
    }
    assert forall|c: Cell| c.in_grid(width, height) && !occ.contains(c) implies exists|n: int|
        0 <= n < free_total(occ, width, height) && is_nth_free(occ, width, height, n, c) by {
        lemma_walk_index(width, height, c);
        let k = c.x * height + c.y;
        let n = free_before(occ, height, k) as int;
        lemma_free_before_mono(occ, height, k + 1, width * height);
        assert(is_nth_free(occ, width, height, n, c));
    }
}

} // verus!
