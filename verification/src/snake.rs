//! A snake: an ordered body of cells plus its current and committed heading.

use vstd::prelude::*;
use std::collections::VecDeque;
use crate::geom::Cell;
use crate::geom::Dir;
use crate::geom::lemma_step_injective_in_dir;

verus! {

/// The body is ordered head first: index 0 is the head, the last index the
/// tail. `dir` is the heading that the next tick will apply; `last_dir` is
/// the heading actually applied on the most recent tick, and is what a
/// requested reversal is checked against.
pub struct Snake {
    pub cells: VecDeque<Cell>,
    pub dir: Dir,
    pub last_dir: Dir,
}

impl Snake {
    /// An eliminated snake has an empty body and takes no further part.
    pub open spec fn alive(self) -> bool {
        self.cells@.len() > 0
    }

    /// The head cell (index 0). Meaningful only while alive.
    pub open spec fn head(self) -> Cell {
        self.cells@[0]
    }

    /// The tail cell (last index). Meaningful only while alive.
    pub open spec fn tail(self) -> Cell {
        self.cells@.last()
    }

    /// Where the head will be after the next advance.
    pub open spec fn next_head(self) -> Cell {
        self.head().stepped(self.dir)
    }

    /// The current heading is never the exact opposite of the committed
    /// one: spawning aligns them and `set_heading` rejects reversals.
    pub open spec fn heading_ok(self) -> bool {
        self.dir != self.last_dir.opposite()
    }

    /// The second cell lies directly behind the head along the committed
    /// direction, as it does after every spawn and every advance.
    pub open spec fn behind_ok(self) -> bool {
        self.cells@.len() >= 2 ==> self.cells@[1] == self.head().stepped(self.last_dir.opposite())
    }

    /// The `i`-th body cell at spawn: `i` steps behind the head against
    /// the spawn direction.
    pub open spec fn spawn_cell(head: Cell, d: Dir, i: int) -> Cell {
        Cell { x: (head.x - i * d.dx()) as i32, y: (head.y - i * d.dy()) as i32 }
    }

    /// Machine limits for spawning a body of `n` cells behind `head`:
    /// every trailing cell's coordinates stay within `i32`.
    pub open spec fn can_spawn(head: Cell, d: Dir, n: int) -> bool {
        &&& 0 <= n <= i32::MAX
        &&& n >= 1 ==> {
            &&& i32::MIN + (n - 1) <= head.x <= i32::MAX - (n - 1)
            &&& i32::MIN + (n - 1) <= head.y <= i32::MAX - (n - 1)
        }
    }

    /// The heading that results from requesting `d`: ignored when `d` is
    /// the exact opposite of the committed direction.
    pub open spec fn heading_after(self, d: Dir) -> Dir {
        if d == self.last_dir.opposite() {
            self.dir
        } else {
            d
        }
    }

    /// Place a fresh snake of `n` cells: the head at `head`, each trailing
    /// cell one further step against `d`, so the body starts aligned and
    /// already moving in `d`.
    pub fn spawn(head: Cell, d: Dir, n: usize) -> (s: Snake)
        requires
            Self::can_spawn(head, d, n as int),
        ensures
            s.cells@.len() == n,
            forall|i: int| 0 <= i < n ==> s.cells@[i] == Self::spawn_cell(head, d, i),
            s.dir == d,
            s.last_dir == d,
            s.heading_ok(),
            s.behind_ok(),
            n >= 1 ==> s.head() == head,
    {
        let dv = d.value();
        let mut cells: VecDeque<Cell> = VecDeque::new();
        let mut i: usize = 0;
        while i < n
            invariant
                i <= n,
                Self::can_spawn(head, d, n as int),
                dv.x == d.dx(),
                dv.y == d.dy(),
                cells@.len() == i,
                forall|j: int| 0 <= j < i ==> cells@[j] == Self::spawn_cell(head, d, j),
            decreases n - i,
        {
            proof {
                lemma_unit_scale(d, i as int);
            }
            let c = Cell { x: head.x - dv.x * (i as i32), y: head.y - dv.y * (i as i32) };
            cells.push_back(c);
            i = i + 1;
        }
        let s = Snake { cells, dir: d, last_dir: d };
        proof {
            if n >= 2 {
                assert(s.cells@[1] == Self::spawn_cell(head, d, 1));
                assert(d.opposite().dx() == -d.dx());
                assert(d.opposite().dy() == -d.dy());
            }
        }
        s
    }

    /// Request a new heading. The request is ignored when it is the exact
    /// opposite of the committed direction; otherwise it overwrites the
    /// current heading. The body and the committed direction are untouched.
    pub fn set_heading(&mut self, d: Dir)
        ensures
            final(self).cells@ == old(self).cells@,
            final(self).last_dir == old(self).last_dir,
            final(self).dir == old(self).heading_after(d),
            old(self).heading_ok() ==> final(self).heading_ok(),
            old(self).behind_ok() ==> final(self).behind_ok(),
    {
        if !(d == self.last_dir.reversed()) {
            self.dir = d;
        }
    }

    /// Advance one tick: push the next head to the front; keep the tail
    /// when the snake grew, drop it otherwise; commit the heading.
    ///
    /// Growing adds exactly one cell and never removes the tail; not
    /// growing preserves the length exactly.
    pub fn advance(&mut self, grew: bool)
        requires
            old(self).alive(),
            old(self).head().can_step(old(self).dir),
        ensures
            final(self).cells@ == seq![old(self).next_head()] + (if grew {
                old(self).cells@
            } else {
                old(self).cells@.drop_last()
            }),
            final(self).dir == old(self).dir,
            final(self).last_dir == old(self).dir,
            final(self).alive(),
            final(self).head() == old(self).next_head(),
            grew ==> final(self).cells@.len() == old(self).cells@.len() + 1,
            grew ==> final(self).tail() == old(self).tail(),
            !grew ==> final(self).cells@.len() == old(self).cells@.len(),
            final(self).heading_ok(),
            final(self).behind_ok(),
    {
        let new_head = self.cells[0].step(self.dir);
        self.cells.push_front(new_head);
        self.last_dir = self.dir;
        if !grew {
            self.cells.pop_back();
            proof {
                assert(self.cells@ =~= seq![old(self).next_head()] + old(self).cells@.drop_last());
            }
        }
        proof {
            assert(self.dir.opposite().dx() == -self.dir.dx());
            assert(self.dir.opposite().dy() == -self.dir.dy());
            if self.cells@.len() >= 2 {
                assert(self.cells@[1] == old(self).head());
            }
        }
    }
}

/// Scaling a unit component by a nonnegative factor stays within that
/// factor in magnitude.
proof fn lemma_unit_scale(d: Dir, i: int)
    requires
        0 <= i,
    ensures
        -i <= i * d.dx() <= i,
        -i <= i * d.dy() <= i,
{
    assert(-i <= i * d.dx() <= i) by (nonlinear_arith)
        requires
            0 <= i,
            -1 <= d.dx() <= 1,
    ;
    assert(-i <= i * d.dy() <= i) by (nonlinear_arith)
        requires
            0 <= i,
            -1 <= d.dy() <= 1,
    ;
}

/// Spawn correctness: a spawned body has no duplicate cells, and each
/// trailing cell is exactly one step behind its predecessor along the
/// spawn direction. Together with the ensures of [`Snake::spawn`] this
/// holds of the `n` cells every spawn places.
pub proof fn lemma_spawn_body_sound(head: Cell, d: Dir, n: int)
    requires
        Snake::can_spawn(head, d, n),
    ensures
        forall|i: int, j: int|
            0 <= i < j < n ==> Snake::spawn_cell(head, d, i) != Snake::spawn_cell(head, d, j),
        forall|i: int|
            1 <= i < n ==> #[trigger] Snake::spawn_cell(head, d, i).stepped(d) == Snake::spawn_cell(
                head,
                d,
                i - 1,
            ),
{
    assert forall|i: int, j: int|
        0 <= i < j < n implies Snake::spawn_cell(head, d, i) != Snake::spawn_cell(head, d, j) by {
        lemma_unit_scale(d, i);
        lemma_unit_scale(d, j);
        assert(d.dx() != 0 ==> i * d.dx() != j * d.dx()) by (nonlinear_arith)
            requires
                i != j,
        ;
        assert(d.dy() != 0 ==> i * d.dy() != j * d.dy()) by (nonlinear_arith)
            requires
                i != j,
        ;
    }
    assert forall|i: int|
        1 <= i < n implies #[trigger] Snake::spawn_cell(head, d, i).stepped(d) == Snake::spawn_cell(
        head,
        d,
        i - 1,
    ) by {
        lemma_unit_scale(d, i);
        lemma_unit_scale(d, i - 1);
        assert((i - 1) * d.dx() == i * d.dx() - d.dx()) by (nonlinear_arith);
        assert((i - 1) * d.dy() == i * d.dy() - d.dy()) by (nonlinear_arith);
    }
}

/// Reversal rejection: in a state whose second cell lies directly behind
/// the head along the committed direction, requesting the opposite of the
/// committed direction is ignored, and the head the next advance produces
/// is never the former second cell.
pub proof fn lemma_reversal_rejected(s: Snake, d: Dir)
    requires
        s.alive(),
        s.cells@.len() >= 2,
        s.heading_ok(),
        s.behind_ok(),
        d == s.last_dir.opposite(),
        s.head().can_step(s.dir),
        s.head().can_step(d),
    ensures
        s.heading_after(d) == s.dir,
        s.head().stepped(s.heading_after(d)) != s.cells@[1],
{
    lemma_step_injective_in_dir(s.head(), s.dir, d);
}

} // verus!
