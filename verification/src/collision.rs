//! Collision resolution over the post-move snakes, and the end-of-round
//! decision table.

use vstd::prelude::*;
use std::collections::VecDeque;
use itertools::Itertools;
use crate::geom::Cell;
use crate::snake::Snake;

verus! {

/// The snake's head lies outside the grid.
pub open spec fn hits_wall(s: Snake, width: int, height: int) -> bool {
    !s.head().in_grid(width, height)
}

/// The snake's head coincides with one of its own body cells at index 1
/// or beyond.
pub open spec fn hits_self(s: Snake) -> bool {
    exists|k: int| 1 <= k < s.cells@.len() && s.cells@[k] == s.head()
}

/// The snake's head appears anywhere in the other snake's body, its head
/// included.
pub open spec fn hits_body_of(s: Snake, o: Snake) -> bool {
    o.cells@.contains(s.head())
}

/// A snake is eliminated when it is alive and any of the three rules
/// fires: a wall hit, a self hit, or a hit on the other snake's body.
pub open spec fn is_eliminated(s: Snake, o: Snake, width: int, height: int) -> bool {
    s.alive() && (hits_wall(s, width, height) || hits_self(s) || hits_body_of(s, o))
}

/// Whether the unordered pair `p` of snake indices, checked head against
/// body in both directions, blames snake `t`. Both snakes of a checked
/// pair must be alive, as the resolver skips a pair with a dead member.
pub open spec fn pair_blames(a: Snake, b: Snake, p: (usize, usize), t: usize) -> bool {
    let s = if p.0 == 0 { a } else { b };
    let o = if p.1 == 0 { a } else { b };
    &&& s.alive()
    &&& o.alive()
    &&& ((t == p.0 && hits_body_of(s, o)) || (t == p.1 && hits_body_of(o, s)))
}

/// Relies on `itertools::Itertools::combinations`: over the index range
/// `0..n` with size two it yields every two-element combination, each
/// with its elements in the input's (increasing) order.
#[verifier::external_body]
fn index_pairs(n: usize) -> (r: Vec<(usize, usize)>)
    ensures
        forall|k: int| 0 <= k < r@.len() ==> (#[trigger] r@[k]).0 < r@[k].1 < n,
        forall|i: usize, j: usize| i < j < n ==> r@.contains((i, j)),
{
    (0..n).combinations(2).map(|p| (p[0], p[1])).collect()
}

/// Whether `c` occurs anywhere in `cells`.
pub fn deque_contains(cells: &VecDeque<Cell>, c: Cell) -> (r: bool)
    ensures
        r == cells@.contains(c),
{
    let mut i: usize = 0;
    while i < cells.len()
        invariant
            i <= cells@.len(),
            forall|j: int| 0 <= j < i ==> cells@[j] != c,
        decreases cells@.len() - i,
    {
        if cells[i] == c {
            return true;
        }
        i = i + 1;
    }
    false
}

/// Whether the snake's head hits its own body at index 1 or beyond.
fn self_hit(s: &Snake) -> (r: bool)
    requires
        s.alive(),
    ensures
        r == hits_self(*s),
{
    let head = s.cells[0];
    let mut k: usize = 1;
    while k < s.cells.len()
        invariant
            1 <= k <= s.cells@.len(),
            s.cells@.len() > 0,
            head == s.head(),
            forall|j: int| 1 <= j < k ==> s.cells@[j] != head,
        decreases s.cells@.len() - k,
    {
        if s.cells[k] == head {
            return true;
        }
        k = k + 1;
    }
    false
}

/// Compute the elimination verdict for both post-move snakes. Each flag
/// is a single deduplicated mark: it says whether any rule at all blames
/// that snake, however many fired at once.
pub fn resolve_collisions(a: &Snake, b: &Snake, width: i32, height: i32) -> (r: (bool, bool))
    ensures
        r.0 == is_eliminated(*a, *b, width as int, height as int),
        r.1 == is_eliminated(*b, *a, width as int, height as int),
{
    let mut elim0 = false;
    let mut elim1 = false;

    // Inter-snake rule, over every unordered pair of snake indices.
    let pairs = index_pairs(2);
    let mut idx: usize = 0;
    while idx < pairs.len()
        invariant
            idx <= pairs@.len(),
            forall|k: int| 0 <= k < pairs@.len() ==> (#[trigger] pairs@[k]).0 < pairs@[k].1 < 2,
            elim0 == exists|k: int| 0 <= k < idx && pair_blames(*a, *b, #[trigger] pairs@[k], 0),
            elim1 == exists|k: int| 0 <= k < idx && pair_blames(*a, *b, #[trigger] pairs@[k], 1),
        decreases pairs@.len() - idx,
    {
        let p = pairs[idx];
        assert(p.0 == 0 && p.1 == 1);
        if a.cells.len() > 0 && b.cells.len() > 0 {
            let head_a = a.cells[0];
            let head_b = b.cells[0];
            if deque_contains(&b.cells, head_a) {
                elim0 = true;
            }
            if deque_contains(&a.cells, head_b) {
                elim1 = true;
            }
        }
        idx = idx + 1;
    }
    proof {
        // completeness of the pair walk: the one pair (0, 1) was checked
        assert(pairs@.contains((0usize, 1usize)));
        assert(elim0 == (a.alive() && b.alive() && hits_body_of(*a, *b)));
        assert(elim1 == (a.alive() && b.alive() && hits_body_of(*b, *a)));
        // a dead body contains no cell, so liveness of the other snake
        // does not narrow the rule
        assert(hits_body_of(*a, *b) ==> b.alive());
        assert(hits_body_of(*b, *a) ==> a.alive());
    }

    // Self and wall rules, per snake.
    if a.cells.len() > 0 {
        let head_a = a.cells[0];
        if !head_a.is_in_grid(width, height) {
            elim0 = true;
        }
        if self_hit(a) {
            elim0 = true;
        }
    }
    if b.cells.len() > 0 {
        let head_b = b.cells[0];
        if !head_b.is_in_grid(width, height) {
            elim1 = true;
        }
        if self_hit(b) {
            elim1 = true;
        }
    }
    (elim0, elim1)
}

/// Each collision rule fires independently: any one of a wall hit, a
/// self hit or a hit on the other snake's body eliminates an alive
/// snake, and the verdict is one deduplicated mark however many rules
/// fired at once.
pub proof fn lemma_rules_independent(s: Snake, o: Snake, width: int, height: int)
    requires
        s.alive(),
    ensures
        hits_wall(s, width, height) ==> is_eliminated(s, o, width, height),
        hits_self(s) ==> is_eliminated(s, o, width, height),
        hits_body_of(s, o) ==> is_eliminated(s, o, width, height),
{
}

/// How a finished tick is judged.
#[derive(Clone, Copy, PartialEq, Eq, Structural, Debug)]
pub enum RoundOutcome {
    /// No snake was eliminated: play goes on.
    Continue,
    /// Only snake 0 was eliminated.
    Player1Won,
    /// Only snake 1 was eliminated.
    Player2Won,
    /// Both snakes were eliminated, whatever the two causes.
    Draw,
}

/// The end-of-round decision table over the elimination set: empty set →
/// continue; only snake 0 → `Player1Won`; only snake 1 → `Player2Won`;
/// both → `Draw`.
pub open spec fn decision(elim0: bool, elim1: bool) -> RoundOutcome {
    if elim0 && elim1 {
        RoundOutcome::Draw
    } else if elim0 {
        RoundOutcome::Player1Won
    } else if elim1 {
        RoundOutcome::Player2Won
    } else {
        RoundOutcome::Continue
    }
}

/// Judge the tick from the two elimination marks, by the decision table.
pub fn decide_round(elim0: bool, elim1: bool) -> (r: RoundOutcome)
    ensures
        r == decision(elim0, elim1),
{
    if elim0 && elim1 {
        RoundOutcome::Draw
    } else if elim0 {
        RoundOutcome::Player1Won
    } else if elim1 {
        RoundOutcome::Player2Won
    } else {
        RoundOutcome::Continue
    }
}

impl RoundOutcome {
    /// The message shown on the end-of-round screen; empty while the
    /// round continues.
    pub fn message(self) -> (r: &'static str)
        ensures
            self == RoundOutcome::Continue ==> r@ == ""@,
            self == RoundOutcome::Player1Won ==> r@ == "Player 1 won"@,
            self == RoundOutcome::Player2Won ==> r@ == "Player 2 won"@,
            self == RoundOutcome::Draw ==> r@ == "Draw"@,
    {
        match self {
            RoundOutcome::Continue => "",
            RoundOutcome::Player1Won => "Player 1 won",
            RoundOutcome::Player2Won => "Player 2 won",
            RoundOutcome::Draw => "Draw",
        }
    }
}

} // verus!
