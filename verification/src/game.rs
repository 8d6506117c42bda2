//! The authoritative game state and its tick/animate state machine.

use vstd::prelude::*;
use rand::Rng;
use crate::apple::Apple;
use crate::apple::choose_free_cell;
use crate::apple::count_free;
use crate::apple::free_total;
use crate::apple::is_nth_free;
use crate::collision::RoundOutcome;
use crate::collision::decide_round;
use crate::collision::decision;
use crate::collision::is_eliminated;
use crate::collision::resolve_collisions;
use crate::geom::Cell;
use crate::geom::Dir;
use crate::snake::Snake;

verus! {

/// The two live phases of the tick state machine, plus the frozen
/// end-of-round state.
#[derive(Clone, Copy, PartialEq, Eq, Structural, Debug)]
pub enum Phase {
    /// The next frame applies one discrete simulation step.
    Resolving,
    /// Between steps: frames only interpolate the stored animations.
    Animating,
    /// A snake was eliminated; the simulation is frozen until a reset.
    Over,
}

/// Linear motion of one rendered body segment over one tick interval.
#[derive(Clone, Copy, PartialEq, Eq, Structural, Debug)]
pub struct Animation {
    pub from: Cell,
    pub to: Cell,
}

/// The whole authoritative game state. The state machine owns and
/// mutates all of it; renderers only read snapshots.
pub struct Game {
    pub width: i32,
    pub height: i32,
    /// Tick interval in milliseconds.
    pub update_interval_ms: u32,
    pub phase: Phase,
    pub snake_a: Snake,
    pub snake_b: Snake,
    pub apple: Apple,
    pub animations: Vec<Animation>,
    /// Meaningful once the phase is `Over`; `Continue` during play.
    pub outcome: RoundOutcome,
}

/// Every body cell lies inside the grid.
pub open spec fn snake_in_grid(s: Snake, width: int, height: int) -> bool {
    forall|i: int| 0 <= i < s.cells@.len() ==> (#[trigger] s.cells@[i]).in_grid(width, height)
}

/// `s` eats the apple `ap` this tick: it is alive and its next head is
/// exactly the apple's cell.
pub open spec fn eats(s: Snake, ap: Apple) -> bool {
    s.alive() && ap == Apple::At(s.next_head())
}

/// How the body relates across one advance: dead snakes stay untouched;
/// an alive one gets its next head in front and keeps its tail exactly
/// when it grew, committing its heading either way.
pub open spec fn advance_rel(pre: Snake, grew: bool, post: Snake) -> bool {
    if pre.alive() {
        &&& post.cells@ == seq![pre.next_head()] + (if grew {
            pre.cells@
        } else {
            pre.cells@.drop_last()
        })
        &&& post.dir == pre.dir
        &&& post.last_dir == pre.dir
    } else {
        post == pre
    }
}

/// The animation entries one snake contributes, built from its pre-move
/// body: the head slides to its next cell; a body of two or more cells
/// animates its tail (stationary when growing, else sliding onto the
/// second-to-last cell); every interior segment (indices 1 to the one
/// before the tail) keeps a stationary copy for uniform rendering. A
/// body of length L thus contributes L entries (one when L is 1).
pub open spec fn anims_for(s: Snake, ate: bool) -> Seq<Animation> {
    if !s.alive() {
        Seq::<Animation>::empty()
    } else if s.cells@.len() == 1 {
        seq![Animation { from: s.head(), to: s.next_head() }]
    } else {
        seq![
            Animation { from: s.head(), to: s.next_head() },
            Animation {
                from: s.tail(),
                to: if ate {
                    s.tail()
                } else {
                    s.cells@[s.cells@.len() - 2]
                },
            },
        ] + Seq::new(
            (s.cells@.len() - 2) as nat,
            |i: int| Animation { from: s.cells@[i + 1], to: s.cells@[i + 1] },
        )
    }
}

impl Game {
    /// All cells both snakes occupy, snake 0's first.
    pub open spec fn occupied(self) -> Seq<Cell> {
        self.snake_a.cells@ + self.snake_b.cells@
    }

    /// Well-formedness: a nonempty grid whose area fits the draw range, a
    /// positive tick interval, headings never opposite their committed
    /// direction, and, while the round is live, both bodies on the grid.
    pub open spec fn wf(self) -> bool {
        &&& 1 <= self.width
        &&& 1 <= self.height
        &&& self.width * self.height <= u32::MAX
        &&& 1 <= self.update_interval_ms
        &&& self.snake_a.heading_ok()
        &&& self.snake_b.heading_ok()
        &&& (self.phase != Phase::Over ==> snake_in_grid(
            self.snake_a,
            self.width as int,
            self.height as int,
        ) && snake_in_grid(self.snake_b, self.width as int, self.height as int))
    }

    /// The number of free grid cells, as the spawn algorithm counts them.
    pub fn free_cells(&self) -> (r: u32)
        requires
            self.wf(),
        ensures
            r == free_total(self.occupied(), self.width as int, self.height as int),
    {
        let occ = collect_occupied(&self.snake_a, &self.snake_b);
        count_free(self.width, self.height, &occ)
    }
}

/// Valid outcomes of the ensure-apple step: a present apple stays put; an
/// absent one is spawned on a free cell, chosen by rank among the free
/// cells of the fixed grid walk, whenever a free cell exists at all.
pub open spec fn spawn_rel(pre: Game, ap: Apple) -> bool {
    if pre.apple is At {
        ap == pre.apple
    } else if free_total(pre.occupied(), pre.width as int, pre.height as int) == 0 {
        ap == Apple::Absent
    } else {
        exists|n: int, p: Cell|
            {
                &&& 0 <= n < free_total(pre.occupied(), pre.width as int, pre.height as int)
                &&& ap == Apple::At(p)
                &&& is_nth_free(pre.occupied(), pre.width as int, pre.height as int, n, p)
            }
    }
}

/// The deterministic tick transition, given the apple `ap` that the
/// resolve phase starts from: snake 0 eats first (the documented
/// tie-break), the eater's apple disappears before snake 1 is looked at,
/// animations are built from the pre-move bodies, both snakes advance,
/// and the collision verdict picks the next phase and the outcome.
pub open spec fn tick_rel(pre: Game, ap: Apple, post: Game) -> bool {
    let ea = eats(pre.snake_a, ap);
    let eb = !ea && eats(pre.snake_b, ap);
    let e0 = is_eliminated(post.snake_a, post.snake_b, pre.width as int, pre.height as int);
    let e1 = is_eliminated(post.snake_b, post.snake_a, pre.width as int, pre.height as int);
    &&& post.width == pre.width
    &&& post.height == pre.height
    &&& post.update_interval_ms == pre.update_interval_ms
    &&& advance_rel(pre.snake_a, ea, post.snake_a)
    &&& advance_rel(pre.snake_b, eb, post.snake_b)
    &&& post.apple == (if ea || eb {
        Apple::Absent
    } else {
        ap
    })
    &&& post.animations@ == anims_for(pre.snake_a, ea) + anims_for(pre.snake_b, eb)
    &&& post.outcome == decision(e0, e1)
    &&& post.phase == (if e0 || e1 {
        Phase::Over
    } else {
        Phase::Animating
    })
}

/// Occupancy consistency: an alive body of pairwise distinct cells keeps
/// its cells pairwise distinct across an advance that the collision
/// resolver did not eliminate. Self-overlap is thus a collision, never a
/// surviving state.
pub proof fn lemma_distinct_body_preserved(
    pre: Snake,
    post: Snake,
    other: Snake,
    grew: bool,
    width: int,
    height: int,
)
    requires
        pre.alive(),
        advance_rel(pre, grew, post),
        !is_eliminated(post, other, width, height),
        forall|i: int, j: int|
            0 <= i < j < pre.cells@.len() ==> pre.cells@[i] != pre.cells@[j],
    ensures
        forall|i: int, j: int|
            0 <= i < j < post.cells@.len() ==> post.cells@[i] != post.cells@[j],
{
    assert forall|i: int, j: int|
        0 <= i < j < post.cells@.len() implies post.cells@[i] != post.cells@[j] by {
        if i == 0 {
            // the new head collides with no later cell: that would be a
            // self hit, which the resolver did not find
            assert(!crate::collision::hits_self(post));
            assert(post.cells@[j] != post.head());
        } else {
            assert(post.cells@[i] == pre.cells@[i - 1]);
            assert(post.cells@[j] == pre.cells@[j - 1]);
        }
    }
}

/// Relies on `rand`: sampling `thread_rng` through `Uniform::new(0, bound)`
/// returns an integer drawn uniformly from `[0, bound)`. `Uniform::new`
/// panics only on an empty range, which the precondition excludes; of the
/// random result nothing is promised beyond its range.
#[verifier::external_body]
fn rand_below(bound: u32) -> (r: u32)
    requires
        bound >= 1,
    ensures
        r < bound,
{
    let dist = rand::distributions::Uniform::new(0u32, bound);
    rand::thread_rng().sample(dist)
}

/// Concatenate both bodies into one occupancy list, snake 0's cells first.
fn collect_occupied(a: &Snake, b: &Snake) -> (v: Vec<Cell>)
    ensures
        v@ == a.cells@ + b.cells@,
{
    let mut v: Vec<Cell> = Vec::new();
    let mut i: usize = 0;
    while i < a.cells.len()
        invariant
            i <= a.cells@.len(),
            v@ == a.cells@.subrange(0, i as int),
        decreases a.cells@.len() - i,
    {
        v.push(a.cells[i]);
        proof {
            assert(v@ =~= a.cells@.subrange(0, i + 1));
        }
        i = i + 1;
    }
    proof {
        assert(a.cells@.subrange(0, a.cells@.len() as int) =~= a.cells@);
    }
    let mut j: usize = 0;
    while j < b.cells.len()
        invariant
            j <= b.cells@.len(),
            v@ == a.cells@ + b.cells@.subrange(0, j as int),
        decreases b.cells@.len() - j,
    {
        v.push(b.cells[j]);
        proof {
            assert(v@ =~= a.cells@ + b.cells@.subrange(0, j + 1));
        }
        j = j + 1;
    }
    proof {
        assert(a.cells@ + b.cells@.subrange(0, b.cells@.len() as int) =~= a.cells@ + b.cells@);
    }
    v
}

/// Append the animation entries of one pre-move snake.
fn push_anims(anims: &mut Vec<Animation>, s: &Snake, ate: bool)
    requires
        s.alive() ==> s.head().can_step(s.dir),
    ensures
        final(anims)@ == old(anims)@ + anims_for(*s, ate),
{
    let ghost base0 = anims@;
    if s.cells.len() > 0 {
        let head = s.cells[0];
        anims.push(Animation { from: head, to: head.step(s.dir) });
        if s.cells.len() >= 2 {
            let tail = s.cells[s.cells.len() - 1];
            let to = if ate {
                tail
            } else {
                s.cells[s.cells.len() - 2]
            };
            anims.push(Animation { from: tail, to });
            let ghost base = anims@;
            let mut i: usize = 1;
            while i < s.cells.len() - 1
                invariant
                    s.cells@.len() >= 2,
                    1 <= i <= s.cells@.len() - 1,
                    anims@ == base + Seq::new(
                        (i - 1) as nat,
                        |j: int| Animation { from: s.cells@[j + 1], to: s.cells@[j + 1] },
                    ),
                decreases s.cells@.len() - 1 - i,
            {
                anims.push(Animation { from: s.cells[i], to: s.cells[i] });
                proof {
                    assert(anims@ =~= base + Seq::new(
                        i as nat,
                        |j: int| Animation { from: s.cells@[j + 1], to: s.cells@[j + 1] },
                    ));
                }
                i = i + 1;
            }
        }
        proof {
            assert(anims@ =~= base0 + anims_for(*s, ate));
        }
    } else {
        proof {
            assert(anims@ =~= base0 + anims_for(*s, ate));
        }
    }
}

impl Game {
    /// Ensure an apple exists: an apple already present is left alone; an
    /// absent one is spawned on a uniformly chosen free cell when the
    /// grid has one. Nothing else of the state changes.
    pub fn ensure_apple(&mut self)
        requires
            old(self).wf(),
        ensures
            final(self).wf(),
            spawn_rel(*old(self), final(self).apple),
            final(self).width == old(self).width,
            final(self).height == old(self).height,
            final(self).update_interval_ms == old(self).update_interval_ms,
            final(self).phase == old(self).phase,
            final(self).snake_a == old(self).snake_a,
            final(self).snake_b == old(self).snake_b,
            final(self).animations == old(self).animations,
            final(self).outcome == old(self).outcome,
    {
        if matches!(self.apple, Apple::Absent) {
            let occ = collect_occupied(&self.snake_a, &self.snake_b);
            let total = count_free(self.width, self.height, &occ);
            if total > 0 {
                let n = rand_below(total);
                let c = choose_free_cell(self.width, self.height, &occ, n);
                self.apple = Apple::At(c);
            }
        }
    }

    /// Apply one deterministic simulation step from the current apple:
    /// mark who eats, build the animations, advance both snakes, resolve
    /// collisions, and pick the next phase and outcome.
    #[verifier::rlimit(100)]
    pub fn step_round(&mut self)
        requires
            old(self).wf(),
            old(self).phase == Phase::Resolving,
        ensures
            final(self).wf(),
            tick_rel(*old(self), old(self).apple, *final(self)),
    {
        let ghost pre = *self;

        // Who eats: snake 0 is looked at first, and clears the apple for
        // snake 1 — the documented tie-break on a simultaneous claim.
        let mut ate_a = false;
        let mut ate_b = false;
        if self.snake_a.cells.len() > 0 {
            if let Apple::At(p) = self.apple {
                if self.snake_a.cells[0].step(self.snake_a.dir) == p {
                    ate_a = true;
                    self.apple = Apple::Absent;
                }
            }
        }
        if self.snake_b.cells.len() > 0 {
            if let Apple::At(p) = self.apple {
                if self.snake_b.cells[0].step(self.snake_b.dir) == p {
                    ate_b = true;
                    self.apple = Apple::Absent;
                }
            }
        }
        proof {
            assert(ate_a == eats(pre.snake_a, pre.apple));
            assert(ate_b == (!ate_a && eats(pre.snake_b, pre.apple)));
        }

        // Animations come from the pre-move bodies.
        let mut anims: Vec<Animation> = Vec::new();
        push_anims(&mut anims, &self.snake_a, ate_a);
        push_anims(&mut anims, &self.snake_b, ate_b);
        self.animations = anims;
        proof {
            assert(self.animations@ =~= anims_for(pre.snake_a, ate_a) + anims_for(
                pre.snake_b,
                ate_b,
            ));
        }

        // Apply the moves.
        if self.snake_a.cells.len() > 0 {
            self.snake_a.advance(ate_a);
        }
        if self.snake_b.cells.len() > 0 {
            self.snake_b.advance(ate_b);
        }

        // Judge the post-move bodies.
        let (e0, e1) = resolve_collisions(&self.snake_a, &self.snake_b, self.width, self.height);
        self.outcome = decide_round(e0, e1);
        self.phase = if e0 || e1 {
            Phase::Over
        } else {
            Phase::Animating
        };

        proof {
            if self.phase != Phase::Over {
                assert forall|i: int|
                    0 <= i < self.snake_a.cells@.len() implies (#[trigger] self.snake_a.cells@[i]).in_grid(
                    self.width as int,
                    self.height as int,
                ) by {
                    if i > 0 {
                        assert(self.snake_a.cells@[i] == pre.snake_a.cells@[i - 1]);
                    }
                }
                assert forall|i: int|
                    0 <= i < self.snake_b.cells@.len() implies (#[trigger] self.snake_b.cells@[i]).in_grid(
                    self.width as int,
                    self.height as int,
                ) by {
                    if i > 0 {
                        assert(self.snake_b.cells@[i] == pre.snake_b.cells@[i - 1]);
                    }
                }
            }
        }
    }

    /// One full resolve phase: make sure an apple exists, then step the
    /// round. The random draw of the spawn makes the spawned cell free
    /// but otherwise unconstrained, so the contract quantifies over it.
    pub fn resolve_tick(&mut self)
        requires
            old(self).wf(),
            old(self).phase == Phase::Resolving,
        ensures
            final(self).wf(),
            exists|ap: Apple| spawn_rel(*old(self), ap) && tick_rel(*old(self), ap, *final(self)),
    {
        self.ensure_apple();
        let ghost ap = self.apple;
        self.step_round();
        proof {
            assert(spawn_rel(*old(self), ap) && tick_rel(*old(self), ap, *self));
        }
    }

    /// One animate-phase frame: the phase flips back to `Resolving`
    /// exactly when the elapsed phase time exceeds the tick interval,
    /// never earlier. Nothing else of the state changes.
    pub fn animate_tick(&mut self, elapsed_ms: u32)
        requires
            old(self).phase == Phase::Animating,
        ensures
            final(self).phase == (if elapsed_ms > old(self).update_interval_ms {
                Phase::Resolving
            } else {
                Phase::Animating
            }),
            final(self).width == old(self).width,
            final(self).height == old(self).height,
            final(self).update_interval_ms == old(self).update_interval_ms,
            final(self).snake_a == old(self).snake_a,
            final(self).snake_b == old(self).snake_b,
            final(self).apple == old(self).apple,
            final(self).animations == old(self).animations,
            final(self).outcome == old(self).outcome,
            old(self).wf() ==> final(self).wf(),
    {
        if elapsed_ms > self.update_interval_ms {
            self.phase = Phase::Resolving;
        }
    }

    /// Route one directional intent to the given snake's heading request;
    /// the other snake and all other state stay untouched.
    pub fn set_heading(&mut self, player: usize, d: Dir)
        requires
            player < 2,
        ensures
            player == 0 ==> final(self).snake_a.dir == old(self).snake_a.heading_after(d)
                && final(self).snake_a.cells@ == old(self).snake_a.cells@
                && final(self).snake_a.last_dir == old(self).snake_a.last_dir && final(self).snake_b
                == old(self).snake_b,
            player == 1 ==> final(self).snake_b.dir == old(self).snake_b.heading_after(d)
                && final(self).snake_b.cells@ == old(self).snake_b.cells@
                && final(self).snake_b.last_dir == old(self).snake_b.last_dir && final(self).snake_a
                == old(self).snake_a,
            final(self).width == old(self).width,
            final(self).height == old(self).height,
            final(self).update_interval_ms == old(self).update_interval_ms,
            final(self).phase == old(self).phase,
            final(self).apple == old(self).apple,
            final(self).animations == old(self).animations,
            final(self).outcome == old(self).outcome,
            old(self).wf() ==> final(self).wf(),
    {
        if player == 0 {
            self.snake_a.set_heading(d);
        } else {
            self.snake_b.set_heading(d);
        }
    }

    /// The fresh initial configuration: a 40 by 30 grid, a 100 ms tick,
    /// snake 0 of length 5 at (6, 1) heading right, snake 1 of length 5
    /// at (34, 28) heading left, no apple, no animations, resolving.
    pub open spec fn is_initial(g: Game) -> bool {
        &&& g.width == 40
        &&& g.height == 30
        &&& g.update_interval_ms == 100
        &&& g.phase == Phase::Resolving
        &&& g.apple == Apple::Absent
        &&& g.animations@.len() == 0
        &&& g.outcome == RoundOutcome::Continue
        &&& g.snake_a.cells@.len() == 5
        &&& (forall|i: int|
            0 <= i < 5 ==> g.snake_a.cells@[i] == Snake::spawn_cell(
                Cell { x: 6, y: 1 },
                Dir::Right,
                i,
            ))
        &&& g.snake_a.dir == Dir::Right
        &&& g.snake_a.last_dir == Dir::Right
        &&& g.snake_b.cells@.len() == 5
        &&& (forall|i: int|
            0 <= i < 5 ==> g.snake_b.cells@[i] == Snake::spawn_cell(
                Cell { x: 34, y: 28 },
                Dir::Left,
                i,
            ))
        &&& g.snake_b.dir == Dir::Left
        &&& g.snake_b.last_dir == Dir::Left
    }

    /// Build the fresh initial configuration.
    pub fn new() -> (g: Game)
        ensures
            g.wf(),
            Self::is_initial(g),
    {
        let g = Game {
            width: 40,
            height: 30,
            update_interval_ms: 100,
            phase: Phase::Resolving,
            snake_a: Snake::spawn(Cell { x: 6, y: 1 }, Dir::Right, 5),
            snake_b: Snake::spawn(Cell { x: 34, y: 28 }, Dir::Left, 5),
            apple: Apple::Absent,
            animations: Vec::new(),
            outcome: RoundOutcome::Continue,
        };
        proof {
            assert forall|i: int|
                0 <= i < g.snake_a.cells@.len() implies (#[trigger] g.snake_a.cells@[i]).in_grid(
                40,
                30,
            ) by {
                assert(g.snake_a.cells@[i] == Snake::spawn_cell(Cell { x: 6, y: 1 }, Dir::Right, i));
            }
            assert forall|i: int|
                0 <= i < g.snake_b.cells@.len() implies (#[trigger] g.snake_b.cells@[i]).in_grid(
                40,
                30,
            ) by {
                assert(g.snake_b.cells@[i] == Snake::spawn_cell(
                    Cell { x: 34, y: 28 },
                    Dir::Left,
                    i,
                ));
            }
        }
        g
    }

    /// The end-of-round reset: any key on the frozen screen rebuilds the
    /// whole fresh initial configuration. No partial reset exists.
    pub fn reset(&mut self)
        ensures
            final(self).wf(),
            Self::is_initial(*final(self)),
    {
        *self = Game::new();
    }
}

} // verus!
