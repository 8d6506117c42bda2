use std::collections::VecDeque;

use snake_duel::collision::{decide_round, resolve_collisions, RoundOutcome};
use snake_duel::game::{Game, Phase};
use snake_duel::geom::{Cell, Dir};
use snake_duel::snake::Snake;

fn cell(x: i32, y: i32) -> Cell {
    Cell { x, y }
}

fn snake_of(cells: Vec<Cell>, dir: Dir) -> Snake {
    Snake { cells: VecDeque::from(cells), dir, last_dir: dir }
}

fn game_10x10(snake_a: Snake, snake_b: Snake) -> Game {
    Game {
        width: 10,
        height: 10,
        update_interval_ms: 100,
        phase: Phase::Resolving,
        snake_a,
        snake_b,
        apple: snake_duel::apple::Apple::Absent,
        animations: Vec::new(),
        outcome: RoundOutcome::Continue,
    }
}

#[test]
fn spawn_places_cells_behind_head() {
    let s = Snake::spawn(cell(5, 5), Dir::Right, 3);
    assert_eq!(s.cells.len(), 3);
    assert_eq!(s.cells[0], cell(5, 5));
    assert_eq!(s.cells[1], cell(4, 5));
    assert_eq!(s.cells[2], cell(3, 5));
    for i in 0..3 {
        for j in 0..i {
            assert_ne!(s.cells[i], s.cells[j]);
        }
    }
    assert_eq!(s.dir, Dir::Right);
    assert_eq!(s.last_dir, Dir::Right);
}

#[test]
fn spawn_down_direction() {
    let s = Snake::spawn(cell(2, 2), Dir::Down, 2);
    assert_eq!(s.cells[0], cell(2, 2));
    assert_eq!(s.cells[1], cell(2, 1));
}

#[test]
fn set_heading_rejects_reversal() {
    let mut s = Snake::spawn(cell(5, 5), Dir::Right, 3);
    s.set_heading(Dir::Left);
    assert_eq!(s.dir, Dir::Right);
    s.set_heading(Dir::Up);
    assert_eq!(s.dir, Dir::Up);
    // the committed direction is still Right, so Down is no reversal and
    // the last request before the tick wins
    s.set_heading(Dir::Down);
    assert_eq!(s.dir, Dir::Down);
    assert_eq!(s.last_dir, Dir::Right);
}

#[test]
fn reversal_then_advance_never_reenters_second_cell() {
    let mut s = Snake::spawn(cell(5, 5), Dir::Right, 3);
    let former_second = s.cells[1];
    s.set_heading(Dir::Left);
    s.advance(false);
    assert_ne!(s.cells[0], former_second);
    assert_eq!(s.cells[0], cell(6, 5));
}

#[test]
fn advance_growth_invariant() {
    let mut s = Snake::spawn(cell(5, 5), Dir::Right, 2);
    let tail = s.cells[1];
    s.advance(true);
    assert_eq!(s.cells.len(), 3);
    assert_eq!(*s.cells.back().unwrap(), tail);
    s.advance(false);
    assert_eq!(s.cells.len(), 3);
    assert_eq!(s.cells[0], cell(7, 5));
}

#[test]
fn advance_commits_heading() {
    let mut s = Snake::spawn(cell(5, 5), Dir::Right, 2);
    s.set_heading(Dir::Up);
    s.advance(false);
    assert_eq!(s.last_dir, Dir::Up);
    assert_eq!(s.cells[0], cell(5, 4));
}

#[test]
fn collision_wall() {
    let a = snake_of(vec![cell(-1, 0), cell(0, 0)], Dir::Left);
    let b = snake_of(vec![cell(5, 5)], Dir::Right);
    let (e0, e1) = resolve_collisions(&a, &b, 10, 10);
    assert!(e0);
    assert!(!e1);
}

#[test]
fn collision_wall_all_sides() {
    let b = snake_of(vec![cell(5, 5)], Dir::Right);
    for head in [cell(10, 3), cell(3, 10), cell(-1, 3), cell(3, -1)] {
        let a = snake_of(vec![head], Dir::Right);
        let (e0, _) = resolve_collisions(&a, &b, 10, 10);
        assert!(e0);
    }
    let a = snake_of(vec![cell(0, 0)], Dir::Right);
    let (e0, _) = resolve_collisions(&a, &b, 10, 10);
    assert!(!e0);
}

#[test]
fn collision_self() {
    // head at (1,1) re-appears at index 4: a loop closed on itself
    let a = snake_of(
        vec![cell(1, 1), cell(1, 2), cell(2, 2), cell(2, 1), cell(1, 1)],
        Dir::Up,
    );
    let b = snake_of(vec![cell(8, 8)], Dir::Right);
    let (e0, e1) = resolve_collisions(&a, &b, 10, 10);
    assert!(e0);
    assert!(!e1);
}

#[test]
fn collision_inter_body() {
    let a = snake_of(vec![cell(4, 4), cell(3, 4)], Dir::Right);
    let b = snake_of(vec![cell(5, 4), cell(4, 4), cell(4, 5)], Dir::Left);
    // a's head (4,4) lies inside b's body, so a is eliminated; b's head
    // (5,4) is on no cell of a, so b survives
    let (e0, e1) = resolve_collisions(&a, &b, 10, 10);
    assert!(e0);
    assert!(!e1);
}

#[test]
fn collision_head_to_head_eliminates_both() {
    let a = snake_of(vec![cell(5, 5)], Dir::Right);
    let b = snake_of(vec![cell(5, 5)], Dir::Left);
    let (e0, e1) = resolve_collisions(&a, &b, 10, 10);
    assert!(e0);
    assert!(e1);
    assert_eq!(decide_round(e0, e1), RoundOutcome::Draw);
}

#[test]
fn collision_simultaneous_rules_deduplicated() {
    // one snake hits the wall and its own body at once: still a single
    // elimination mark, so the other player wins
    let a = snake_of(vec![cell(-1, 0), cell(0, 0), cell(-1, 0)], Dir::Left);
    let b = snake_of(vec![cell(5, 5)], Dir::Right);
    let (e0, e1) = resolve_collisions(&a, &b, 10, 10);
    assert!(e0);
    assert!(!e1);
    assert_eq!(decide_round(e0, e1), RoundOutcome::Player1Won);
}

#[test]
fn dead_snake_is_never_eliminated() {
    let a = snake_of(vec![], Dir::Right);
    let b = snake_of(vec![cell(5, 5)], Dir::Right);
    let (e0, e1) = resolve_collisions(&a, &b, 10, 10);
    assert!(!e0);
    assert!(!e1);
}

#[test]
fn scenario_draw_from_unrelated_causes() {
    // in one tick, snake A runs into the wall while snake B runs into
    // A's body: two eliminations from unrelated rules still make a draw
    let a = snake_of(vec![cell(0, 3), cell(1, 3)], Dir::Left);
    let b = snake_of(vec![cell(0, 4)], Dir::Up);
    let mut g = game_10x10(a, b);
    g.step_round();
    assert_eq!(g.snake_a.cells[0], cell(-1, 3));
    assert_eq!(g.snake_b.cells[0], cell(0, 3));
    assert_eq!(g.outcome, RoundOutcome::Draw);
    assert_eq!(g.phase, Phase::Over);
}

#[test]
fn round_decision_table() {
    assert_eq!(decide_round(false, false), RoundOutcome::Continue);
    assert_eq!(decide_round(true, false), RoundOutcome::Player1Won);
    assert_eq!(decide_round(false, true), RoundOutcome::Player2Won);
    assert_eq!(decide_round(true, true), RoundOutcome::Draw);
}

#[test]
fn round_messages() {
    assert_eq!(RoundOutcome::Player1Won.message(), "Player 1 won");
    assert_eq!(RoundOutcome::Player2Won.message(), "Player 2 won");
    assert_eq!(RoundOutcome::Draw.message(), "Draw");
    assert_eq!(RoundOutcome::Continue.message(), "");
}

#[test]
fn scenario_parallel_tick() {
    // grid 10x10, snake A at (5,5) heading right, snake B at (5,6)
    // heading right, both length 1, no apple: one tick moves both heads
    // one cell right, nothing collides, the apple slot stays empty
    let a = snake_of(vec![cell(5, 5)], Dir::Right);
    let b = snake_of(vec![cell(5, 6)], Dir::Right);
    let mut g = game_10x10(a, b);
    g.step_round();
    assert_eq!(g.snake_a.cells[0], cell(6, 5));
    assert_eq!(g.snake_b.cells[0], cell(6, 6));
    assert_eq!(g.snake_a.cells.len(), 1);
    assert_eq!(g.snake_b.cells.len(), 1);
    assert_eq!(g.outcome, RoundOutcome::Continue);
    assert_eq!(g.phase, Phase::Animating);
    assert!(matches!(g.apple, snake_duel::apple::Apple::Absent));
}

#[test]
fn scenario_head_on_draw() {
    // two length-1 snakes heading into the same cell: both heads
    // coincide after the tick, both are eliminated, the round is a draw
    let a = snake_of(vec![cell(4, 5)], Dir::Right);
    let b = snake_of(vec![cell(6, 5)], Dir::Left);
    let mut g = game_10x10(a, b);
    g.step_round();
    assert_eq!(g.snake_a.cells[0], cell(5, 5));
    assert_eq!(g.snake_b.cells[0], cell(5, 5));
    assert_eq!(g.outcome, RoundOutcome::Draw);
    assert_eq!(g.phase, Phase::Over);
    assert_eq!(g.outcome.message(), "Draw");
}

#[test]
fn animate_transition_exact_threshold() {
    let a = snake_of(vec![cell(5, 5)], Dir::Right);
    let b = snake_of(vec![cell(5, 6)], Dir::Right);
    let mut g = game_10x10(a, b);
    g.phase = Phase::Animating;
    g.animate_tick(0);
    assert_eq!(g.phase, Phase::Animating);
    g.animate_tick(100);
    assert_eq!(g.phase, Phase::Animating);
    g.animate_tick(101);
    assert_eq!(g.phase, Phase::Resolving);
}

#[test]
fn animations_built_from_pre_move_bodies() {
    let a = snake_of(vec![cell(5, 5), cell(4, 5), cell(3, 5)], Dir::Right);
    let b = snake_of(vec![cell(0, 9)], Dir::Right);
    let mut g = game_10x10(a, b);
    g.step_round();
    let anims = &g.animations;
    assert_eq!(anims.len(), 4);
    // snake A: moving head, sliding tail, a stationary copy of the one
    // interior segment
    assert_eq!((anims[0].from, anims[0].to), (cell(5, 5), cell(6, 5)));
    assert_eq!((anims[1].from, anims[1].to), (cell(3, 5), cell(4, 5)));
    assert_eq!((anims[2].from, anims[2].to), (cell(4, 5), cell(4, 5)));
    // snake B: a single moving head
    assert_eq!((anims[3].from, anims[3].to), (cell(0, 9), cell(1, 9)));
}

#[test]
fn animations_tail_stationary_when_growing() {
    let a = snake_of(vec![cell(4, 5), cell(3, 5)], Dir::Right);
    let b = snake_of(vec![cell(8, 8)], Dir::Right);
    let mut g = game_10x10(a, b);
    g.apple = snake_duel::apple::Apple::At(cell(5, 5));
    g.step_round();
    // snake A eats and grows: moving head plus a stationary tail, no
    // interior segment at length two
    let anims = &g.animations;
    assert_eq!(anims.len(), 3);
    assert_eq!((anims[0].from, anims[0].to), (cell(4, 5), cell(5, 5)));
    assert_eq!((anims[1].from, anims[1].to), (cell(3, 5), cell(3, 5)));
    assert_eq!((anims[2].from, anims[2].to), (cell(8, 8), cell(9, 8)));
}

#[test]
fn new_game_is_initial() {
    let g = Game::new();
    assert_eq!(g.width, 40);
    assert_eq!(g.height, 30);
    assert_eq!(g.update_interval_ms, 100);
    assert_eq!(g.phase, Phase::Resolving);
    assert_eq!(g.outcome, RoundOutcome::Continue);
    assert!(matches!(g.apple, snake_duel::apple::Apple::Absent));
    assert!(g.animations.is_empty());
    assert_eq!(g.snake_a.cells.len(), 5);
    assert_eq!(g.snake_a.cells[0], cell(6, 1));
    assert_eq!(g.snake_a.cells[4], cell(2, 1));
    assert_eq!(g.snake_b.cells.len(), 5);
    assert_eq!(g.snake_b.cells[0], cell(34, 28));
    assert_eq!(g.snake_b.cells[4], cell(38, 28));
}

#[test]
fn reset_restores_initial_state() {
    let mut g = Game::new();
    g.resolve_tick();
    g.set_heading(0, Dir::Down);
    g.reset();
    assert_eq!(g.phase, Phase::Resolving);
    assert_eq!(g.snake_a.cells[0], cell(6, 1));
    assert_eq!(g.snake_a.dir, Dir::Right);
    assert!(matches!(g.apple, snake_duel::apple::Apple::Absent));
    assert!(g.animations.is_empty());
}

#[test]
fn set_heading_routes_to_player() {
    let mut g = Game::new();
    g.set_heading(0, Dir::Down);
    assert_eq!(g.snake_a.dir, Dir::Down);
    assert_eq!(g.snake_b.dir, Dir::Left);
    g.set_heading(1, Dir::Up);
    assert_eq!(g.snake_b.dir, Dir::Up);
    // a reversal request through the game is ignored too
    g.set_heading(0, Dir::Left);
    assert_eq!(g.snake_a.dir, Dir::Down);
}
