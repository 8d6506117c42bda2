use std::collections::VecDeque;

use snake_duel::apple::{choose_free_cell, count_free, Apple};
use snake_duel::collision::RoundOutcome;
use snake_duel::game::{Game, Phase};
use snake_duel::geom::{Cell, Dir};
use snake_duel::snake::Snake;

fn cell(x: i32, y: i32) -> Cell {
    Cell { x, y }
}

fn snake_of(cells: Vec<Cell>, dir: Dir) -> Snake {
    Snake { cells: VecDeque::from(cells), dir, last_dir: dir }
}

fn game_of(width: i32, height: i32, snake_a: Snake, snake_b: Snake) -> Game {
    Game {
        width,
        height,
        update_interval_ms: 100,
        phase: Phase::Resolving,
        snake_a,
        snake_b,
        apple: Apple::Absent,
        animations: Vec::new(),
        outcome: RoundOutcome::Continue,
    }
}

#[test]
fn count_free_counts_unoccupied_cells() {
    let occ = vec![cell(0, 0), cell(1, 1)];
    assert_eq!(count_free(2, 2, &occ), 2);
}

#[test]
fn count_free_ignores_duplicates_and_outsiders() {
    // a cell listed twice is still one occupied cell, and a cell outside
    // the grid occupies nothing
    let occ = vec![cell(0, 0), cell(0, 0), cell(5, 5)];
    assert_eq!(count_free(2, 2, &occ), 3);
}

#[test]
fn choose_free_cell_walks_in_fixed_order() {
    // walk order on a 2x2 grid: (0,0), (0,1), (1,0), (1,1)
    let occ = vec![cell(0, 0), cell(1, 1)];
    assert_eq!(choose_free_cell(2, 2, &occ, 0), cell(0, 1));
    assert_eq!(choose_free_cell(2, 2, &occ, 1), cell(1, 0));
}

#[test]
fn choose_free_cell_skips_without_consuming_draw() {
    // occupied prefix: draw 0 must land past the whole prefix
    let occ = vec![cell(0, 0), cell(0, 1), cell(0, 2)];
    assert_eq!(choose_free_cell(3, 3, &occ, 0), cell(1, 0));
    assert_eq!(choose_free_cell(3, 3, &occ, 5), cell(2, 2));
}

#[test]
fn free_cells_counts_grid_minus_bodies() {
    let a = snake_of(vec![cell(0, 0), cell(0, 1)], Dir::Right);
    let b = snake_of(vec![cell(1, 0)], Dir::Right);
    let g = game_of(2, 2, a, b);
    assert_eq!(g.free_cells(), 1);
    let empty_a = snake_of(vec![], Dir::Right);
    let empty_b = snake_of(vec![], Dir::Right);
    assert_eq!(game_of(3, 3, empty_a, empty_b).free_cells(), 9);
}

#[test]
fn ensure_apple_keeps_present_apple() {
    let a = snake_of(vec![cell(5, 5)], Dir::Right);
    let b = snake_of(vec![cell(5, 6)], Dir::Right);
    let mut g = game_of(10, 10, a, b);
    g.apple = Apple::At(cell(7, 7));
    g.ensure_apple();
    assert_eq!(g.apple, Apple::At(cell(7, 7)));
}

#[test]
fn ensure_apple_spawns_on_a_free_cell() {
    let a = snake_of(vec![cell(0, 0), cell(0, 1)], Dir::Right);
    let b = snake_of(vec![cell(1, 0)], Dir::Right);
    let mut g = game_of(2, 2, a, b);
    g.ensure_apple();
    // a single free cell is left: the spawn must take it
    assert_eq!(g.apple, Apple::At(cell(1, 1)));
}

#[test]
fn apple_eaten_mid_move_grows_the_eater() {
    let a = snake_of(vec![cell(4, 5)], Dir::Right);
    let b = snake_of(vec![cell(8, 8)], Dir::Right);
    let mut g = game_of(10, 10, a, b);
    g.apple = Apple::At(cell(5, 5));
    g.step_round();
    assert_eq!(g.apple, Apple::Absent);
    assert_eq!(g.snake_a.cells.len(), 2);
    assert_eq!(g.snake_a.cells[0], cell(5, 5));
    assert_eq!(g.snake_a.cells[1], cell(4, 5));
    assert_eq!(g.snake_b.cells.len(), 1);
}

#[test]
fn apple_tie_break_first_snake_wins() {
    // both prospective heads land on the apple: snake 0 eats, snake 1
    // does not grow; the coinciding heads then end the round in a draw
    let a = snake_of(vec![cell(4, 5)], Dir::Right);
    let b = snake_of(vec![cell(6, 5)], Dir::Left);
    let mut g = game_of(10, 10, a, b);
    g.apple = Apple::At(cell(5, 5));
    g.step_round();
    assert_eq!(g.apple, Apple::Absent);
    assert_eq!(g.snake_a.cells.len(), 2);
    assert_eq!(g.snake_b.cells.len(), 1);
    assert_eq!(g.outcome, RoundOutcome::Draw);
}

#[test]
fn resolve_tick_spawns_apple_before_moving() {
    // 1x2 grid, one snake on (0,0) heading down, nothing else: the only
    // free cell is (0,1), so the spawned apple must land there and the
    // moving snake must eat it in the same tick
    let a = snake_of(vec![cell(0, 0)], Dir::Down);
    let b = snake_of(vec![], Dir::Right);
    let mut g = game_of(1, 2, a, b);
    g.resolve_tick();
    assert_eq!(g.apple, Apple::Absent);
    assert_eq!(g.snake_a.cells.len(), 2);
    assert_eq!(g.snake_a.cells[0], cell(0, 1));
}

#[test]
fn apple_spawn_uniform_over_free_cells() {
    // fixed layout: column x = 0 of a 3x3 grid is occupied, six cells
    // stay free; across many spawns every free cell must be hit roughly
    // equally often (a statistical check, not exact equality)
    let trials = 6000;
    let mut counts = [[0u32; 3]; 3];
    for _ in 0..trials {
        let a = snake_of(vec![cell(0, 0), cell(0, 1), cell(0, 2)], Dir::Down);
        let b = snake_of(vec![], Dir::Right);
        let mut g = game_of(3, 3, a, b);
        g.ensure_apple();
        match g.apple {
            Apple::At(p) => {
                assert!(p.x >= 1, "apple spawned on an occupied cell: {:?}", p);
                counts[p.x as usize][p.y as usize] += 1;
            }
            Apple::Absent => panic!("no apple spawned"),
        }
    }
    for x in 1..3 {
        for y in 0..3 {
            let c = counts[x][y];
            // expectation 1000, allow a generous five-sigma band
            assert!(
                (800..=1200).contains(&c),
                "free cell ({}, {}) drawn {} times of {}",
                x,
                y,
                c,
                trials
            );
        }
    }
    assert_eq!(counts[0][0] + counts[0][1] + counts[0][2], 0);
}
