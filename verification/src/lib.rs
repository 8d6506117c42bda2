//! A verified engine for a two-player, grid-based snake duel.
//!
//! The library holds the whole simulation: snake movement and growth,
//! apple placement, collision resolution, the end-of-round decision, and
//! the tick/animate state machine. Rendering, input and the wall clock
//! live outside and only feed plain values in.

pub mod apple;
pub mod collision;
pub mod game;
pub mod geom;
pub mod snake;
