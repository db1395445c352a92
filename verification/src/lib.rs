//! Core of an interactive speed-cubing practice timer: a statistics store
//! that tracks solve history, rolling averages and personal bests; a
//! constrained-random scramble generator; and the timing state machine that
//! drives inspection and solve phases.

pub mod app;
pub mod display;
pub mod scramble;
pub mod timer;
pub mod times;
pub mod turns;
pub mod window;
