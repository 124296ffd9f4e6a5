//! Verified core of a small 2D arcade game: fixed-point vector math,
//! frame timers, player and collectible physics, the game-state machine,
//! and the shared leaderboard with its client sessions.
//!
//! Coordinates live in a normalized screen space where one screen
//! width or height is `math::UNIT` fixed-point units. Rendering, audio,
//! input sampling and the host boundary are callers' concerns: the
//! functions here take plain values (times in milliseconds, pointer
//! positions in units) and hand back plain values and effect flags.

pub mod client;
pub mod collectable;
pub mod game;
pub mod math;
pub mod rng;
pub mod sprite;
pub mod timer;
