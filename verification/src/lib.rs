//! The verified core of a small Space Invaders game: the discrete decisions of
//! pixel-mask collision, the shooting rounds, the enemy formation and screen
//! routing. Floating-point geometry, drawing and input live in the
//! application around this library.

pub mod collision;
pub mod enemy;
pub mod player;
pub mod game;
pub mod screens;
