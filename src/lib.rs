//! A small dungeon crawler's game logic: maze generation, tile queries,
//! sprite motion, fog of war and the per-frame session rules.

pub mod grid;
pub mod sprite;
pub mod random;
pub mod dungeon;
pub mod shadow;
pub mod game;
pub mod settings;
