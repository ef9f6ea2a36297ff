//! Verified core of a small spaceship roguelike: grid vectors, the tile map,
//! path finding, movement blocking, ship layout building and the decision
//! logic behind the menus and the player's input.

pub mod vectors;
pub mod map;
pub mod entities;
pub mod systems;
pub mod rng;
pub mod map_builders;
pub mod camera;
pub mod states;
pub mod gui;
pub mod menu;
pub mod player;
pub mod spawner;
pub mod wiring;
pub mod ducting;
pub mod save_load_system;
pub mod colors;
