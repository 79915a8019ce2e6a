//! The core of a small 2D game engine: an entity-component world with one
//! table per component type, and the game state that simulates and draws it.

pub mod storage;
pub mod components;
pub mod world;
pub mod engine;
