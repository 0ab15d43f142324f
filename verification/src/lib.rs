//! A two-player arena game on a bounded grid: the world of entities, the
//! systems that advance it one tick at a time, and the byte formats that
//! carry its state to remote controllers and their commands back.

pub mod bot;
pub mod dir;
pub mod entity;
pub mod factory;
pub mod game;
pub mod input;
pub mod laws;
pub mod layout;
pub mod pos;
pub mod protocol;
pub mod scenario;
pub mod setup;
pub mod systems;
pub mod text;
pub mod weapon;
pub mod world;
