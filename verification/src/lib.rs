//! Game rules of a networked "Maze Wars" style shooter: the arena map,
//! player movement and rotation, shooting along a corridor, spawn points,
//! keyboard input buffering, the server's client registry, and the reading
//! of the terminal input that configures a session.

pub mod client;
pub mod config;
pub mod info;
pub mod keyboard;
pub mod level;
pub mod protocol;
pub mod server;
pub mod shared;
