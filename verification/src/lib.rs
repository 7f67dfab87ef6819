//! Verified core of a tarot-themed grid raycaster: level parsing and
//! reachability, procedural texture buffers, sprite frames, game
//! progression, audio framing and menu decisions.

pub mod textures;
pub mod level;
pub mod sprites;
pub mod game;
pub mod audio;
pub mod raycast;
pub mod ui;
pub mod controls;
