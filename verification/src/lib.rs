//! Frog Quest Battle: the deterministic simulation, its rollback session,
//! the input encoding and the software rasterizer of a small two-player game.

pub mod game;
pub mod geometry;
pub mod graphics;
pub mod hash;
pub mod image;
pub mod input;
pub mod local;
pub mod menu;
pub mod net;
pub mod program;
pub mod renderer;
pub mod scene;
pub mod session;
