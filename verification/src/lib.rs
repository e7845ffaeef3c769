//! Core engine for training and rendering 3D Gaussian-splat scenes.
//!
//! The engine works throughout in signed fixed-point arithmetic
//! (see [`fx`]), so that every numeric step has an exact, provable
//! meaning.

pub mod backward;
pub mod camera;
pub mod codec;
pub mod colmap;
pub mod config;
pub mod fx;
pub mod project;
pub mod refine;
pub mod render;
pub mod rng;
pub mod scene;
pub mod splats;
pub mod text;
pub mod train;
pub mod vfs;
