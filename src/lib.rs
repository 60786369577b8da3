//! Runtime core of a 3D scene engine.
//!
//! - `space`: the transform graph, which turns parent-relative poses into
//!   absolute ones in a single forward pass; `pose` gives the poses.
//! - `render`: the render queue, which sorts draw calls through an index
//!   permutation, and the view, which turns view-space distances into
//!   integer depth keys.
//! - `scene`: places a scene description's node tree in a world.
//! - `chunk`, `counted`, `mesh`: readers of the chunked binary asset format
//!   and of the meshes stored in it.
//! - `game`: what a click on the playing field does.

pub mod chunk;
pub mod counted;
pub mod game;
pub mod mesh;
pub mod pose;
pub mod render;
pub mod scene;
pub mod space;
