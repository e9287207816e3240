//! A grid ray caster in exact fixed-point arithmetic: a bounds-checked wall
//! grid, the canonical-octant traversal that finds the first wall a ray
//! strikes, the texture atlas lookup and the column rasteriser that turns a
//! strike into ceiling, textured wall and floor pixels.

pub mod consts;
pub mod projector;
pub mod grid;
pub mod laws;
pub mod mapdump;
pub mod path;
pub mod ray;
pub mod screen;
pub mod textures;
