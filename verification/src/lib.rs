//! A software rasterizer for character-cell displays.
//!
//! Triangles arrive already projected to integer screen coordinates, together
//! with a fixed-point depth plane and a flat intensity. The library decides
//! which cells each triangle covers, resolves visibility through a depth
//! buffer, and turns the finished frame into rows of glyphs.

pub mod bounds;
pub mod canvas;
pub mod edge;
pub mod glyph;
pub mod mesh;
pub mod pacing;
pub mod raster;
pub mod scene;
pub mod shade;
pub mod viewport;
