//! Tiled maps: tilemap kinds, tile iteration, extents, tilesets and
//! animations.

pub mod animation;
pub mod placement;
pub mod tiles;
pub mod tileset;
