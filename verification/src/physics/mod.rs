//! Physics helpers for Tiled maps.

pub mod geometry;
