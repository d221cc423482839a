//! Verified core of a Tiled map integration: custom property types (their
//! export and the reading of property values), name filters, tile layer
//! walking and placement, tileset layouts, tile animations, and the pairwise
//! combination of collider shapes.
#![allow(unused_imports)]

pub mod debug;
pub mod map;
pub mod names;
pub mod physics;
pub mod properties;
pub mod text;
