//! Tiled custom properties: the JSON project file types and the type export.

pub mod export;
pub mod import;
pub mod load;
pub mod map;
pub mod reflect;
pub mod value;
