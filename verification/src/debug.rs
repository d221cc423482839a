//! The debug plugins: overlays for objects, tiles, world chunks and axes.
use vstd::prelude::*;

verus! {

/// A debug overlay.
#[derive(Copy, Clone, Debug, PartialEq, Eq, Structural)]
pub enum DebugPlugin {
    /// Object positions and shapes.
    Objects,
    /// Tile coordinates.
    Tiles,
    /// World chunk outlines.
    WorldChunk,
    /// The world origin axes.
    Axis,
}

/// Every debug overlay, as one group.
#[derive(Copy, Clone, Debug, Default)]
pub struct TiledDebugPluginGroup;

impl TiledDebugPluginGroup {
    /// The overlays of the group, in the order they are added, each with its
    /// default settings.
    pub fn plugins(&self) -> (r: Vec<DebugPlugin>)
        ensures
            r@ == seq![DebugPlugin::Objects, DebugPlugin::Tiles, DebugPlugin::WorldChunk, DebugPlugin::Axis],
    {
        let r = vec![DebugPlugin::Objects, DebugPlugin::Tiles, DebugPlugin::WorldChunk, DebugPlugin::Axis];
        assert(r@ =~= seq![DebugPlugin::Objects, DebugPlugin::Tiles, DebugPlugin::WorldChunk, DebugPlugin::Axis]);
        r
    }
}

} // verus!
