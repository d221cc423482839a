use bevy_ecs_tiled::debug::{DebugPlugin, TiledDebugPluginGroup};

#[test]
fn group_holds_every_overlay_in_order() {
    assert_eq!(
        TiledDebugPluginGroup.plugins(),
        vec![DebugPlugin::Objects, DebugPlugin::Tiles, DebugPlugin::WorldChunk, DebugPlugin::Axis]
    );
}
