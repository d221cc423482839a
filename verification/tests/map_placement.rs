use bevy_ecs_tiled::map::animation::{AnimatedTileRange, Frame};
use bevy_ecs_tiled::map::placement::{place_tiles, LayerTileData, TilePlacement, TilesetTexture, TilesetTile};
use bevy_ecs_tiled::map::tiles::{IVec2, TilePos, TileVisit};

fn visit(x: u32, tileset_index: usize, id: u32) -> TileVisit<LayerTileData> {
    TileVisit {
        tile: LayerTileData { tileset_index, id, flip_h: x == 1, flip_v: false, flip_d: false },
        position: TilePos { x, y: 0 },
        index: IVec2 { x: x as i32, y: 0 },
    }
}

fn tiles() -> Vec<TilesetTile> {
    vec![
        TilesetTile { id: 1, animation: None, has_properties: true },
        TilesetTile {
            id: 2,
            animation: Some(vec![Frame { tile_id: 2, duration: 50 }, Frame { tile_id: 3, duration: 50 }]),
            has_properties: false,
        },
    ]
}

#[test]
fn only_tiles_of_the_tileset_are_placed() {
    let visits = vec![visit(0, 0, 1), visit(1, 1, 1), visit(2, 0, 2), visit(3, 0, 9)];
    let placed = place_tiles(&visits, 0, &TilesetTexture::Single, &tiles()).unwrap();
    assert_eq!(
        placed,
        vec![
            TilePlacement {
                position: TilePos { x: 0, y: 0 },
                index: IVec2 { x: 0, y: 0 },
                tile_id: 1,
                texture_index: 1,
                flip_x: false,
                flip_y: false,
                flip_d: false,
                animation: None,
                custom: true,
            },
            TilePlacement {
                position: TilePos { x: 2, y: 0 },
                index: IVec2 { x: 2, y: 0 },
                tile_id: 2,
                texture_index: 2,
                flip_x: false,
                flip_y: false,
                flip_d: false,
                animation: Some(AnimatedTileRange { start: 2, end: 4, period_ms: 100 }),
                custom: false,
            },
        ]
    );
}

#[test]
fn image_collections_use_the_stored_offsets() {
    let visits = vec![visit(1, 0, 2), visit(0, 0, 1)];
    let texture = TilesetTexture::Vector(vec![(1, 0), (2, 1)]);
    let placed = place_tiles(&visits, 0, &texture, &tiles()).unwrap();
    assert_eq!(placed.iter().map(|p| p.texture_index).collect::<Vec<_>>(), vec![1, 0]);
    assert!(placed[0].flip_x);
}

#[test]
fn missing_offsets_cannot_be_placed() {
    let visits = vec![visit(0, 0, 2)];
    let texture = TilesetTexture::Vector(vec![(1, 0)]);
    assert_eq!(place_tiles(&visits, 0, &texture, &tiles()), None);
    // A cell of another tileset needs no offset here.
    assert_eq!(place_tiles(&visits, 1, &texture, &tiles()), Some(vec![]));
}
