use bevy_ecs_tiled::map::tileset::{atlas_grid, check_atlas, collection_layout, AtlasGrid, CollectionTile, TilesetGrid};

fn tileset(tile: u32, spacing: u32, margin: u32, tilecount: u32) -> TilesetGrid {
    TilesetGrid { tile_width: tile, tile_height: tile, spacing, margin, tilecount, offset_x: 0, offset_y: 0 }
}

#[test]
fn atlas_columns_and_rows() {
    // (100 - 2 + 1) / (16 + 1) = 5 columns, 20 / 5 = 4 rows.
    assert_eq!(
        atlas_grid(100, &tileset(16, 1, 2, 20)),
        Some(AtlasGrid { tile_width: 16, tile_height: 16, columns: 5, rows: 4, padding: 1, offset_x: 2, offset_y: 2 })
    );
}

#[test]
fn image_narrower_than_a_tile_has_no_atlas() {
    assert_eq!(atlas_grid(10, &tileset(16, 0, 0, 4)), None);
}

#[test]
fn collection_offsets_follow_images() {
    let tiles = vec![
        CollectionTile { id: 3, image_size: Some((32, 32)) },
        CollectionTile { id: 5, image_size: None },
        CollectionTile { id: 8, image_size: Some((32, 32)) },
    ];
    let layout = collection_layout(&tiles);
    assert!(layout.usable_for_tiles_layer);
    assert_eq!(layout.image_offsets, vec![(3, 0), (8, 1)]);
}

#[test]
fn mixed_image_sizes_cannot_make_a_tile_layer() {
    let tiles = vec![
        CollectionTile { id: 0, image_size: Some((32, 32)) },
        CollectionTile { id: 1, image_size: Some((32, 48)) },
    ];
    let layout = collection_layout(&tiles);
    assert!(!layout.usable_for_tiles_layer);
    assert_eq!(layout.image_offsets, vec![(0, 0), (1, 1)]);
}

#[test]
fn atlas_ranges_are_checked() {
    assert!(check_atlas(100, &tileset(16, 1, 2, 20)));
    // A margin wider than the image.
    assert!(!check_atlas(10, &tileset(4, 0, 12, 1)));
    // No tile width and no spacing.
    assert!(!check_atlas(10, &tileset(0, 0, 0, 1)));
}
