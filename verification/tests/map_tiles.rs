use bevy_ecs_tiled::map::tiles::{
    check_chunks_fit, finite_layer_tiles, get_map_type, infinite_layer_tiles, map_extent, Chunk, FiniteTileLayer,
    HexCoordSystem, IVec2, InfiniteTileLayer, IsoCoordSystem, MapGrid, Orientation, StaggerAxis,
    StaggerIndex, TilePos, TilemapSize, TilemapType, CHUNK_HEIGHT, CHUNK_WIDTH,
};

fn grid(orientation: Orientation, stagger_axis: StaggerAxis, stagger_index: StaggerIndex) -> MapGrid {
    MapGrid { orientation, stagger_axis, stagger_index, width: 4, height: 3, tile_width: 16, tile_height: 16 }
}

#[test]
fn map_types() {
    assert_eq!(get_map_type(&grid(Orientation::Orthogonal, StaggerAxis::X, StaggerIndex::Odd)), TilemapType::Square);
    assert_eq!(get_map_type(&grid(Orientation::Isometric, StaggerAxis::X, StaggerIndex::Odd)), TilemapType::Isometric(IsoCoordSystem::Diamond));
    assert_eq!(get_map_type(&grid(Orientation::Hexagonal, StaggerAxis::X, StaggerIndex::Even)), TilemapType::Hexagon(HexCoordSystem::ColumnOdd));
    assert_eq!(get_map_type(&grid(Orientation::Hexagonal, StaggerAxis::X, StaggerIndex::Odd)), TilemapType::Hexagon(HexCoordSystem::ColumnEven));
    assert_eq!(get_map_type(&grid(Orientation::Hexagonal, StaggerAxis::Y, StaggerIndex::Even)), TilemapType::Hexagon(HexCoordSystem::RowOdd));
    assert_eq!(get_map_type(&grid(Orientation::Hexagonal, StaggerAxis::Y, StaggerIndex::Odd)), TilemapType::Hexagon(HexCoordSystem::RowEven));
}

#[test]
fn finite_layer_is_walked_bottom_up() {
    // 2 x 2 layer, Tiled rows from the top: [a, b] then [c, d].
    let layer = FiniteTileLayer { width: 2, height: 2, tiles: vec![Some('a'), Some('b'), Some('c'), None] };
    assert_eq!(layer.get_tile(1, 0), Some('b'));
    assert_eq!(layer.get_tile(2, 0), None);
    assert_eq!(layer.get_tile(-1, 0), None);
    let visits = finite_layer_tiles(&layer, TilemapSize { x: 2, y: 2 });
    let got: Vec<(char, TilePos, IVec2)> = visits.iter().map(|v| (v.tile, v.position, v.index)).collect();
    assert_eq!(
        got,
        vec![
            ('c', TilePos { x: 0, y: 0 }, IVec2 { x: 0, y: 1 }),
            ('a', TilePos { x: 0, y: 1 }, IVec2 { x: 0, y: 0 }),
            ('b', TilePos { x: 1, y: 1 }, IVec2 { x: 1, y: 0 }),
        ]
    );
}

#[test]
fn infinite_layer_is_shifted_to_the_top_left_chunk() {
    let mut tiles = vec![None; (CHUNK_WIDTH * CHUNK_HEIGHT) as usize];
    tiles[1 + 2 * CHUNK_WIDTH as usize] = Some(7u32);
    let layer = InfiniteTileLayer { chunks: vec![((-1, 0), Chunk { tiles })] };
    let extent = map_extent(0, 0, &vec![vec![(-1, 0)]]).unwrap();
    assert_eq!(extent.topleft_chunk, (-1, 0));
    assert_eq!(extent.bottomright_chunk, (-1, 0));
    assert_eq!(extent.tilemap_size, TilemapSize { x: CHUNK_WIDTH, y: CHUNK_HEIGHT });
    assert!(check_chunks_fit(&layer, extent.topleft_chunk, extent.tilemap_size));
    assert!(!check_chunks_fit(&layer, (0, 0), extent.tilemap_size));
    let visits = infinite_layer_tiles(&layer, extent.topleft_chunk, extent.tilemap_size);
    assert_eq!(visits.len(), 1);
    assert_eq!(visits[0].tile, 7);
    assert_eq!(visits[0].index, IVec2 { x: 1, y: 2 });
    assert_eq!(visits[0].position, TilePos { x: 1, y: CHUNK_HEIGHT - 1 - 2 });
}

#[test]
fn finite_map_keeps_its_size() {
    let extent = map_extent(30, 20, &vec![]).unwrap();
    assert!(!extent.infinite);
    assert_eq!(extent.tilemap_size, TilemapSize { x: 30, y: 20 });
    assert_eq!(extent.topleft_chunk, (0, 0));
}

#[test]
fn extent_covers_all_chunks_of_all_layers() {
    let layers = vec![vec![(2, 3), (-4, 1)], vec![(0, -2)]];
    let e = map_extent(0, 0, &layers).unwrap();
    assert_eq!(e.topleft_chunk, (-4, -2));
    assert_eq!(e.bottomright_chunk, (2, 3));
    assert_eq!(e.tilemap_size, TilemapSize { x: 7 * CHUNK_WIDTH, y: 6 * CHUNK_HEIGHT });
    for layer in &layers {
        for &(cx, cy) in layer {
            assert!(((cx - e.topleft_chunk.0 + 1) as u32) * CHUNK_WIDTH <= e.tilemap_size.x);
            assert!(((cy - e.topleft_chunk.1 + 1) as u32) * CHUNK_HEIGHT <= e.tilemap_size.y);
        }
    }
}

#[test]
fn negative_only_chunks_give_their_own_bottom_right() {
    let e = map_extent(0, 0, &vec![vec![(-3, -3), (-2, -5)]]).unwrap();
    assert_eq!(e.topleft_chunk, (-3, -5));
    assert_eq!(e.bottomright_chunk, (-2, -3));
    assert_eq!(e.tilemap_size, TilemapSize { x: 2 * CHUNK_WIDTH, y: 3 * CHUNK_HEIGHT });
}

#[test]
fn single_negative_chunk_spans_one_chunk() {
    let e = map_extent(0, 0, &vec![vec![(-2, -3)]]).unwrap();
    assert_eq!(e.topleft_chunk, (-2, -3));
    assert_eq!(e.bottomright_chunk, (-2, -3));
    assert_eq!(e.tilemap_size, TilemapSize { x: CHUNK_WIDTH, y: CHUNK_HEIGHT });
}

#[test]
fn infinite_layers_without_chunks_are_refused() {
    assert!(map_extent(0, 0, &vec![vec![]]).is_none());
}

#[test]
fn oversized_extent_is_refused() {
    assert!(map_extent(0, 0, &vec![vec![(i32::MIN, 0), (i32::MAX, 0)]]).is_none());
    assert!(map_extent(0, 0, &vec![vec![(0, 0), (0x1000_0000, 0)]]).is_none());
}
