//! Tilemap kinds and the mapping of Tiled tile coordinates to tilemap
//! positions.
use vstd::prelude::*;

verus! {

/// Orientation of a Tiled map.
#[derive(Copy, Clone, Debug, PartialEq, Eq, Structural)]
pub enum Orientation {
    Orthogonal,
    Isometric,
    Staggered,
    Hexagonal,
}

/// Stagger axis of a staggered or hexagonal map.
#[derive(Copy, Clone, Debug, PartialEq, Eq, Structural)]
pub enum StaggerAxis {
    X,
    Y,
}

/// Which rows or columns of a staggered or hexagonal map are shifted.
#[derive(Copy, Clone, Debug, PartialEq, Eq, Structural)]
pub enum StaggerIndex {
    Even,
    Odd,
}

/// Coordinate systems of hexagonal tilemaps.
#[derive(Copy, Clone, Debug, PartialEq, Eq, Structural)]
pub enum HexCoordSystem {
    RowEven,
    RowOdd,
    ColumnEven,
    ColumnOdd,
    Row,
    Column,
}

/// Coordinate systems of isometric tilemaps.
#[derive(Copy, Clone, Debug, PartialEq, Eq, Structural)]
pub enum IsoCoordSystem {
    Diamond,
    Staggered,
}

/// Kind of a tilemap grid.
#[derive(Copy, Clone, Debug, PartialEq, Eq, Structural)]
pub enum TilemapType {
    Square,
    Hexagon(HexCoordSystem),
    Isometric(IsoCoordSystem),
}

/// The layout parameters of a Tiled map.
#[derive(Copy, Clone, Debug, PartialEq, Eq, Structural)]
pub struct MapGrid {
    pub orientation: Orientation,
    pub stagger_axis: StaggerAxis,
    pub stagger_index: StaggerIndex,
    pub width: u32,
    pub height: u32,
    pub tile_width: u32,
    pub tile_height: u32,
}

/// The tilemap kind of a map layout.
pub open spec fn spec_map_type(map: MapGrid) -> TilemapType {
    match map.orientation {
        Orientation::Orthogonal => TilemapType::Square,
        Orientation::Hexagonal => match (map.stagger_axis, map.stagger_index) {
            (StaggerAxis::X, StaggerIndex::Even) => TilemapType::Hexagon(HexCoordSystem::ColumnOdd),
            (StaggerAxis::X, StaggerIndex::Odd) => TilemapType::Hexagon(HexCoordSystem::ColumnEven),
            (StaggerAxis::Y, StaggerIndex::Even) => TilemapType::Hexagon(HexCoordSystem::RowOdd),
            (StaggerAxis::Y, StaggerIndex::Odd) => TilemapType::Hexagon(HexCoordSystem::RowEven),
        },
        _ => TilemapType::Isometric(IsoCoordSystem::Diamond),
    }
}

/// The tilemap kind matching a map's orientation. Staggered isometric maps
/// are not supported.
pub fn get_map_type(map: &MapGrid) -> (r: TilemapType)
    requires
        map.orientation != Orientation::Staggered,
    ensures
        r == spec_map_type(*map),
{
    match map.orientation {
        Orientation::Orthogonal => TilemapType::Square,
        Orientation::Hexagonal => match (map.stagger_axis, map.stagger_index) {
            (StaggerAxis::X, StaggerIndex::Even) => TilemapType::Hexagon(HexCoordSystem::ColumnOdd),
            (StaggerAxis::X, StaggerIndex::Odd) => TilemapType::Hexagon(HexCoordSystem::ColumnEven),
            (StaggerAxis::Y, StaggerIndex::Even) => TilemapType::Hexagon(HexCoordSystem::RowOdd),
            (StaggerAxis::Y, StaggerIndex::Odd) => TilemapType::Hexagon(HexCoordSystem::RowEven),
        },
        Orientation::Isometric => TilemapType::Isometric(IsoCoordSystem::Diamond),
        Orientation::Staggered => TilemapType::Isometric(IsoCoordSystem::Staggered),
    }
}

/// The tilemap kind of a map: square for an orthogonal map, a diamond
/// isometric map for an isometric one, and for a hexagonal one a hexagonal
/// map whose columns are staggered when its stagger axis is `X` (rows
/// otherwise), with the odd ones shifted when the even ones are in Tiled's
/// terms (Tiled and the tilemap count from opposite ends).
pub proof fn lemma_map_type_kinds(map: MapGrid)
    ensures
        map.orientation == Orientation::Orthogonal ==> spec_map_type(map) == TilemapType::Square,
        map.orientation == Orientation::Isometric ==> spec_map_type(map) == TilemapType::Isometric(IsoCoordSystem::Diamond),
        map.orientation == Orientation::Hexagonal ==> {
            &&& spec_map_type(map) is Hexagon
            &&& ((spec_map_type(map) == TilemapType::Hexagon(HexCoordSystem::ColumnOdd)
                || spec_map_type(map) == TilemapType::Hexagon(HexCoordSystem::ColumnEven)) <==> map.stagger_axis == StaggerAxis::X)
            &&& ((spec_map_type(map) == TilemapType::Hexagon(HexCoordSystem::ColumnOdd)
                || spec_map_type(map) == TilemapType::Hexagon(HexCoordSystem::RowOdd)) <==> map.stagger_index == StaggerIndex::Even)
        },
{
}

/// Size of a tilemap, in tiles.
#[derive(Copy, Clone, Debug, PartialEq, Eq, Structural)]
pub struct TilemapSize {
    pub x: u32,
    pub y: u32,
}

/// Position of a tile in a tilemap (origin at the bottom left).
#[derive(Copy, Clone, Debug, PartialEq, Eq, Structural)]
pub struct TilePos {
    pub x: u32,
    pub y: u32,
}

/// Tile coordinates as Tiled has them (origin at the top left).
#[derive(Copy, Clone, Debug, PartialEq, Eq, Structural)]
pub struct IVec2 {
    pub x: i32,
    pub y: i32,
}

/// A tile met while walking a layer: its data, its tilemap position and its
/// Tiled coordinates (in an infinite layer, counted from the first tile of
/// the map's top-left chunk, as the chunks are shifted).
#[derive(Copy, Clone, Debug, PartialEq, Eq)]
pub struct TileVisit<T> {
    pub tile: T,
    pub position: TilePos,
    pub index: IVec2,
}

/// A tile layer with fixed bounds; tiles stored row after row.
#[derive(Clone, Debug, PartialEq, Eq)]
pub struct FiniteTileLayer<T> {
    pub width: u32,
    pub height: u32,
    pub tiles: Vec<Option<T>>,
}

impl<T> FiniteTileLayer<T> {
    pub open spec fn wf(&self) -> bool {
        self.tiles@.len() == self.width * self.height && self.width <= i32::MAX && self.height <= i32::MAX
    }

    /// The tile at Tiled coordinates `(x, y)`, if any.
    pub open spec fn spec_tile(&self, x: int, y: int) -> Option<T> {
        if 0 <= x < self.width && 0 <= y < self.height {
            self.tiles@[x + y * self.width]
        } else {
            None
        }
    }
}

impl<T: Copy> FiniteTileLayer<T> {
    /// The tile at Tiled coordinates `(x, y)`, if any.
    pub fn get_tile(&self, x: i32, y: i32) -> (r: Option<T>)
        requires
            self.wf(),
        ensures
            r == self.spec_tile(x as int, y as int),
    {
        if x >= 0 && y >= 0 && (x as u32) < self.width && (y as u32) < self.height {
            let n = self.tiles.len();
            proof {
                assert(0 <= y * self.width <= y * self.width + x < self.width * self.height) by (nonlinear_arith)
                    requires 0 <= x < self.width, 0 <= y < self.height;
            }
            let row = (y as usize) * (self.width as usize);
            self.tiles[(x as usize) + row]
        } else {
            None
        }
    }
}

/// The visit of tilemap position `(x, y)` of a finite layer: Tiled counts
/// rows from the top, the tilemap from the bottom.
pub open spec fn finite_cell_visits<T>(layer: FiniteTileLayer<T>, size: TilemapSize, x: int, y: int) -> Seq<TileVisit<T>> {
    let mapped_y = size.y - 1 - y;
    match layer.spec_tile(x, mapped_y) {
        Some(t) => seq![TileVisit { tile: t, position: TilePos { x: x as u32, y: y as u32 }, index: IVec2 { x: x as i32, y: mapped_y as i32 } }],
        None => Seq::empty(),
    }
}

/// The visits of column `x`, for its first `ny` rows.
pub open spec fn finite_column_visits<T>(layer: FiniteTileLayer<T>, size: TilemapSize, x: int, ny: int) -> Seq<TileVisit<T>>
    decreases ny,
{
    if ny <= 0 {
        Seq::empty()
    } else {
        finite_column_visits(layer, size, x, ny - 1) + finite_cell_visits(layer, size, x, ny - 1)
    }
}

/// The visits of the first `nx` columns.
pub open spec fn finite_visits<T>(layer: FiniteTileLayer<T>, size: TilemapSize, nx: int) -> Seq<TileVisit<T>>
    decreases nx,
{
    if nx <= 0 {
        Seq::empty()
    } else {
        finite_visits(layer, size, nx - 1) + finite_column_visits(layer, size, nx - 1, size.y as int)
    }
}

/// `v` visits cell `(x, y)` (Tiled coordinates, rows from the top) of a
/// finite layer within a tilemap of size `size`: the cell lies in the layer
/// and the tilemap and holds `v`'s tile, `v`'s Tiled coordinates are the
/// cell's, and its tilemap position has the same column and the row counted
/// from the bottom.
pub open spec fn visits_finite_cell<T>(v: TileVisit<T>, layer: FiniteTileLayer<T>, size: TilemapSize, x: int, y: int) -> bool {
    &&& 0 <= x < layer.width
    &&& 0 <= y < layer.height
    &&& x < size.x
    &&& y < size.y
    &&& layer.tiles@[x + y * layer.width] == Some(v.tile)
    &&& v.index.x == x
    &&& v.index.y == y
    &&& v.position.x == x
    &&& v.position.y == size.y - 1 - y
}

/// `v` visits some cell of the finite layer in the first `nx` columns and,
/// when `rows` is given as `(x0, ny)`, of column `x0` only among the cells
/// of the `ny` bottom rows of the tilemap.
pub open spec fn visits_finite_column<T>(v: TileVisit<T>, layer: FiniteTileLayer<T>, size: TilemapSize, x0: int, ny: int) -> bool {
    exists|y: int| size.y - ny <= y && #[trigger] visits_finite_cell(v, layer, size, x0, y)
}

/// `v` visits some cell of the finite layer in the first `nx` columns.
pub open spec fn visits_finite_some<T>(v: TileVisit<T>, layer: FiniteTileLayer<T>, size: TilemapSize, nx: int) -> bool {
    exists|x: int, y: int| x < nx && #[trigger] visits_finite_cell(v, layer, size, x, y)
}

#[verifier::rlimit(60)]
proof fn lemma_finite_column_cells<T>(layer: FiniteTileLayer<T>, size: TilemapSize, x0: int, ny: int)
    requires
        layer.wf(),
        0 <= x0 < size.x,
        0 <= ny <= size.y,
    ensures
        forall|i: int| 0 <= i < finite_column_visits(layer, size, x0, ny).len() ==>
            #[trigger] visits_finite_column(finite_column_visits(layer, size, x0, ny)[i], layer, size, x0, ny),
        forall|y: int| size.y - ny <= y < size.y && 0 <= y < layer.height && x0 < layer.width
            && (#[trigger] layer.tiles@[x0 + y * layer.width]) is Some ==>
            exists|i: int| 0 <= i < finite_column_visits(layer, size, x0, ny).len()
                && visits_finite_cell(finite_column_visits(layer, size, x0, ny)[i], layer, size, x0, y),
    decreases ny,
{
    if ny > 0 {
        lemma_finite_column_cells(layer, size, x0, ny - 1);
        let a = finite_column_visits(layer, size, x0, ny - 1);
        let b = finite_cell_visits(layer, size, x0, ny - 1);
        assert(finite_column_visits(layer, size, x0, ny) =~= a + b);
        let my = size.y - 1 - (ny - 1);
        if b.len() > 0 {
            assert(visits_finite_cell(b[0], layer, size, x0, my));
        }
        assert forall|i: int| 0 <= i < finite_column_visits(layer, size, x0, ny).len() implies
            #[trigger] visits_finite_column(finite_column_visits(layer, size, x0, ny)[i], layer, size, x0, ny) by {
            if i < a.len() {
                assert(visits_finite_column(a[i], layer, size, x0, ny - 1));
                let y = choose|y: int| size.y - (ny - 1) <= y && #[trigger] visits_finite_cell(a[i], layer, size, x0, y);
                assert(visits_finite_cell(finite_column_visits(layer, size, x0, ny)[i], layer, size, x0, y));
            } else {
                assert(finite_column_visits(layer, size, x0, ny)[i] == b[i - a.len()]);
                assert(visits_finite_cell(finite_column_visits(layer, size, x0, ny)[i], layer, size, x0, my));
            }
        }
        assert forall|y: int| size.y - ny <= y < size.y && 0 <= y < layer.height && x0 < layer.width
            && (#[trigger] layer.tiles@[x0 + y * layer.width]) is Some implies
            exists|i: int| 0 <= i < finite_column_visits(layer, size, x0, ny).len()
                && visits_finite_cell(finite_column_visits(layer, size, x0, ny)[i], layer, size, x0, y) by {
            if y > my {
                let i = choose|i: int| 0 <= i < a.len() && visits_finite_cell(a[i], layer, size, x0, y);
                assert(finite_column_visits(layer, size, x0, ny)[i] == a[i]);
            } else {
                assert(layer.spec_tile(x0, y) == layer.tiles@[x0 + y * layer.width]);
                assert(finite_column_visits(layer, size, x0, ny)[a.len() as int] == b[0]);
            }
        }
    }
}

#[verifier::rlimit(60)]
proof fn lemma_finite_cells<T>(layer: FiniteTileLayer<T>, size: TilemapSize, nx: int)
    requires
        layer.wf(),
        0 <= nx <= size.x,
    ensures
        forall|i: int| 0 <= i < finite_visits(layer, size, nx).len() ==>
            #[trigger] visits_finite_some(finite_visits(layer, size, nx)[i], layer, size, nx),
        forall|x: int, y: int| 0 <= x < nx && 0 <= y < size.y && 0 <= y < layer.height && x < layer.width
            && (#[trigger] layer.tiles@[x + y * layer.width]) is Some ==>
            exists|i: int| 0 <= i < finite_visits(layer, size, nx).len()
                && visits_finite_cell(finite_visits(layer, size, nx)[i], layer, size, x, y),
    decreases nx,
{
    if nx > 0 {
        let x0 = nx - 1;
        lemma_finite_cells(layer, size, nx - 1);
        lemma_finite_column_cells(layer, size, x0, size.y as int);
        let a = finite_visits(layer, size, nx - 1);
        let b = finite_column_visits(layer, size, x0, size.y as int);
        assert(finite_visits(layer, size, nx) =~= a + b);
        assert forall|i: int| 0 <= i < finite_visits(layer, size, nx).len() implies
            #[trigger] visits_finite_some(finite_visits(layer, size, nx)[i], layer, size, nx) by {
            if i < a.len() {
                assert(visits_finite_some(a[i], layer, size, nx - 1));
                let (x, y) = choose|x: int, y: int| x < nx - 1 && #[trigger] visits_finite_cell(a[i], layer, size, x, y);
                assert(visits_finite_cell(finite_visits(layer, size, nx)[i], layer, size, x, y));
            } else {
                let j = i - a.len();
                assert(finite_visits(layer, size, nx)[i] == b[j]);
                assert(visits_finite_column(b[j], layer, size, x0, size.y as int));
                let y = choose|y: int| size.y - size.y <= y && #[trigger] visits_finite_cell(b[j], layer, size, x0, y);
                assert(visits_finite_cell(finite_visits(layer, size, nx)[i], layer, size, x0, y));
            }
        }
        assert forall|x: int, y: int| 0 <= x < nx && 0 <= y < size.y && 0 <= y < layer.height && x < layer.width
            && (#[trigger] layer.tiles@[x + y * layer.width]) is Some implies
            exists|i: int| 0 <= i < finite_visits(layer, size, nx).len()
                && visits_finite_cell(finite_visits(layer, size, nx)[i], layer, size, x, y) by {
            if x < nx - 1 {
                let i = choose|i: int| 0 <= i < a.len() && visits_finite_cell(a[i], layer, size, x, y);
                assert(finite_visits(layer, size, nx)[i] == a[i]);
            } else {
                let j = choose|j: int| 0 <= j < b.len() && visits_finite_cell(b[j], layer, size, x0, y);
                assert(finite_visits(layer, size, nx)[a.len() + j] == b[j]);
            }
        }
    }
}

/// Walking a finite layer visits exactly its tiles within the tilemap:
/// every visit is of a cell `(x, y)` holding a tile, at Tiled coordinates
/// `(x, y)` and tilemap position `(x, size.y - 1 - y)` (see
/// [`visits_finite_cell`]); and every cell holding a tile that lies within
/// the tilemap is visited so.
pub proof fn lemma_finite_layer_visits<T>(layer: FiniteTileLayer<T>, size: TilemapSize)
    requires
        layer.wf(),
    ensures
        forall|i: int| 0 <= i < finite_visits(layer, size, size.x as int).len() ==>
            #[trigger] visits_finite_some(finite_visits(layer, size, size.x as int)[i], layer, size, size.x as int),
        forall|x: int, y: int| 0 <= x < size.x && 0 <= y < size.y && 0 <= y < layer.height && x < layer.width
            && (#[trigger] layer.tiles@[x + y * layer.width]) is Some ==>
            exists|i: int| 0 <= i < finite_visits(layer, size, size.x as int).len()
                && visits_finite_cell(finite_visits(layer, size, size.x as int)[i], layer, size, x, y),
{
    lemma_finite_cells(layer, size, size.x as int);
}

/// Every tile of a finite layer, column by column from the left and, in a
/// column, from the bottom of the tilemap up.
pub fn finite_layer_tiles<T: Copy>(layer: &FiniteTileLayer<T>, size: TilemapSize) -> (r: Vec<TileVisit<T>>)
    requires
        layer.wf(),
    ensures
        r@ == finite_visits(*layer, size, size.x as int),
{
    let mut out: Vec<TileVisit<T>> = Vec::new();
    let mut x: u32 = 0;
    while x < size.x
        invariant
            layer.wf(),
            x <= size.x,
            out@ == finite_visits(*layer, size, x as int),
        decreases size.x - x,
    {
        let mut y: u32 = 0;
        while y < size.y
            invariant
                layer.wf(),
                x < size.x,
                y <= size.y,
                out@ == finite_visits(*layer, size, x as int) + finite_column_visits(*layer, size, x as int, y as int),
            decreases size.y - y,
        {
            let mapped_y = size.y - 1 - y;
            let ghost before = out@;
            // Coordinates beyond the `i32` range lie outside every layer.
            let cell = if x <= i32::MAX as u32 && mapped_y <= i32::MAX as u32 {
                layer.get_tile(x as i32, mapped_y as i32)
            } else {
                None
            };
            match cell {
                Some(t) => {
                    out.push(TileVisit { tile: t, position: TilePos { x, y }, index: IVec2 { x: x as i32, y: mapped_y as i32 } });
                },
                None => {},
            }
            assert(out@ =~= finite_visits(*layer, size, x as int) + finite_column_visits(*layer, size, x as int, y + 1));
            y = y + 1;
        }
        assert(out@ =~= finite_visits(*layer, size, x + 1));
        x = x + 1;
    }
    out
}


/// Width of a chunk of an infinite layer, in tiles.
pub const CHUNK_WIDTH: u32 = 16;

/// Height of a chunk of an infinite layer, in tiles.
pub const CHUNK_HEIGHT: u32 = 16;

/// A chunk of an infinite layer: `CHUNK_WIDTH` x `CHUNK_HEIGHT` tiles stored
/// row after row.
#[derive(Clone, Debug, PartialEq, Eq)]
pub struct Chunk<T> {
    pub tiles: Vec<Option<T>>,
}

impl<T> Chunk<T> {
    pub open spec fn wf(&self) -> bool {
        self.tiles@.len() == CHUNK_WIDTH * CHUNK_HEIGHT
    }

    /// The tile at chunk coordinates `(x, y)`.
    pub open spec fn spec_tile(&self, x: int, y: int) -> Option<T> {
        if 0 <= x < CHUNK_WIDTH && 0 <= y < CHUNK_HEIGHT {
            self.tiles@[x + y * CHUNK_WIDTH]
        } else {
            None
        }
    }
}

/// A tile layer without fixed bounds: chunks with their chunk coordinates.
#[derive(Clone, Debug, PartialEq, Eq)]
pub struct InfiniteTileLayer<T> {
    pub chunks: Vec<((i32, i32), Chunk<T>)>,
}

/// Every chunk is well formed and, once shifted so that `topleft` becomes
/// `(0, 0)`, lies within the tilemap and the `i32` range.
pub open spec fn chunks_fit<T>(chunks: Seq<((i32, i32), Chunk<T>)>, topleft: (i32, i32), size: TilemapSize) -> bool {
    forall|k: int| 0 <= k < chunks.len() ==> {
        let ((cx, cy), c) = #[trigger] chunks[k];
        &&& c.wf()
        &&& topleft.0 <= cx
        &&& topleft.1 <= cy
        &&& (cx - topleft.0) * CHUNK_WIDTH + CHUNK_WIDTH <= i32::MAX
        &&& (cy - topleft.1) * CHUNK_HEIGHT + CHUNK_HEIGHT <= size.y
        &&& (cy - topleft.1) * CHUNK_HEIGHT + CHUNK_HEIGHT <= i32::MAX
    }
}

/// The visit of cell `(x, y)` of the chunk at `pos`.
pub open spec fn chunk_cell_visits<T>(pos: (i32, i32), c: Chunk<T>, topleft: (i32, i32), size: TilemapSize, x: int, y: int) -> Seq<TileVisit<T>> {
    let ix = (pos.0 - topleft.0) * CHUNK_WIDTH + x;
    let iy = (pos.1 - topleft.1) * CHUNK_HEIGHT + y;
    match c.spec_tile(x, y) {
        Some(t) => seq![TileVisit {
            tile: t,
            position: TilePos { x: ix as u32, y: (size.y - 1 - iy) as u32 },
            index: IVec2 { x: ix as i32, y: iy as i32 },
        }],
        None => Seq::empty(),
    }
}

/// The visits of column `x` of a chunk, for its first `ny` cells.
pub open spec fn chunk_column_visits<T>(pos: (i32, i32), c: Chunk<T>, topleft: (i32, i32), size: TilemapSize, x: int, ny: int) -> Seq<TileVisit<T>>
    decreases ny,
{
    if ny <= 0 {
        Seq::empty()
    } else {
        chunk_column_visits(pos, c, topleft, size, x, ny - 1) + chunk_cell_visits(pos, c, topleft, size, x, ny - 1)
    }
}

/// The visits of the first `nx` columns of a chunk.
pub open spec fn chunk_visits<T>(pos: (i32, i32), c: Chunk<T>, topleft: (i32, i32), size: TilemapSize, nx: int) -> Seq<TileVisit<T>>
    decreases nx,
{
    if nx <= 0 {
        Seq::empty()
    } else {
        chunk_visits(pos, c, topleft, size, nx - 1) + chunk_column_visits(pos, c, topleft, size, nx - 1, CHUNK_HEIGHT as int)
    }
}

/// The visits of the first `n` chunks.
pub open spec fn infinite_visits<T>(chunks: Seq<((i32, i32), Chunk<T>)>, topleft: (i32, i32), size: TilemapSize, n: int) -> Seq<TileVisit<T>>
    decreases n,
{
    if n <= 0 || n > chunks.len() {
        Seq::empty()
    } else {
        infinite_visits(chunks, topleft, size, n - 1)
            + chunk_visits(chunks[n - 1].0, chunks[n - 1].1, topleft, size, CHUNK_WIDTH as int)
    }
}

/// `v` visits cell `(x, y)` of the chunk `c` at chunk coordinates `pos`:
/// it carries the cell's tile, its Tiled coordinates are the cell's, counted
/// from the first tile of the chunk `topleft`, and its tilemap position has
/// the same column and the row counted from the bottom of the tilemap.
pub open spec fn visits_chunk_cell<T>(v: TileVisit<T>, pos: (i32, i32), c: Chunk<T>, topleft: (i32, i32), size: TilemapSize, x: int, y: int) -> bool {
    &&& 0 <= x < CHUNK_WIDTH
    &&& 0 <= y < CHUNK_HEIGHT
    &&& c.tiles@[x + y * CHUNK_WIDTH] == Some(v.tile)
    &&& v.index.x == (pos.0 - topleft.0) * CHUNK_WIDTH + x
    &&& v.index.y == (pos.1 - topleft.1) * CHUNK_HEIGHT + y
    &&& v.position.x == v.index.x
    &&& v.position.y == size.y - 1 - v.index.y
}

/// `v` visits a cell of column `x` of the chunk, among its first `ny` rows.
pub open spec fn visits_column_cell<T>(v: TileVisit<T>, pos: (i32, i32), c: Chunk<T>, topleft: (i32, i32), size: TilemapSize, x: int, ny: int) -> bool {
    exists|y: int| 0 <= y < ny && #[trigger] visits_chunk_cell(v, pos, c, topleft, size, x, y)
}

/// `v` visits a cell of the first `nx` columns of the chunk.
pub open spec fn visits_some_chunk_cell<T>(v: TileVisit<T>, pos: (i32, i32), c: Chunk<T>, topleft: (i32, i32), size: TilemapSize, nx: int) -> bool {
    exists|x: int, y: int| 0 <= x < nx && #[trigger] visits_chunk_cell(v, pos, c, topleft, size, x, y)
}

/// `v` visits a cell of one of the first `n` chunks.
pub open spec fn visits_layer_cell<T>(v: TileVisit<T>, chunks: Seq<((i32, i32), Chunk<T>)>, topleft: (i32, i32), size: TilemapSize, n: int) -> bool {
    exists|k: int, x: int, y: int| 0 <= k < n && #[trigger] visits_chunk_cell(v, chunks[k].0, chunks[k].1, topleft, size, x, y)
}

/// The chunk at `pos` fits once shifted by `topleft` (one chunk of
/// [`chunks_fit`]).
pub open spec fn chunk_fits<T>(pos: (i32, i32), c: Chunk<T>, topleft: (i32, i32), size: TilemapSize) -> bool {
    &&& c.wf()
    &&& topleft.0 <= pos.0
    &&& topleft.1 <= pos.1
    &&& (pos.0 - topleft.0) * CHUNK_WIDTH + CHUNK_WIDTH <= i32::MAX
    &&& (pos.1 - topleft.1) * CHUNK_HEIGHT + CHUNK_HEIGHT <= size.y
    &&& (pos.1 - topleft.1) * CHUNK_HEIGHT + CHUNK_HEIGHT <= i32::MAX
}

#[verifier::rlimit(60)]
proof fn lemma_chunk_column_cells<T>(pos: (i32, i32), c: Chunk<T>, topleft: (i32, i32), size: TilemapSize, x: int, ny: int)
    requires
        chunk_fits(pos, c, topleft, size),
        0 <= x < CHUNK_WIDTH,
        0 <= ny <= CHUNK_HEIGHT,
    ensures
        ({
            let vs = chunk_column_visits(pos, c, topleft, size, x, ny);
            &&& forall|i: int| 0 <= i < vs.len() ==> #[trigger] visits_column_cell(vs[i], pos, c, topleft, size, x, ny)
            &&& forall|y: int| 0 <= y < ny && (#[trigger] c.tiles@[x + y * CHUNK_WIDTH]) is Some ==>
                exists|i: int| 0 <= i < vs.len() && visits_chunk_cell(vs[i], pos, c, topleft, size, x, y)
        }),
    decreases ny,
{
    if ny > 0 {
        lemma_chunk_column_cells(pos, c, topleft, size, x, ny - 1);
        let a = chunk_column_visits(pos, c, topleft, size, x, ny - 1);
        let b = chunk_cell_visits(pos, c, topleft, size, x, ny - 1);
        assert(chunk_column_visits(pos, c, topleft, size, x, ny) =~= a + b);
        let y0 = ny - 1;
        if b.len() > 0 {
            assert(visits_chunk_cell(b[0], pos, c, topleft, size, x, y0));
        }
        assert forall|i: int| 0 <= i < chunk_column_visits(pos, c, topleft, size, x, ny).len() implies #[trigger] visits_column_cell(chunk_column_visits(pos, c, topleft, size, x, ny)[i], pos, c, topleft, size, x, ny) by {
            if i < a.len() {
                assert(chunk_column_visits(pos, c, topleft, size, x, ny)[i] == a[i]);
                assert(visits_column_cell(a[i], pos, c, topleft, size, x, ny - 1));
                let y = choose|y: int| 0 <= y < ny - 1 && #[trigger] visits_chunk_cell(a[i], pos, c, topleft, size, x, y);
                assert(visits_chunk_cell(chunk_column_visits(pos, c, topleft, size, x, ny)[i], pos, c, topleft, size, x, y));
            } else {
                assert(chunk_column_visits(pos, c, topleft, size, x, ny)[i] == b[i - a.len()]);
                assert(visits_chunk_cell(chunk_column_visits(pos, c, topleft, size, x, ny)[i], pos, c, topleft, size, x, y0));
            }
        }
        assert forall|y: int| 0 <= y < ny && (#[trigger] c.tiles@[x + y * CHUNK_WIDTH]) is Some implies
            exists|i: int| 0 <= i < chunk_column_visits(pos, c, topleft, size, x, ny).len() && visits_chunk_cell(chunk_column_visits(pos, c, topleft, size, x, ny)[i], pos, c, topleft, size, x, y) by {
            if y < ny - 1 {
                let i = choose|i: int| 0 <= i < a.len() && visits_chunk_cell(a[i], pos, c, topleft, size, x, y);
                assert(chunk_column_visits(pos, c, topleft, size, x, ny)[i] == a[i]);
            } else {
                assert(c.spec_tile(x, y) == c.tiles@[x + y * CHUNK_WIDTH]);
                assert(chunk_column_visits(pos, c, topleft, size, x, ny)[a.len() as int] == b[0]);
            }
        }
    } else {
        assert(chunk_column_visits(pos, c, topleft, size, x, ny).len() == 0);
    }
}

#[verifier::rlimit(60)]
proof fn lemma_chunk_cells<T>(pos: (i32, i32), c: Chunk<T>, topleft: (i32, i32), size: TilemapSize, nx: int)
    requires
        chunk_fits(pos, c, topleft, size),
        0 <= nx <= CHUNK_WIDTH,
    ensures
        ({
            let vs = chunk_visits(pos, c, topleft, size, nx);
            &&& forall|i: int| 0 <= i < vs.len() ==> #[trigger] visits_some_chunk_cell(vs[i], pos, c, topleft, size, nx)
            &&& forall|x: int, y: int| 0 <= x < nx && 0 <= y < CHUNK_HEIGHT && (#[trigger] c.tiles@[x + y * CHUNK_WIDTH]) is Some ==>
                exists|i: int| 0 <= i < vs.len() && visits_chunk_cell(vs[i], pos, c, topleft, size, x, y)
        }),
    decreases nx,
{
    if nx > 0 {
        let x0 = nx - 1;
        lemma_chunk_cells(pos, c, topleft, size, nx - 1);
        lemma_chunk_column_cells(pos, c, topleft, size, x0, CHUNK_HEIGHT as int);
        let a = chunk_visits(pos, c, topleft, size, nx - 1);
        let b = chunk_column_visits(pos, c, topleft, size, x0, CHUNK_HEIGHT as int);
        assert(chunk_visits(pos, c, topleft, size, nx) =~= a + b);
        assert forall|i: int| 0 <= i < chunk_visits(pos, c, topleft, size, nx).len() implies #[trigger] visits_some_chunk_cell(chunk_visits(pos, c, topleft, size, nx)[i], pos, c, topleft, size, nx) by {
            if i < a.len() {
                assert(chunk_visits(pos, c, topleft, size, nx)[i] == a[i]);
                assert(visits_some_chunk_cell(a[i], pos, c, topleft, size, nx - 1));
                let (x, y) = choose|x: int, y: int| 0 <= x < nx - 1 && #[trigger] visits_chunk_cell(a[i], pos, c, topleft, size, x, y);
                assert(visits_chunk_cell(chunk_visits(pos, c, topleft, size, nx)[i], pos, c, topleft, size, x, y));
            } else {
                let j = i - a.len();
                assert(chunk_visits(pos, c, topleft, size, nx)[i] == b[j]);
                assert(visits_column_cell(b[j], pos, c, topleft, size, x0, CHUNK_HEIGHT as int));
                let y = choose|y: int| 0 <= y < CHUNK_HEIGHT && #[trigger] visits_chunk_cell(b[j], pos, c, topleft, size, x0, y);
                assert(visits_chunk_cell(chunk_visits(pos, c, topleft, size, nx)[i], pos, c, topleft, size, x0, y));
            }
        }
        assert forall|x: int, y: int| 0 <= x < nx && 0 <= y < CHUNK_HEIGHT && (#[trigger] c.tiles@[x + y * CHUNK_WIDTH]) is Some implies
            exists|i: int| 0 <= i < chunk_visits(pos, c, topleft, size, nx).len() && visits_chunk_cell(chunk_visits(pos, c, topleft, size, nx)[i], pos, c, topleft, size, x, y) by {
            if x < nx - 1 {
                let i = choose|i: int| 0 <= i < a.len() && visits_chunk_cell(a[i], pos, c, topleft, size, x, y);
                assert(chunk_visits(pos, c, topleft, size, nx)[i] == a[i]);
            } else {
                let j = choose|j: int| 0 <= j < b.len() && visits_chunk_cell(b[j], pos, c, topleft, size, x0, y);
                assert(chunk_visits(pos, c, topleft, size, nx)[a.len() + j] == b[j]);
            }
        }
    }
}

#[verifier::rlimit(60)]
proof fn lemma_infinite_cells<T>(chunks: Seq<((i32, i32), Chunk<T>)>, topleft: (i32, i32), size: TilemapSize, n: int)
    requires
        chunks_fit(chunks, topleft, size),
        0 <= n <= chunks.len(),
    ensures
        ({
            let vs = infinite_visits(chunks, topleft, size, n);
            &&& forall|i: int| 0 <= i < vs.len() ==> #[trigger] visits_layer_cell(vs[i], chunks, topleft, size, n)
            &&& forall|k: int, x: int, y: int| 0 <= k < n && 0 <= x < CHUNK_WIDTH && 0 <= y < CHUNK_HEIGHT
                && (#[trigger] chunks[k].1.tiles@[x + y * CHUNK_WIDTH]) is Some ==>
                exists|i: int| 0 <= i < vs.len() && visits_chunk_cell(vs[i], chunks[k].0, chunks[k].1, topleft, size, x, y)
        }),
    decreases n,
{
    if n > 0 {
        let k0 = n - 1;
        lemma_infinite_cells(chunks, topleft, size, n - 1);
        let ch = chunks[k0];
        assert(chunk_fits(ch.0, ch.1, topleft, size));
        lemma_chunk_cells(ch.0, ch.1, topleft, size, CHUNK_WIDTH as int);
        let a = infinite_visits(chunks, topleft, size, n - 1);
        let b = chunk_visits(ch.0, ch.1, topleft, size, CHUNK_WIDTH as int);
        assert(infinite_visits(chunks, topleft, size, n) =~= a + b);
        assert forall|i: int| 0 <= i < infinite_visits(chunks, topleft, size, n).len() implies #[trigger] visits_layer_cell(infinite_visits(chunks, topleft, size, n)[i], chunks, topleft, size, n) by {
            if i < a.len() {
                assert(infinite_visits(chunks, topleft, size, n)[i] == a[i]);
                assert(visits_layer_cell(a[i], chunks, topleft, size, n - 1));
                let (k, x, y) = choose|k: int, x: int, y: int| 0 <= k < n - 1
                    && #[trigger] visits_chunk_cell(a[i], chunks[k].0, chunks[k].1, topleft, size, x, y);
                assert(visits_chunk_cell(infinite_visits(chunks, topleft, size, n)[i], chunks[k].0, chunks[k].1, topleft, size, x, y));
            } else {
                let j = i - a.len();
                assert(infinite_visits(chunks, topleft, size, n)[i] == b[j]);
                assert(visits_some_chunk_cell(b[j], ch.0, ch.1, topleft, size, CHUNK_WIDTH as int));
                let (x, y) = choose|x: int, y: int| 0 <= x < CHUNK_WIDTH && #[trigger] visits_chunk_cell(b[j], ch.0, ch.1, topleft, size, x, y);
                assert(visits_chunk_cell(infinite_visits(chunks, topleft, size, n)[i], chunks[k0].0, chunks[k0].1, topleft, size, x, y));
            }
        }
        assert forall|k: int, x: int, y: int| 0 <= k < n && 0 <= x < CHUNK_WIDTH && 0 <= y < CHUNK_HEIGHT
            && (#[trigger] chunks[k].1.tiles@[x + y * CHUNK_WIDTH]) is Some implies
            exists|i: int| 0 <= i < infinite_visits(chunks, topleft, size, n).len() && visits_chunk_cell(infinite_visits(chunks, topleft, size, n)[i], chunks[k].0, chunks[k].1, topleft, size, x, y) by {
            if k < n - 1 {
                let i = choose|i: int| 0 <= i < a.len() && visits_chunk_cell(a[i], chunks[k].0, chunks[k].1, topleft, size, x, y);
                assert(infinite_visits(chunks, topleft, size, n)[i] == a[i]);
            } else {
                assert(ch.1.tiles@[x + y * CHUNK_WIDTH] is Some);
                let j = choose|j: int| 0 <= j < b.len() && visits_chunk_cell(b[j], ch.0, ch.1, topleft, size, x, y);
                assert(infinite_visits(chunks, topleft, size, n)[a.len() + j] == b[j]);
            }
        }
    }
}

/// Walking an infinite layer visits exactly its tiles: every visit is of a
/// cell `(x, y)` holding a tile, in some chunk, at Tiled coordinates
/// `((cx - topleft.0) * CHUNK_WIDTH + x, (cy - topleft.1) * CHUNK_HEIGHT + y)`
/// for the chunk's coordinates `(cx, cy)`, in the same tilemap column and in
/// the row counted from the bottom (see [`visits_chunk_cell`] and
/// [`visits_layer_cell`]); and every cell holding a tile is visited so.
pub proof fn lemma_infinite_layer_visits<T>(chunks: Seq<((i32, i32), Chunk<T>)>, topleft: (i32, i32), size: TilemapSize)
    requires
        chunks_fit(chunks, topleft, size),
    ensures
        ({
            let vs = infinite_visits(chunks, topleft, size, chunks.len() as int);
            &&& forall|i: int| 0 <= i < vs.len() ==> #[trigger] visits_layer_cell(vs[i], chunks, topleft, size, chunks.len() as int)
            &&& forall|k: int, x: int, y: int| 0 <= k < chunks.len() && 0 <= x < CHUNK_WIDTH && 0 <= y < CHUNK_HEIGHT
                && (#[trigger] chunks[k].1.tiles@[x + y * CHUNK_WIDTH]) is Some ==>
                exists|i: int| 0 <= i < vs.len() && visits_chunk_cell(vs[i], chunks[k].0, chunks[k].1, topleft, size, x, y)
        }),
{
    lemma_infinite_cells(chunks, topleft, size, chunks.len() as int);
}

/// Every tile of an infinite layer, chunk after chunk; chunks are shifted
/// so that the chunk `topleft` comes at the origin, since tilemaps have no
/// negative positions.
pub fn infinite_layer_tiles<T: Copy>(layer: &InfiniteTileLayer<T>, topleft: (i32, i32), size: TilemapSize) -> (r: Vec<TileVisit<T>>)
    requires
        chunks_fit(layer.chunks@, topleft, size),
    ensures
        r@ == infinite_visits(layer.chunks@, topleft, size, layer.chunks@.len() as int),
{
    let mut out: Vec<TileVisit<T>> = Vec::new();
    let mut k: usize = 0;
    while k < layer.chunks.len()
        invariant
            chunks_fit(layer.chunks@, topleft, size),
            k <= layer.chunks@.len(),
            out@ == infinite_visits(layer.chunks@, topleft, size, k as int),
        decreases layer.chunks@.len() - k,
    {
        let pos = layer.chunks[k].0;
        let chunk = &layer.chunks[k].1;
        assert(chunks_fit(layer.chunks@, topleft, size));
        let ghost entry = layer.chunks@[k as int];
        assert(entry.0 == pos);
        let mx = pos.0 - topleft.0;
        let my = pos.1 - topleft.1;
        let mut x: u32 = 0;
        while x < CHUNK_WIDTH
            invariant
                chunks_fit(layer.chunks@, topleft, size),
                k < layer.chunks@.len(),
                entry == layer.chunks@[k as int],
                entry.0 == pos,
                entry.1 == *chunk,
                mx == pos.0 - topleft.0,
                my == pos.1 - topleft.1,
                x <= CHUNK_WIDTH,
                out@ == infinite_visits(layer.chunks@, topleft, size, k as int) + chunk_visits(pos, *chunk, topleft, size, x as int),
            decreases CHUNK_WIDTH - x,
        {
            let mut y: u32 = 0;
            while y < CHUNK_HEIGHT
                invariant
                    chunks_fit(layer.chunks@, topleft, size),
                    k < layer.chunks@.len(),
                    entry == layer.chunks@[k as int],
                    entry.0 == pos,
                    entry.1 == *chunk,
                    mx == pos.0 - topleft.0,
                    my == pos.1 - topleft.1,
                    x < CHUNK_WIDTH,
                    y <= CHUNK_HEIGHT,
                    out@ == infinite_visits(layer.chunks@, topleft, size, k as int) + chunk_visits(pos, *chunk, topleft, size, x as int)
                        + chunk_column_visits(pos, *chunk, topleft, size, x as int, y as int),
                decreases CHUNK_HEIGHT - y,
            {
                let ghost before = out@;
                let idx = (x + y * CHUNK_WIDTH) as usize;
                match chunk.tiles[idx] {
                    Some(t) => {
                        let ix = mx * (CHUNK_WIDTH as i32) + (x as i32);
                        let iy = my * (CHUNK_HEIGHT as i32) + (y as i32);
                        out.push(TileVisit {
                            tile: t,
                            position: TilePos { x: ix as u32, y: size.y - 1 - (iy as u32) },
                            index: IVec2 { x: ix, y: iy },
                        });
                    },
                    None => {},
                }
                assert(out@ =~= infinite_visits(layer.chunks@, topleft, size, k as int) + chunk_visits(pos, *chunk, topleft, size, x as int)
                    + chunk_column_visits(pos, *chunk, topleft, size, x as int, y + 1));
                y = y + 1;
            }
            assert(out@ =~= infinite_visits(layer.chunks@, topleft, size, k as int) + chunk_visits(pos, *chunk, topleft, size, x + 1));
            x = x + 1;
        }
        assert(out@ =~= infinite_visits(layer.chunks@, topleft, size, k + 1));
        k = k + 1;
    }
    out
}


/// The chunk bounds and tilemap size of a map.
#[derive(Copy, Clone, Debug, PartialEq, Eq)]
pub struct MapExtent {
    /// Size of the tilemap, in tiles.
    pub tilemap_size: TilemapSize,
    /// Smallest chunk coordinates of the infinite layers; `(0, 0)` for finite maps.
    pub topleft_chunk: (i32, i32),
    /// Largest chunk coordinates of the infinite layers; `(0, 0)` for finite
    /// maps.
    pub bottomright_chunk: (i32, i32),
    /// The map has an infinite tile layer.
    pub infinite: bool,
}

/// Starting point of the search for the top-left chunk.
pub const TOPLEFT_START: i32 = 999999;

/// Componentwise minimum of the starting point and the positions.
pub open spec fn fold_topleft(ps: Seq<(i32, i32)>) -> (i32, i32)
    decreases ps.len(),
{
    if ps.len() == 0 {
        (TOPLEFT_START, TOPLEFT_START)
    } else {
        let acc = fold_topleft(ps.drop_last());
        let p = ps.last();
        (if p.0 < acc.0 { p.0 } else { acc.0 }, if p.1 < acc.1 { p.1 } else { acc.1 })
    }
}

/// Componentwise maximum of the positions (`(i32::MIN, i32::MIN)` when
/// there are none).
pub open spec fn fold_bottomright(ps: Seq<(i32, i32)>) -> (i32, i32)
    decreases ps.len(),
{
    if ps.len() == 0 {
        (i32::MIN, i32::MIN)
    } else {
        let acc = fold_bottomright(ps.drop_last());
        let p = ps.last();
        (if p.0 > acc.0 { p.0 } else { acc.0 }, if p.1 > acc.1 { p.1 } else { acc.1 })
    }
}

/// The chunk positions of all infinite layers, layer after layer.
pub open spec fn all_chunk_positions(layers: Seq<Vec<(i32, i32)>>) -> Seq<(i32, i32)> {
    layers.map_values(|l: Vec<(i32, i32)>| l@).flatten()
}

/// Number of tiles spanned by the chunks from `lo` to `hi` (one axis).
pub open spec fn chunk_span(lo: i32, hi: i32, chunk: u32) -> int {
    (hi - lo + 1) * chunk
}

/// The tilemap size of the infinite layers fits: the bounds span at least
/// one chunk and the sizes fit in `u32` (and the span in `i32`).
pub open spec fn extent_fits(layers: Seq<Vec<(i32, i32)>>) -> bool {
    let ps = all_chunk_positions(layers);
    let tl = fold_topleft(ps);
    let br = fold_bottomright(ps);
    layers.len() > 0 ==> {
        &&& 0 < br.0 - tl.0 + 1 <= i32::MAX
        &&& 0 < br.1 - tl.1 + 1 <= i32::MAX
        &&& chunk_span(tl.0, br.0, CHUNK_WIDTH) <= u32::MAX
        &&& chunk_span(tl.1, br.1, CHUNK_HEIGHT) <= u32::MAX
    }
}

/// The extent of a map of `width` x `height` tiles whose infinite tile
/// layers have chunks at the given positions (one list per layer).
pub open spec fn spec_map_extent(width: u32, height: u32, layers: Seq<Vec<(i32, i32)>>) -> MapExtent {
    let ps = all_chunk_positions(layers);
    let tl = fold_topleft(ps);
    let br = fold_bottomright(ps);
    if layers.len() > 0 {
        MapExtent {
            tilemap_size: TilemapSize {
                x: chunk_span(tl.0, br.0, CHUNK_WIDTH) as u32,
                y: chunk_span(tl.1, br.1, CHUNK_HEIGHT) as u32,
            },
            topleft_chunk: tl,
            bottomright_chunk: br,
            infinite: true,
        }
    } else {
        MapExtent { tilemap_size: TilemapSize { x: width, y: height }, topleft_chunk: (0, 0), bottomright_chunk: (0, 0), infinite: false }
    }
}

/// The chunk bounds and tilemap size of a map. A finite map keeps its own
/// size; with infinite layers, the size covers every chunk from the top-left
/// to the bottom-right one. `None` when that size does not fit (see
/// [`extent_fits`]).
pub fn map_extent(width: u32, height: u32, infinite_layers: &Vec<Vec<(i32, i32)>>) -> (r: Option<MapExtent>)
    ensures
        match r {
            Some(e) => extent_fits(infinite_layers@) && e == spec_map_extent(width, height, infinite_layers@),
            None => !extent_fits(infinite_layers@),
        },
{
    let ghost layers = infinite_layers@.map_values(|l: Vec<(i32, i32)>| l@);
    let mut topleft: (i32, i32) = (TOPLEFT_START, TOPLEFT_START);
    let mut bottomright: (i32, i32) = (i32::MIN, i32::MIN);
    let mut l: usize = 0;
    assert(layers.subrange(0, 0).flatten() =~= Seq::<(i32, i32)>::empty());
    while l < infinite_layers.len()
        invariant
            layers == infinite_layers@.map_values(|l: Vec<(i32, i32)>| l@),
            l <= infinite_layers@.len(),
            topleft == fold_topleft(layers.subrange(0, l as int).flatten()),
            bottomright == fold_bottomright(layers.subrange(0, l as int).flatten()),
        decreases infinite_layers@.len() - l,
    {
        let chunks = &infinite_layers[l];
        let ghost base = layers.subrange(0, l as int).flatten();
        let mut c: usize = 0;
        assert(base + chunks@.subrange(0, 0) =~= base);
        while c < chunks.len()
            invariant
                c <= chunks@.len(),
                topleft == fold_topleft(base + chunks@.subrange(0, c as int)),
                bottomright == fold_bottomright(base + chunks@.subrange(0, c as int)),
            decreases chunks@.len() - c,
        {
            let p = chunks[c];
            assert((base + chunks@.subrange(0, c + 1)).drop_last() =~= base + chunks@.subrange(0, c as int));
            assert((base + chunks@.subrange(0, c + 1)).last() == p);
            topleft = (if p.0 < topleft.0 { p.0 } else { topleft.0 }, if p.1 < topleft.1 { p.1 } else { topleft.1 });
            bottomright = (if p.0 > bottomright.0 { p.0 } else { bottomright.0 }, if p.1 > bottomright.1 { p.1 } else { bottomright.1 });
            c = c + 1;
        }
        proof {
            assert(chunks@.subrange(0, chunks@.len() as int) =~= chunks@);
            assert(layers.subrange(0, l + 1) =~= layers.subrange(0, l as int).push(chunks@));
            layers.subrange(0, l as int).lemma_flatten_push(chunks@);
        }
        l = l + 1;
    }
    assert(layers.subrange(0, infinite_layers@.len() as int) =~= layers);
    if infinite_layers.len() > 0 {
        let wx: i64 = bottomright.0 as i64 - topleft.0 as i64 + 1;
        let wy: i64 = bottomright.1 as i64 - topleft.1 as i64 + 1;
        if wx <= 0 || wy <= 0 || wx > 0x7fff_ffff || wy > 0x7fff_ffff {
            return None;
        }
        if wx * 16 > 0xffff_ffff || wy * 16 > 0xffff_ffff {
            return None;
        }
        let span_x = wx as u32;
        let span_y = wy as u32;
        Some(MapExtent {
            tilemap_size: TilemapSize { x: span_x * CHUNK_WIDTH, y: span_y * CHUNK_HEIGHT },
            topleft_chunk: topleft,
            bottomright_chunk: bottomright,
            infinite: true,
        })
    } else {
        Some(MapExtent { tilemap_size: TilemapSize { x: width, y: height }, topleft_chunk: (0, 0), bottomright_chunk: (0, 0), infinite: false })
    }
}

proof fn lemma_folds_bound(ps: Seq<(i32, i32)>, k: int)
    requires
        0 <= k < ps.len(),
    ensures
        fold_topleft(ps).0 <= ps[k].0 <= fold_bottomright(ps).0,
        fold_topleft(ps).1 <= ps[k].1 <= fold_bottomright(ps).1,
    decreases ps.len(),
{
    if k < ps.len() - 1 {
        lemma_folds_bound(ps.drop_last(), k);
    }
}

/// Every chunk of every infinite layer lies within the tilemap once the
/// top-left chunk is moved to `(0, 0)`: its first tile is at a non-negative
/// position and its last tile inside the tilemap size.
pub proof fn lemma_extent_covers_chunks(width: u32, height: u32, layers: Seq<Vec<(i32, i32)>>, l: int, c: int)
    requires
        extent_fits(layers),
        0 <= l < layers.len(),
        0 <= c < layers[l]@.len(),
    ensures
        ({
            let e = spec_map_extent(width, height, layers);
            let p = layers[l]@[c];
            &&& e.infinite
            &&& e.topleft_chunk.0 <= p.0 <= e.bottomright_chunk.0
            &&& e.topleft_chunk.1 <= p.1 <= e.bottomright_chunk.1
            &&& (p.0 - e.topleft_chunk.0 + 1) * CHUNK_WIDTH <= e.tilemap_size.x
            &&& (p.1 - e.topleft_chunk.1 + 1) * CHUNK_HEIGHT <= e.tilemap_size.y
        }),
{
    let vs = layers.map_values(|v: Vec<(i32, i32)>| v@);
    let ps = all_chunk_positions(layers);
    let p = layers[l]@[c];
    assert(vs[l] == layers[l]@);
    lemma_flatten_index(vs, l, c);
    let k = choose|k: int| 0 <= k < ps.len() && ps[k] == p;
    lemma_folds_bound(ps, k);
    let tl = fold_topleft(ps);
    let br = fold_bottomright(ps);
    assert((p.0 - tl.0 + 1) * CHUNK_WIDTH <= (br.0 - tl.0 + 1) * CHUNK_WIDTH) by (nonlinear_arith)
        requires
            p.0 <= br.0;
    assert((p.1 - tl.1 + 1) * CHUNK_HEIGHT <= (br.1 - tl.1 + 1) * CHUNK_HEIGHT) by (nonlinear_arith)
        requires
            p.1 <= br.1;
}

proof fn lemma_bottomright_attained(ps: Seq<(i32, i32)>)
    requires
        ps.len() > 0,
    ensures
        exists|k: int| 0 <= k < ps.len() && ps[k].0 == fold_bottomright(ps).0,
        exists|k: int| 0 <= k < ps.len() && ps[k].1 == fold_bottomright(ps).1,
    decreases ps.len(),
{
    let n = ps.len() - 1;
    if ps.len() == 1 {
        assert(ps.drop_last().len() == 0);
        assert(fold_bottomright(ps.drop_last()) == (i32::MIN, i32::MIN));
        assert(ps.last() == ps[0]);
        assert(ps[0].0 == fold_bottomright(ps).0);
        assert(ps[0].1 == fold_bottomright(ps).1);
    } else {
        let d = ps.drop_last();
        lemma_bottomright_attained(d);
        let acc = fold_bottomright(d);
        if ps[n].0 > acc.0 {
            assert(ps[n].0 == fold_bottomright(ps).0);
        } else {
            let k = choose|k: int| 0 <= k < d.len() && d[k].0 == acc.0;
            assert(ps[k] == d[k]);
            assert(ps[k].0 == fold_bottomright(ps).0);
        }
        if ps[n].1 > acc.1 {
            assert(ps[n].1 == fold_bottomright(ps).1);
        } else {
            let k = choose|k: int| 0 <= k < d.len() && d[k].1 == acc.1;
            assert(ps[k] == d[k]);
            assert(ps[k].1 == fold_bottomright(ps).1);
        }
    }
}

/// The bottom-right chunk of a map with infinite layers is the largest
/// chunk coordinates: every chunk lies at or before it, and some chunk has
/// its column and some chunk its row.
pub proof fn lemma_bottomright_is_largest(width: u32, height: u32, layers: Seq<Vec<(i32, i32)>>)
    requires
        extent_fits(layers),
        layers.len() > 0,
    ensures
        ({
            let e = spec_map_extent(width, height, layers);
            let ps = all_chunk_positions(layers);
            &&& forall|k: int| 0 <= k < ps.len() ==> #[trigger] ps[k].0 <= e.bottomright_chunk.0 && ps[k].1 <= e.bottomright_chunk.1
            &&& exists|k: int| 0 <= k < ps.len() && ps[k].0 == e.bottomright_chunk.0
            &&& exists|k: int| 0 <= k < ps.len() && ps[k].1 == e.bottomright_chunk.1
        }),
{
    let ps = all_chunk_positions(layers);
    assert forall|k: int| 0 <= k < ps.len() implies #[trigger] ps[k].0 <= fold_bottomright(ps).0 && ps[k].1 <= fold_bottomright(ps).1 by {
        lemma_folds_bound(ps, k);
    }
    if ps.len() == 0 {
        assert(fold_bottomright(ps) == (i32::MIN, i32::MIN));
        assert(false);
    }
    lemma_bottomright_attained(ps);
}

proof fn lemma_topleft_attained(ps: Seq<(i32, i32)>)
    ensures
        fold_topleft(ps).0 <= TOPLEFT_START,
        fold_topleft(ps).1 <= TOPLEFT_START,
        fold_topleft(ps).0 == TOPLEFT_START || exists|k: int| 0 <= k < ps.len() && ps[k].0 == fold_topleft(ps).0,
        fold_topleft(ps).1 == TOPLEFT_START || exists|k: int| 0 <= k < ps.len() && ps[k].1 == fold_topleft(ps).1,
    decreases ps.len(),
{
    if ps.len() > 0 {
        let n = ps.len() - 1;
        let d = ps.drop_last();
        lemma_topleft_attained(d);
        let acc = fold_topleft(d);
        if ps[n].0 < acc.0 {
            assert(ps[n].0 == fold_topleft(ps).0);
        } else if acc.0 != TOPLEFT_START {
            let k = choose|k: int| 0 <= k < d.len() && d[k].0 == acc.0;
            assert(ps[k] == d[k]);
            assert(ps[k].0 == fold_topleft(ps).0);
        }
        if ps[n].1 < acc.1 {
            assert(ps[n].1 == fold_topleft(ps).1);
        } else if acc.1 != TOPLEFT_START {
            let k = choose|k: int| 0 <= k < d.len() && d[k].1 == acc.1;
            assert(ps[k] == d[k]);
            assert(ps[k].1 == fold_topleft(ps).1);
        }
    }
}

/// The extent of a map with infinite layers: the top-left chunk is the
/// smallest chunk coordinates (bounded by the starting point of the search,
/// 999999): every chunk lies at or after it, and some chunk has its column
/// (and some its row) unless that coordinate is the starting point. The
/// tilemap spans the chunks from the top-left to the bottom-right one, in
/// whole chunks. A map without infinite layers keeps its own size and
/// chunk bounds `(0, 0)`.
pub proof fn lemma_extent_bounds(width: u32, height: u32, layers: Seq<Vec<(i32, i32)>>)
    requires
        extent_fits(layers),
    ensures
        ({
            let e = spec_map_extent(width, height, layers);
            let ps = all_chunk_positions(layers);
            &&& layers.len() > 0 ==> {
                &&& e.infinite
                &&& forall|k: int| 0 <= k < ps.len() ==> e.topleft_chunk.0 <= #[trigger] ps[k].0 && e.topleft_chunk.1 <= ps[k].1
                &&& e.topleft_chunk.0 <= TOPLEFT_START && e.topleft_chunk.1 <= TOPLEFT_START
                &&& (e.topleft_chunk.0 == TOPLEFT_START || exists|k: int| 0 <= k < ps.len() && ps[k].0 == e.topleft_chunk.0)
                &&& (e.topleft_chunk.1 == TOPLEFT_START || exists|k: int| 0 <= k < ps.len() && ps[k].1 == e.topleft_chunk.1)
                &&& e.tilemap_size.x == (e.bottomright_chunk.0 - e.topleft_chunk.0 + 1) * 16
                &&& e.tilemap_size.y == (e.bottomright_chunk.1 - e.topleft_chunk.1 + 1) * 16
            }
            &&& layers.len() == 0 ==> e == MapExtent {
                tilemap_size: TilemapSize { x: width, y: height },
                topleft_chunk: (0, 0),
                bottomright_chunk: (0, 0),
                infinite: false,
            }
        }),
{
    let ps = all_chunk_positions(layers);
    lemma_topleft_attained(ps);
    assert forall|k: int| 0 <= k < ps.len() implies fold_topleft(ps).0 <= #[trigger] ps[k].0 && fold_topleft(ps).1 <= ps[k].1 by {
        lemma_folds_bound(ps, k);
    }
}

proof fn lemma_flatten_index(vs: Seq<Seq<(i32, i32)>>, l: int, c: int)
    requires
        0 <= l < vs.len(),
        0 <= c < vs[l].len(),
    ensures
        exists|k: int| 0 <= k < vs.flatten().len() && vs.flatten()[k] == vs[l][c],
    decreases vs.len(),
{
    if l == vs.len() - 1 {
        vs.drop_last().lemma_flatten_push(vs.last());
        assert(vs.drop_last().push(vs.last()) =~= vs);
        let base = vs.drop_last().flatten();
        assert((base + vs.last())[base.len() + c] == vs[l][c]);
    } else {
        lemma_flatten_index(vs.drop_last(), l, c);
        vs.drop_last().lemma_flatten_push(vs.last());
        assert(vs.drop_last().push(vs.last()) =~= vs);
        let base = vs.drop_last().flatten();
        let k = choose|k: int| 0 <= k < base.len() && base[k] == vs[l][c];
        assert((base + vs.last())[k] == vs[l][c]);
    }
}


/// Tells whether every chunk fits (see [`chunks_fit`]), so that an infinite
/// layer can be walked.
pub fn check_chunks_fit<T>(layer: &InfiniteTileLayer<T>, topleft: (i32, i32), size: TilemapSize) -> (r: bool)
    ensures
        r == chunks_fit(layer.chunks@, topleft, size),
{
    let mut k: usize = 0;
    while k < layer.chunks.len()
        invariant
            k <= layer.chunks@.len(),
            forall|j: int| 0 <= j < k ==> {
                let ((cx, cy), c) = #[trigger] layer.chunks@[j];
                &&& c.wf()
                &&& topleft.0 <= cx
                &&& topleft.1 <= cy
                &&& (cx - topleft.0) * CHUNK_WIDTH + CHUNK_WIDTH <= i32::MAX
                &&& (cy - topleft.1) * CHUNK_HEIGHT + CHUNK_HEIGHT <= size.y
                &&& (cy - topleft.1) * CHUNK_HEIGHT + CHUNK_HEIGHT <= i32::MAX
            },
        decreases layer.chunks@.len() - k,
    {
        let ((cx, cy), c) = &layer.chunks[k];
        let dx: i64 = *cx as i64 - topleft.0 as i64;
        let dy: i64 = *cy as i64 - topleft.1 as i64;
        if c.tiles.len() != 256 || dx < 0 || dy < 0 {
            return false;
        }
        if dx > 0x1000_0000 || dy > 0x1000_0000 {
            proof {
                assert(dx * 16 + 16 > i32::MAX || dy * 16 + 16 > i32::MAX) by (nonlinear_arith)
                    requires
                        dx > 0x1000_0000 || dy > 0x1000_0000;
            }
            return false;
        }
        let ex: i64 = dx * 16 + 16;
        let ey: i64 = dy * 16 + 16;
        if ex > 0x7fff_ffff || ey > size.y as i64 || ey > 0x7fff_ffff {
            return false;
        }
        k = k + 1;
    }
    true
}

} // verus!
