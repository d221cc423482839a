//! Tileset layouts: the texture atlas grid of a single-image tileset and the
//! image indices of an image-collection tileset.
use vstd::prelude::*;

verus! {

/// The layout parameters of a tileset.
#[derive(Copy, Clone, Debug, PartialEq, Eq, Structural)]
pub struct TilesetGrid {
    pub tile_width: u32,
    pub tile_height: u32,
    pub spacing: u32,
    pub margin: u32,
    pub tilecount: u32,
    pub offset_x: i32,
    pub offset_y: i32,
}

/// A texture atlas laid out as a grid.
#[derive(Copy, Clone, Debug, PartialEq, Eq, Structural)]
pub struct AtlasGrid {
    pub tile_width: u32,
    pub tile_height: u32,
    pub columns: u32,
    pub rows: u32,
    pub padding: u32,
    pub offset_x: u32,
    pub offset_y: u32,
}

/// Number of tile columns in an image `image_width` pixels wide.
pub open spec fn atlas_columns(image_width: i32, t: TilesetGrid) -> int {
    ((image_width as u32) - t.margin + t.spacing) / ((t.tile_width + t.spacing) as int)
}

/// The computation of the atlas grid stays in range: the margin fits in the
/// image, the sums fit in `u32`, and tiles are not empty.
pub open spec fn atlas_in_range(image_width: i32, t: TilesetGrid) -> bool {
    &&& t.margin <= (image_width as u32)
    &&& (image_width as u32) - t.margin + t.spacing <= u32::MAX
    &&& 0 < t.tile_width + t.spacing <= u32::MAX
    &&& (atlas_columns(image_width, t) > 0 ==> (t.offset_x as u32) + t.margin <= u32::MAX && (t.offset_y as u32) + t.margin <= u32::MAX)
}

/// The atlas grid of a single-image tileset whose image is `image_width`
/// pixels wide: none when not even one column fits.
pub open spec fn spec_atlas_grid(image_width: i32, t: TilesetGrid) -> Option<AtlasGrid> {
    let columns = atlas_columns(image_width, t);
    if columns > 0 {
        Some(AtlasGrid {
            tile_width: t.tile_width,
            tile_height: t.tile_height,
            columns: columns as u32,
            rows: (t.tilecount / (columns as u32)) as u32,
            padding: t.spacing,
            offset_x: ((t.offset_x as u32) + t.margin) as u32,
            offset_y: ((t.offset_y as u32) + t.margin) as u32,
        })
    } else {
        None
    }
}

/// The texture atlas grid of a single-image tileset.
pub fn atlas_grid(image_width: i32, t: &TilesetGrid) -> (r: Option<AtlasGrid>)
    requires
        atlas_in_range(image_width, *t),
    ensures
        r == spec_atlas_grid(image_width, *t),
{
    let columns = ((image_width as u32) - t.margin + t.spacing) / (t.tile_width + t.spacing);
    if columns > 0 {
        Some(AtlasGrid {
            tile_width: t.tile_width,
            tile_height: t.tile_height,
            columns,
            rows: t.tilecount / columns,
            padding: t.spacing,
            offset_x: (t.offset_x as u32) + t.margin,
            offset_y: (t.offset_y as u32) + t.margin,
        })
    } else {
        None
    }
}

/// The atlas of a single-image tileset cuts the image into cells of the
/// tileset's tile size, spaced by its spacing and shifted by its offset
/// plus margin: as many whole columns as fit in the image width after the
/// margin, and as many whole rows of them as the tile count fills. There is
/// no atlas exactly when not even one column fits.
pub proof fn lemma_atlas_grid_cells(image_width: i32, t: TilesetGrid)
    requires
        atlas_in_range(image_width, t),
    ensures
        ({
            let room = (image_width as u32) - t.margin + t.spacing;
            let step = t.tile_width + t.spacing;
            match spec_atlas_grid(image_width, t) {
                Some(g) => {
                    &&& g.tile_width == t.tile_width
                    &&& g.tile_height == t.tile_height
                    &&& g.padding == t.spacing
                    &&& g.offset_x == (t.offset_x as u32) + t.margin
                    &&& g.offset_y == (t.offset_y as u32) + t.margin
                    &&& g.columns > 0
                    &&& g.columns * step <= room < (g.columns + 1) * step
                    &&& g.rows * g.columns <= t.tilecount < (g.rows + 1) * g.columns
                },
                None => room < step,
            }
        }),
{
    let room: int = (image_width as u32) - t.margin + t.spacing;
    let step: int = t.tile_width + t.spacing;
    vstd::arithmetic::div_mod::lemma_fundamental_div_mod(room, step);
    vstd::arithmetic::div_mod::lemma_mod_bound(room, step);
    let c = room / step;
    assert(c * step <= room < (c + 1) * step) by (nonlinear_arith)
        requires
            room == step * c + room % step,
            0 <= room % step < step,
    {
    }
    if c > 0 {
        let n: int = t.tilecount as int;
        vstd::arithmetic::div_mod::lemma_fundamental_div_mod(n, c);
        vstd::arithmetic::div_mod::lemma_mod_bound(n, c);
        let r = n / c;
        assert(r * c <= n < (r + 1) * c) by (nonlinear_arith)
            requires
                n == c * r + n % c,
                0 <= n % c < c,
        {
        }
        assert(0 <= r <= n) by (nonlinear_arith)
            requires
                r * c <= n,
                n < (r + 1) * c,
                c > 0,
                n >= 0,
        {
        }
    } else {
        assert(room < step) by (nonlinear_arith)
            requires
                room < (c + 1) * step,
                c <= 0,
                c * step <= room,
                step > 0,
                room >= 0,
        {
        }
    }
}

/// A tile of an image-collection tileset: its id and the size of its image,
/// when it has one.
#[derive(Copy, Clone, Debug, PartialEq, Eq)]
pub struct CollectionTile {
    pub id: u32,
    pub image_size: Option<(i32, i32)>,
}

/// How an image-collection tileset is used.
#[derive(Clone, Debug, PartialEq, Eq)]
pub struct CollectionLayout {
    /// All images have the size of the first one, so that the tileset can
    /// be used for tile layers.
    pub usable_for_tiles_layer: bool,
    /// For each tile with an image, its id and the index of its image.
    pub image_offsets: Vec<(u32, u32)>,
}

/// The tiles that have an image, in order.
pub open spec fn tiles_with_image(tiles: Seq<CollectionTile>) -> Seq<CollectionTile>
    decreases tiles.len(),
{
    if tiles.len() == 0 {
        Seq::empty()
    } else if tiles.last().image_size is Some {
        tiles_with_image(tiles.drop_last()).push(tiles.last())
    } else {
        tiles_with_image(tiles.drop_last())
    }
}

/// The image offsets: each tile with an image gets the next index.
pub open spec fn spec_image_offsets(tiles: Seq<CollectionTile>) -> Seq<(u32, u32)> {
    let w = tiles_with_image(tiles);
    Seq::new(w.len(), |i: int| (w[i].id, i as u32))
}

/// All tile images have the same size.
pub open spec fn same_image_sizes(tiles: Seq<CollectionTile>) -> bool {
    let w = tiles_with_image(tiles);
    forall|i: int| 0 <= i < w.len() ==> #[trigger] w[i].image_size == w[0].image_size
}

proof fn lemma_same_sizes_push(w: Seq<CollectionTile>, t: CollectionTile)
    ensures
        (forall|i: int| 0 <= i < w.push(t).len() ==> #[trigger] w.push(t)[i].image_size == w.push(t)[0].image_size)
            == ((forall|i: int| 0 <= i < w.len() ==> #[trigger] w[i].image_size == w[0].image_size)
                && t.image_size == w.push(t)[0].image_size),
{
    let w2 = w.push(t);
    if forall|i: int| 0 <= i < w2.len() ==> #[trigger] w2[i].image_size == w2[0].image_size {
        assert(w2[w.len() as int] == t);
        if w.len() > 0 {
            assert forall|i: int| 0 <= i < w.len() implies #[trigger] w[i].image_size == w[0].image_size by {
                assert(w2[i] == w[i]);
                assert(w2[0] == w[0]);
            }
        }
    }
    if (forall|i: int| 0 <= i < w.len() ==> #[trigger] w[i].image_size == w[0].image_size) && t.image_size == w2[0].image_size {
        assert forall|i: int| 0 <= i < w2.len() implies #[trigger] w2[i].image_size == w2[0].image_size by {
            if i < w.len() {
                assert(w2[i] == w[i]);
                assert(w2[0] == w[0]);
            }
        }
    }
}

proof fn lemma_tiles_with_image_filter(tiles: Seq<CollectionTile>)
    ensures
        tiles_with_image(tiles) == tiles.filter(|t: CollectionTile| t.image_size is Some),
    decreases tiles.len(),
{
    reveal(Seq::filter);
    if tiles.len() > 0 {
        lemma_tiles_with_image_filter(tiles.drop_last());
    }
}

/// The layout of an image-collection tileset: the tiles that have an image,
/// in order, get the image indices `0, 1, ...` (tiles without an image get
/// none), and the tileset can be used for tile layers exactly when all those
/// images have the size of the first.
pub proof fn lemma_collection_offsets(tiles: Seq<CollectionTile>)
    ensures
        ({
            let w = tiles.filter(|t: CollectionTile| t.image_size is Some);
            let offsets = spec_image_offsets(tiles);
            &&& offsets.len() == w.len()
            &&& forall|i: int| 0 <= i < w.len() ==> #[trigger] offsets[i] == (w[i].id, i as u32)
            &&& same_image_sizes(tiles) <==> forall|i: int| 0 <= i < w.len() ==> #[trigger] w[i].image_size == w[0].image_size
        }),
{
    lemma_tiles_with_image_filter(tiles);
}

/// The layout of an image-collection tileset: every tile with an image gets
/// the next image index, and the tileset is usable for tile layers when all
/// its images have the same size.
pub fn collection_layout(tiles: &Vec<CollectionTile>) -> (r: CollectionLayout)
    requires
        tiles@.len() <= u32::MAX,
    ensures
        r.image_offsets@ == spec_image_offsets(tiles@),
        r.usable_for_tiles_layer == same_image_sizes(tiles@),
{
    let mut usable = true;
    let mut image_size: Option<(i32, i32)> = None;
    let mut offsets: Vec<(u32, u32)> = Vec::new();
    let mut k: usize = 0;
    while k < tiles.len()
        invariant
            k <= tiles@.len() <= u32::MAX,
            offsets@ == spec_image_offsets(tiles@.subrange(0, k as int)),
            offsets@.len() == tiles_with_image(tiles@.subrange(0, k as int)).len(),
            image_size == (if offsets@.len() > 0 { tiles_with_image(tiles@.subrange(0, k as int))[0].image_size } else { None }),
            offsets@.len() > 0 ==> image_size is Some,
            usable == same_image_sizes(tiles@.subrange(0, k as int)),
            offsets@.len() <= k,
        decreases tiles@.len() - k,
    {
        let t = tiles[k];
        let ghost pre = tiles@.subrange(0, k as int);
        let ghost nxt = tiles@.subrange(0, k + 1);
        assert(nxt.drop_last() =~= pre);
        assert(nxt.last() == t);
        if let Some(sz) = t.image_size {
            let n = offsets.len() as u32;
            offsets.push((t.id, n));
            proof {
                let w = tiles_with_image(pre);
                assert(tiles_with_image(nxt) == w.push(t));
                assert(offsets@ =~= spec_image_offsets(nxt));
            }
            if usable {
                match image_size {
                    Some(first) => {
                        if sz.0 != first.0 || sz.1 != first.1 {
                            usable = false;
                            proof {
                                let w = tiles_with_image(nxt);
                                assert(w[w.len() - 1].image_size != w[0].image_size);
                            }
                        }
                    },
                    None => {
                        image_size = Some(sz);
                    },
                }
            }
            proof {
                let w = tiles_with_image(pre);
                let w2 = tiles_with_image(nxt);
                if w.len() == 0 {
                    assert(w2[0] == t);
                } else {
                    assert(w2[0] == w[0]);
                }
                assert(w2 == w.push(t));
                lemma_same_sizes_push(w, t);
                assert(same_image_sizes(nxt) == (same_image_sizes(pre) && t.image_size == w2[0].image_size));
            }
        } else {
            proof {
                assert(tiles_with_image(nxt) == tiles_with_image(pre));
            }
        }
        k = k + 1;
    }
    assert(tiles@.subrange(0, tiles@.len() as int) =~= tiles@);
    CollectionLayout { usable_for_tiles_layer: usable, image_offsets: offsets }
}


/// Tells whether the atlas of a tileset image can be computed without
/// leaving the `u32` range (see [`atlas_in_range`]).
pub fn check_atlas(image_width: i32, t: &TilesetGrid) -> (r: bool)
    ensures
        r == atlas_in_range(image_width, *t),
{
    let w = image_width as u32;
    if t.margin > w {
        return false;
    }
    let avail: u64 = (w - t.margin) as u64 + t.spacing as u64;
    if avail > 0xffff_ffff {
        return false;
    }
    let step: u64 = t.tile_width as u64 + t.spacing as u64;
    if step == 0 || step > 0xffff_ffff {
        return false;
    }
    let columns = avail / step;
    if columns > 0 {
        (t.offset_x as u32) as u64 + t.margin as u64 <= 0xffff_ffff && (t.offset_y as u32) as u64 + t.margin as u64 <= 0xffff_ffff
    } else {
        true
    }
}

} // verus!
