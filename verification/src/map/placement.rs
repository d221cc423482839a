//! Which tiles of a tile layer are drawn with a given tileset, and how.
use vstd::prelude::*;
use crate::map::animation::{
    animation_overflows, check_animation, get_animated_tile, spec_animated_tile, AnimatedTileRange, Frame,
};
use crate::map::tiles::{IVec2, TilePos, TileVisit};

verus! {

/// What a cell of a tile layer holds: a tile of some tileset, and how it is
/// flipped.
#[derive(Copy, Clone, Debug, PartialEq, Eq, Structural)]
pub struct LayerTileData {
    pub tileset_index: usize,
    pub id: u32,
    pub flip_h: bool,
    pub flip_v: bool,
    pub flip_d: bool,
}

/// What a tileset says of one of its tiles.
#[derive(Clone, Debug, PartialEq, Eq)]
pub struct TilesetTile {
    pub id: u32,
    pub animation: Option<Vec<Frame>>,
    pub has_properties: bool,
}

/// The textures of a tileset: one image for the whole tileset, or one image
/// per tile, found by the tile's offset into them.
#[derive(Clone, Debug, PartialEq, Eq)]
pub enum TilesetTexture {
    Single,
    /// `(tile id, offset)` pairs.
    Vector(Vec<(u32, u32)>),
}

/// A tile to draw: where, with which texture, flipped how, and whether it
/// is animated and has custom properties.
#[derive(Copy, Clone, Debug, PartialEq, Eq, Structural)]
pub struct TilePlacement {
    pub position: TilePos,
    pub index: IVec2,
    pub tile_id: u32,
    pub texture_index: u32,
    pub flip_x: bool,
    pub flip_y: bool,
    pub flip_d: bool,
    pub animation: Option<AnimatedTileRange>,
    pub custom: bool,
}

/// The tileset describes the tile `id`.
pub open spec fn has_tile(tiles: Seq<TilesetTile>, id: u32) -> bool {
    exists|k: int| 0 <= k < tiles.len() && tiles[k].id == id
}

/// The first description of tile `id`.
pub open spec fn tile_of(tiles: Seq<TilesetTile>, id: u32) -> TilesetTile {
    tiles[choose|k: int| 0 <= k < tiles.len() && tiles[k].id == id && forall|j: int| 0 <= j < k ==> tiles[j].id != id]
}

/// An offset is stored for tile `id`.
pub open spec fn has_offset(offsets: Seq<(u32, u32)>, id: u32) -> bool {
    exists|k: int| 0 <= k < offsets.len() && offsets[k].0 == id
}

/// The first offset stored for tile `id`.
pub open spec fn offset_of(offsets: Seq<(u32, u32)>, id: u32) -> u32 {
    offsets[choose|k: int| 0 <= k < offsets.len() && offsets[k].0 == id && forall|j: int| 0 <= j < k ==> offsets[j].0 != id].1
}

/// The texture index of tile `id`: the tile id itself in a single image,
/// else its offset into the images.
pub open spec fn texture_index(texture: TilesetTexture, id: u32) -> u32 {
    match texture {
        TilesetTexture::Single => id,
        TilesetTexture::Vector(offsets) => offset_of(offsets@, id),
    }
}

/// The cell is drawn with this tileset: its tile belongs to the tileset and
/// the tileset describes it.
pub open spec fn drawn_with(v: TileVisit<LayerTileData>, tileset_index: usize, tiles: Seq<TilesetTile>) -> bool {
    v.tile.tileset_index == tileset_index && has_tile(tiles, v.tile.id)
}

/// The tile drawn for a cell.
pub open spec fn spec_placement(v: TileVisit<LayerTileData>, texture: TilesetTexture, tiles: Seq<TilesetTile>) -> TilePlacement {
    let t = tile_of(tiles, v.tile.id);
    TilePlacement {
        position: v.position,
        index: v.index,
        tile_id: v.tile.id,
        texture_index: texture_index(texture, v.tile.id),
        flip_x: v.tile.flip_h,
        flip_y: v.tile.flip_v,
        flip_d: v.tile.flip_d,
        animation: match t.animation {
            Some(frames) => spec_animated_tile(frames@),
            None => None,
        },
        custom: t.has_properties,
    }
}

/// The tiles drawn with a tileset, in the order of the cells.
pub open spec fn spec_placements(visits: Seq<TileVisit<LayerTileData>>, tileset_index: usize, texture: TilesetTexture, tiles: Seq<TilesetTile>) -> Seq<TilePlacement>
    decreases visits.len(),
{
    if visits.len() == 0 {
        Seq::empty()
    } else {
        let rest = spec_placements(visits.drop_last(), tileset_index, texture, tiles);
        if drawn_with(visits.last(), tileset_index, tiles) {
            rest.push(spec_placement(visits.last(), texture, tiles))
        } else {
            rest
        }
    }
}

/// Every tile drawn with the tileset can be: its texture offset is stored
/// (for per-tile images) and its animation can be read.
pub open spec fn placeable(visits: Seq<TileVisit<LayerTileData>>, tileset_index: usize, texture: TilesetTexture, tiles: Seq<TilesetTile>) -> bool {
    forall|k: int| 0 <= k < visits.len() && #[trigger] drawn_with(visits[k], tileset_index, tiles) ==> {
        &&& (texture matches TilesetTexture::Vector(offsets) ==> has_offset(offsets@, visits[k].tile.id))
        &&& (tile_of(tiles, visits[k].tile.id).animation matches Some(frames) ==> !animation_overflows(frames@))
    }
}

fn find_tile(tiles: &Vec<TilesetTile>, id: u32) -> (r: Option<usize>)
    ensures
        match r {
            Some(k) => has_tile(tiles@, id) && k < tiles@.len() && tiles@[k as int] == tile_of(tiles@, id),
            None => !has_tile(tiles@, id),
        },
{
    let mut i: usize = 0;
    while i < tiles.len()
        invariant
            i <= tiles@.len(),
            forall|j: int| 0 <= j < i ==> tiles@[j].id != id,
        decreases tiles@.len() - i,
    {
        if tiles[i].id == id {
            proof {
                let k = choose|k: int| 0 <= k < tiles@.len() && tiles@[k].id == id && forall|j: int| 0 <= j < k ==> tiles@[j].id != id;
                assert(0 <= i < tiles@.len() && tiles@[i as int].id == id && forall|j: int| 0 <= j < i ==> tiles@[j].id != id);
                assert(k == i) by {
                    if k < i {
                    } else if k > i {
                    }
                }
            }
            return Some(i);
        }
        i = i + 1;
    }
    None
}

fn find_offset(offsets: &Vec<(u32, u32)>, id: u32) -> (r: Option<u32>)
    ensures
        match r {
            Some(o) => has_offset(offsets@, id) && o == offset_of(offsets@, id),
            None => !has_offset(offsets@, id),
        },
{
    let mut i: usize = 0;
    while i < offsets.len()
        invariant
            i <= offsets@.len(),
            forall|j: int| 0 <= j < i ==> offsets@[j].0 != id,
        decreases offsets@.len() - i,
    {
        if offsets[i].0 == id {
            proof {
                let k = choose|k: int| 0 <= k < offsets@.len() && offsets@[k].0 == id && forall|j: int| 0 <= j < k ==> offsets@[j].0 != id;
                assert(0 <= i < offsets@.len() && offsets@[i as int].0 == id && forall|j: int| 0 <= j < i ==> offsets@[j].0 != id);
                assert(k == i) by {
                    if k < i {
                    } else if k > i {
                    }
                }
            }
            return Some(offsets[i].1);
        }
        i = i + 1;
    }
    None
}

/// The tiles of a layer (its cells, as the layer is walked) that are drawn
/// with the tileset at `tileset_index`, with their texture index, flips,
/// animation and whether they carry custom properties. `None` when one of
/// them cannot be drawn (see [`placeable`]).
pub fn place_tiles(visits: &Vec<TileVisit<LayerTileData>>, tileset_index: usize, texture: &TilesetTexture, tiles: &Vec<TilesetTile>) -> (r: Option<Vec<TilePlacement>>)
    ensures
        match r {
            Some(v) => placeable(visits@, tileset_index, *texture, tiles@)
                && v@ == spec_placements(visits@, tileset_index, *texture, tiles@),
            None => !placeable(visits@, tileset_index, *texture, tiles@),
        },
{
    let mut out: Vec<TilePlacement> = Vec::new();
    let mut i: usize = 0;
    while i < visits.len()
        invariant
            i <= visits@.len(),
            forall|k: int| 0 <= k < i && #[trigger] drawn_with(visits@[k], tileset_index, tiles@) ==> {
                &&& (*texture matches TilesetTexture::Vector(offsets) ==> has_offset(offsets@, visits@[k].tile.id))
                &&& (tile_of(tiles@, visits@[k].tile.id).animation matches Some(frames) ==> !animation_overflows(frames@))
            },
            out@ == spec_placements(visits@.subrange(0, i as int), tileset_index, *texture, tiles@),
        decreases visits@.len() - i,
    {
        let v = visits[i];
        proof {
            let s = visits@.subrange(0, i + 1);
            assert(s.drop_last() =~= visits@.subrange(0, i as int));
            assert(s.last() == v);
        }
        if v.tile.tileset_index == tileset_index {
            match find_tile(tiles, v.tile.id) {
                Some(k) => {
                    assert(drawn_with(visits@[i as int], tileset_index, tiles@));
                    let t = &tiles[k];
                    let texture_index = match texture {
                        TilesetTexture::Single => v.tile.id,
                        TilesetTexture::Vector(offsets) => match find_offset(offsets, v.tile.id) {
                            Some(o) => o,
                            None => {
                                return None;
                            },
                        },
                    };
                    let fits = match &t.animation {
                        Some(frames) => check_animation(frames),
                        None => true,
                    };
                    if !fits {
                        return None;
                    }
                    let animation = get_animated_tile(&t.animation);
                    out.push(TilePlacement {
                        position: v.position,
                        index: v.index,
                        tile_id: v.tile.id,
                        texture_index,
                        flip_x: v.tile.flip_h,
                        flip_y: v.tile.flip_v,
                        flip_d: v.tile.flip_d,
                        animation,
                        custom: t.has_properties,
                    });
                },
                None => {},
            }
        }
        i = i + 1;
    }
    assert(visits@.subrange(0, visits@.len() as int) =~= visits@);
    Some(out)
}

/// The placement `p` draws the cell `v`: at the cell's position and Tiled
/// coordinates, with the cell's tile and flips (horizontal, vertical,
/// diagonal in that order), the texture index of that tile (the tile id in
/// a single image, else the first offset stored for it), and the custom flag
/// of the tileset's first description of the tile.
pub open spec fn draws_cell(p: TilePlacement, v: TileVisit<LayerTileData>, tileset_index: usize, texture: TilesetTexture, tiles: Seq<TilesetTile>) -> bool {
    &&& v.tile.tileset_index == tileset_index
    &&& p.position == v.position
    &&& p.index == v.index
    &&& p.tile_id == v.tile.id
    &&& p.flip_x == v.tile.flip_h
    &&& p.flip_y == v.tile.flip_v
    &&& p.flip_d == v.tile.flip_d
    &&& exists|j: int| 0 <= j < tiles.len() && tiles[j].id == v.tile.id
        && (forall|l: int| 0 <= l < j ==> tiles[l].id != v.tile.id) && p.custom == tiles[j].has_properties
    &&& match texture {
        TilesetTexture::Single => p.texture_index == v.tile.id,
        TilesetTexture::Vector(offsets) => exists|j: int| 0 <= j < offsets@.len() && offsets@[j] == (v.tile.id, p.texture_index)
            && forall|l: int| 0 <= l < j ==> offsets@[l].0 != v.tile.id,
    }
}

proof fn lemma_first_tile(tiles: Seq<TilesetTile>, id: u32)
    requires
        has_tile(tiles, id),
    ensures
        exists|k: int| 0 <= k < tiles.len() && tiles[k].id == id && forall|j: int| 0 <= j < k ==> tiles[j].id != id,
    decreases tiles.len(),
{
    let d = tiles.drop_last();
    if has_tile(d, id) {
        lemma_first_tile(d, id);
        let k = choose|k: int| 0 <= k < d.len() && d[k].id == id && forall|j: int| 0 <= j < k ==> d[j].id != id;
        assert(tiles[k] == d[k]);
        assert forall|j: int| 0 <= j < k implies tiles[j].id != id by {
            assert(tiles[j] == d[j]);
        }
    } else {
        let k = tiles.len() - 1;
        assert(tiles[k].id == id) by {
            let w = choose|w: int| 0 <= w < tiles.len() && tiles[w].id == id;
            if w < k {
                assert(d[w] == tiles[w]);
            }
        }
        assert forall|j: int| 0 <= j < k implies tiles[j].id != id by {
            assert(tiles[j] == d[j]);
        }
    }
}

proof fn lemma_first_offset(offsets: Seq<(u32, u32)>, id: u32)
    requires
        has_offset(offsets, id),
    ensures
        exists|k: int| 0 <= k < offsets.len() && offsets[k].0 == id && forall|j: int| 0 <= j < k ==> offsets[j].0 != id,
    decreases offsets.len(),
{
    let d = offsets.drop_last();
    if has_offset(d, id) {
        lemma_first_offset(d, id);
        let k = choose|k: int| 0 <= k < d.len() && d[k].0 == id && forall|j: int| 0 <= j < k ==> d[j].0 != id;
        assert(offsets[k] == d[k]);
        assert forall|j: int| 0 <= j < k implies offsets[j].0 != id by {
            assert(offsets[j] == d[j]);
        }
    } else {
        let k = offsets.len() - 1;
        assert(offsets[k].0 == id) by {
            let w = choose|w: int| 0 <= w < offsets.len() && offsets[w].0 == id;
            if w < k {
                assert(d[w] == offsets[w]);
            }
        }
        assert forall|j: int| 0 <= j < k implies offsets[j].0 != id by {
            assert(offsets[j] == d[j]);
        }
    }
}

proof fn lemma_placement_draws(v: TileVisit<LayerTileData>, tileset_index: usize, texture: TilesetTexture, tiles: Seq<TilesetTile>)
    requires
        drawn_with(v, tileset_index, tiles),
        texture matches TilesetTexture::Vector(offsets) ==> has_offset(offsets@, v.tile.id),
    ensures
        draws_cell(spec_placement(v, texture, tiles), v, tileset_index, texture, tiles),
{
    let p = spec_placement(v, texture, tiles);
    lemma_first_tile(tiles, v.tile.id);
    let j = choose|k: int| 0 <= k < tiles.len() && tiles[k].id == v.tile.id && forall|l: int| 0 <= l < k ==> tiles[l].id != v.tile.id;
    assert(tile_of(tiles, v.tile.id) == tiles[j]);
    match texture {
        TilesetTexture::Single => {},
        TilesetTexture::Vector(offsets) => {
            lemma_first_offset(offsets@, v.tile.id);
            let o = choose|k: int| 0 <= k < offsets@.len() && offsets@[k].0 == v.tile.id && forall|l: int| 0 <= l < k ==> offsets@[l].0 != v.tile.id;
            assert(offsets@[o] == (v.tile.id, p.texture_index));
        },
    }
}

proof fn lemma_placements_from(visits: Seq<TileVisit<LayerTileData>>, tileset_index: usize, texture: TilesetTexture, tiles: Seq<TilesetTile>)
    ensures
        ({
            let ps = spec_placements(visits, tileset_index, texture, tiles);
            &&& ps.len() <= visits.len()
            &&& forall|i: int| 0 <= i < ps.len() ==> exists|k: int| 0 <= k < visits.len()
                && drawn_with(visits[k], tileset_index, tiles) && #[trigger] ps[i] == spec_placement(visits[k], texture, tiles)
            &&& forall|k: int| 0 <= k < visits.len() && #[trigger] drawn_with(visits[k], tileset_index, tiles) ==>
                exists|i: int| 0 <= i < ps.len() && ps[i] == spec_placement(visits[k], texture, tiles)
        }),
    decreases visits.len(),
{
    if visits.len() > 0 {
        let d = visits.drop_last();
        lemma_placements_from(d, tileset_index, texture, tiles);
        let rest = spec_placements(d, tileset_index, texture, tiles);
        let ps = spec_placements(visits, tileset_index, texture, tiles);
        let n = visits.len() - 1;
        assert forall|i: int| 0 <= i < ps.len() implies exists|k: int| 0 <= k < visits.len()
            && drawn_with(visits[k], tileset_index, tiles) && #[trigger] ps[i] == spec_placement(visits[k], texture, tiles) by {
            if i < rest.len() {
                assert(ps[i] == rest[i]);
                let k = choose|k: int| 0 <= k < d.len() && drawn_with(d[k], tileset_index, tiles) && rest[i] == spec_placement(d[k], texture, tiles);
                assert(visits[k] == d[k]);
            } else {
                assert(ps[i] == spec_placement(visits[n], texture, tiles));
            }
        }
        assert forall|k: int| 0 <= k < visits.len() && #[trigger] drawn_with(visits[k], tileset_index, tiles) implies
            exists|i: int| 0 <= i < ps.len() && ps[i] == spec_placement(visits[k], texture, tiles) by {
            if k < n {
                assert(visits[k] == d[k]);
                assert(drawn_with(d[k], tileset_index, tiles));
                let i = choose|i: int| 0 <= i < rest.len() && rest[i] == spec_placement(d[k], texture, tiles);
                assert(ps[i] == rest[i]);
            } else {
                assert(ps[rest.len() as int] == spec_placement(visits[n], texture, tiles));
            }
        }
    }
}

/// Placing the tiles of a layer drawn with a tileset: each placement draws
/// one cell of that tileset (see [`draws_cell`]), in particular with the
/// cell's own horizontal, vertical and diagonal flips, and every cell whose
/// tile belongs to the tileset and is described by it gets a placement.
pub proof fn lemma_placements_draw_cells(visits: Seq<TileVisit<LayerTileData>>, tileset_index: usize, texture: TilesetTexture, tiles: Seq<TilesetTile>)
    requires
        placeable(visits, tileset_index, texture, tiles),
    ensures
        ({
            let ps = spec_placements(visits, tileset_index, texture, tiles);
            &&& ps.len() <= visits.len()
            &&& forall|i: int| 0 <= i < ps.len() ==> exists|k: int| 0 <= k < visits.len()
                && draws_cell(#[trigger] ps[i], visits[k], tileset_index, texture, tiles)
            &&& forall|k: int| 0 <= k < visits.len() && visits[k].tile.tileset_index == tileset_index
                && (exists|j: int| 0 <= j < tiles.len() && tiles[j].id == #[trigger] visits[k].tile.id) ==>
                exists|i: int| 0 <= i < ps.len() && draws_cell(ps[i], visits[k], tileset_index, texture, tiles)
        }),
{
    lemma_placements_from(visits, tileset_index, texture, tiles);
    let ps = spec_placements(visits, tileset_index, texture, tiles);
    assert forall|i: int| 0 <= i < ps.len() implies exists|k: int| 0 <= k < visits.len()
        && draws_cell(#[trigger] ps[i], visits[k], tileset_index, texture, tiles) by {
        let k = choose|k: int| 0 <= k < visits.len() && drawn_with(visits[k], tileset_index, tiles) && ps[i] == spec_placement(visits[k], texture, tiles);
        lemma_placement_draws(visits[k], tileset_index, texture, tiles);
    }
    assert forall|k: int| 0 <= k < visits.len() && visits[k].tile.tileset_index == tileset_index
        && (exists|j: int| 0 <= j < tiles.len() && tiles[j].id == #[trigger] visits[k].tile.id) implies
        exists|i: int| 0 <= i < ps.len() && draws_cell(ps[i], visits[k], tileset_index, texture, tiles) by {
        assert(drawn_with(visits[k], tileset_index, tiles));
        let i = choose|i: int| 0 <= i < ps.len() && ps[i] == spec_placement(visits[k], texture, tiles);
        lemma_placement_draws(visits[k], tileset_index, texture, tiles);
    }
}

} // verus!
