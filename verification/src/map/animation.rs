//! Tile animations: which Tiled animations can be played as a range of
//! consecutive tiles, and how an animated sprite steps through its frames.
use vstd::prelude::*;

verus! {

/// A frame of a Tiled tile animation.
#[derive(Copy, Clone, Debug, PartialEq, Eq, Structural)]
pub struct Frame {
    pub tile_id: u32,
    /// How long the frame is shown, in milliseconds.
    pub duration: u32,
}

/// An animation played over the tiles `start .. end` of a tileset, each
/// shown for the same time: one loop takes `period_ms` milliseconds.
#[derive(Copy, Clone, Debug, PartialEq, Eq, Structural)]
pub struct AnimatedTileRange {
    pub start: u32,
    pub end: u32,
    pub period_ms: u32,
}

/// The frames before `k` all last as long as the first one, and each shows
/// the tile after the one before it.
pub open spec fn regular_upto(frames: Seq<Frame>, k: int) -> bool {
    forall|j: int| 0 <= j < k ==> {
        &&& #[trigger] frames[j].duration == frames[0].duration
        &&& j > 0 ==> frames[j].tile_id == frames[j - 1].tile_id + 1
    }
}

/// The animation can be played: it has a frame, all frames last equally
/// long, and they show consecutive tiles.
pub open spec fn playable(frames: Seq<Frame>) -> bool {
    frames.len() > 0 && regular_upto(frames, frames.len() as int)
}

/// Checking the frames overflows: frame `k` lasts as long as the first and
/// every frame before it is regular, but the tile before it is the last one
/// a `u32` can number.
pub open spec fn check_overflows(frames: Seq<Frame>) -> bool {
    exists|k: int|
        0 < k < frames.len() && regular_upto(frames, k) && #[trigger] frames[k].duration == frames[0].duration
            && frames[k - 1].tile_id == u32::MAX
}

/// Reading the animation overflows a `u32`.
pub open spec fn animation_overflows(frames: Seq<Frame>) -> bool {
    check_overflows(frames) || (playable(frames) && (frames.last().tile_id == u32::MAX
        || frames[0].duration * frames.len() > u32::MAX))
}

/// The range a playable animation is played over.
pub open spec fn spec_animated_tile(frames: Seq<Frame>) -> Option<AnimatedTileRange> {
    if playable(frames) {
        Some(AnimatedTileRange {
            start: frames[0].tile_id,
            end: (frames.last().tile_id + 1) as u32,
            period_ms: (frames[0].duration * frames.len()) as u32,
        })
    } else {
        None
    }
}

/// The range of tiles an animation is played over, when all its frames last
/// equally long and show consecutive tiles; `None` for a tile with no
/// animation or an animation that cannot be played so.
pub fn get_animated_tile(animation: &Option<Vec<Frame>>) -> (r: Option<AnimatedTileRange>)
    requires
        animation matches Some(frames) ==> !animation_overflows(frames@),
    ensures
        r == match animation {
            Some(frames) => spec_animated_tile(frames@),
            None => None,
        },
{
    let frames = match animation {
        Some(f) => f,
        None => return None,
    };
    if frames.len() == 0 {
        return None;
    }
    let first = frames[0];
    let last = frames[frames.len() - 1];
    let mut i: usize = 0;
    while i < frames.len()
        invariant
            *animation == Some(*frames),
            0 < frames@.len(),
            first == frames@[0],
            i <= frames@.len(),
            regular_upto(frames@, i as int),
            !animation_overflows(frames@),
        decreases frames@.len() - i,
    {
        let frame = frames[i];
        if frame.duration != first.duration {
            assert(!regular_upto(frames@, frames@.len() as int));
            return None;
        }
        if i > 0 {
            let previous = frames[i - 1].tile_id;
            if previous == u32::MAX {
                proof {
                    assert(check_overflows(frames@));
                }
                return None;
            }
            if frame.tile_id != previous + 1 {
                assert(!regular_upto(frames@, frames@.len() as int));
                return None;
            }
        }
        proof {
            assert forall|j: int| 0 <= j < i + 1 implies {
                &&& #[trigger] frames@[j].duration == frames@[0].duration
                &&& j > 0 ==> frames@[j].tile_id == frames@[j - 1].tile_id + 1
            } by {
                if j < i {
                    assert(regular_upto(frames@, i as int));
                }
            }
            assert(regular_upto(frames@, i + 1));
        }
        i = i + 1;
    }
    assert(playable(frames@));
    let count = frames.len() as u64;
    let period = first.duration as u64 * count;
    Some(AnimatedTileRange { start: first.tile_id, end: last.tile_id + 1, period_ms: period as u32 })
}

/// The frame shown after frame `index` of an animation over `start .. end`:
/// the next one, or `start` again after the last.
pub open spec fn spec_next_index(index: int, start: int, end: int) -> int {
    if index + 1 >= end {
        start
    } else {
        index + 1
    }
}

/// The index of an animated sprite after its timer fires.
pub fn next_atlas_index(index: usize, start: usize, end: usize) -> (r: usize)
    requires
        index < usize::MAX,
    ensures
        r == spec_next_index(index as int, start as int, end as int),
{
    let next = index + 1;
    if next >= end {
        start
    } else {
        next
    }
}

/// The index after `k` steps from `index`.
pub open spec fn steps(k: nat, index: int, start: int, end: int) -> int
    decreases k,
{
    if k == 0 {
        index
    } else {
        steps((k - 1) as nat, spec_next_index(index, start, end), start, end)
    }
}

proof fn lemma_steps_forward(k: nat, index: int, start: int, end: int)
    requires
        index + k < end,
    ensures
        steps(k, index, start, end) == index + k,
    decreases k,
{
    if k > 0 {
        lemma_steps_forward((k - 1) as nat, index + 1, start, end);
    }
}

proof fn lemma_steps_add(a: nat, b: nat, index: int, start: int, end: int)
    ensures
        steps(a + b, index, start, end) == steps(b, steps(a, index, start, end), start, end),
    decreases a,
{
    if a > 0 {
        lemma_steps_add((a - 1) as nat, b, spec_next_index(index, start, end), start, end);
        assert((a + b - 1) as nat == ((a - 1) as nat + b) as nat);
    }
}

/// An animated sprite stays within its frames and comes back to the frame
/// it shows after one step per frame.
pub proof fn lemma_animation_cycles(index: int, start: int, end: int)
    requires
        start <= index < end,
    ensures
        start <= spec_next_index(index, start, end) < end,
        steps((end - start) as nat, index, start, end) == index,
{
    let to_last = (end - 1 - index) as nat;
    lemma_steps_forward(to_last, index, start, end);
    lemma_steps_add(to_last, 1, index, start, end);
    lemma_steps_add((to_last + 1) as nat, (index - start) as nat, index, start, end);
    assert(steps(1, end - 1, start, end) == start) by {
        reveal_with_fuel(steps, 2);
    }
    assert(steps((to_last + 1) as nat, index, start, end) == start);
    lemma_steps_forward((index - start) as nat, start, start, end);
    assert((end - start) as nat == ((to_last + 1) as nat + (index - start) as nat) as nat);
}


proof fn lemma_regular_ids(frames: Seq<Frame>, k: int)
    requires
        0 <= k,
        regular_upto(frames, k + 1),
        k < frames.len(),
    ensures
        frames[k].tile_id == frames[0].tile_id + k,
    decreases k,
{
    if k > 0 {
        assert(regular_upto(frames, k)) by {
            assert forall|j: int| 0 <= j < k implies {
                &&& #[trigger] frames[j].duration == frames[0].duration
                &&& j > 0 ==> frames[j].tile_id == frames[j - 1].tile_id + 1
            } by {
                assert(frames[j].duration == frames[0].duration);
            }
        }
        lemma_regular_ids(frames, k - 1);
        assert(frames[k].duration == frames[0].duration);
    }
}

/// A played animation covers one tile per frame: the range starts at the
/// first frame's tile, holds as many tiles as there are frames, and frame
/// `k` shows tile `start + k`.
pub proof fn lemma_animated_range(frames: Seq<Frame>)
    requires
        playable(frames),
        !animation_overflows(frames),
    ensures
        spec_animated_tile(frames) matches Some(r) && r.end - r.start == frames.len()
            && r.period_ms == frames[0].duration * frames.len()
            && forall|k: int| 0 <= k < frames.len() ==> #[trigger] frames[k].tile_id == r.start + k,
{
    assert forall|k: int| 0 <= k < frames.len() implies #[trigger] frames[k].tile_id == frames[0].tile_id + k by {
        assert(regular_upto(frames, k + 1)) by {
            assert forall|j: int| 0 <= j < k + 1 implies {
                &&& #[trigger] frames[j].duration == frames[0].duration
                &&& j > 0 ==> frames[j].tile_id == frames[j - 1].tile_id + 1
            } by {
                assert(frames[j].duration == frames[0].duration);
            }
        }
        lemma_regular_ids(frames, k);
    }
    assert(frames.last().tile_id == frames[0].tile_id + frames.len() - 1);
}


/// An animation is played as a range of tiles exactly when it has a frame,
/// every frame lasts as long as the first, and each frame shows the tile
/// after the one the frame before shows.
pub proof fn lemma_animation_played_iff(frames: Seq<Frame>)
    ensures
        spec_animated_tile(frames) is Some <==> (frames.len() > 0 && forall|k: int| 0 <= k < frames.len() ==> {
            &&& #[trigger] frames[k].duration == frames[0].duration
            &&& k > 0 ==> frames[k].tile_id == frames[k - 1].tile_id + 1
        }),
{
}

/// Tells whether an animation can be read without overflowing a `u32` (see
/// [`animation_overflows`]).
pub fn check_animation(frames: &Vec<Frame>) -> (r: bool)
    ensures
        r == !animation_overflows(frames@),
{
    if frames.len() == 0 {
        return true;
    }
    let first = frames[0];
    let mut i: usize = 0;
    while i < frames.len()
        invariant
            0 < frames@.len(),
            first == frames@[0],
            i <= frames@.len(),
            regular_upto(frames@, i as int),
            forall|k: int| 0 < k < i ==> !(#[trigger] frames@[k].duration == frames@[0].duration && regular_upto(frames@, k)
                && frames@[k - 1].tile_id == u32::MAX),
        decreases frames@.len() - i,
    {
        let frame = frames[i];
        if frame.duration != first.duration {
            proof {
                assert(!playable(frames@));
                assert(!check_overflows(frames@)) by {
                    if check_overflows(frames@) {
                        let k = choose|k: int| 0 < k < frames@.len() && regular_upto(frames@, k)
                            && #[trigger] frames@[k].duration == frames@[0].duration && frames@[k - 1].tile_id == u32::MAX;
                        if k > i {
                            assert(frames@[i as int].duration == frames@[0].duration);
                        }
                    }
                }
            }
            return true;
        }
        if i > 0 {
            let previous = frames[i - 1].tile_id;
            if previous == u32::MAX {
                assert(check_overflows(frames@));
                return false;
            }
            if frame.tile_id != previous + 1 {
                proof {
                    assert(!playable(frames@));
                    assert(!check_overflows(frames@)) by {
                        if check_overflows(frames@) {
                            let k = choose|k: int| 0 < k < frames@.len() && regular_upto(frames@, k)
                                && #[trigger] frames@[k].duration == frames@[0].duration && frames@[k - 1].tile_id == u32::MAX;
                            if k > i {
                                assert(frames@[i as int].duration == frames@[0].duration);
                            }
                        }
                    }
                }
                return true;
            }
        }
        proof {
            assert forall|j: int| 0 <= j < i + 1 implies {
                &&& #[trigger] frames@[j].duration == frames@[0].duration
                &&& j > 0 ==> frames@[j].tile_id == frames@[j - 1].tile_id + 1
            } by {
                if j < i {
                    assert(regular_upto(frames@, i as int));
                }
            }
            assert(regular_upto(frames@, i + 1));
        }
        i = i + 1;
    }
    assert(playable(frames@));
    assert(!check_overflows(frames@)) by {
        if check_overflows(frames@) {
            let k = choose|k: int| 0 < k < frames@.len() && regular_upto(frames@, k)
                && #[trigger] frames@[k].duration == frames@[0].duration && frames@[k - 1].tile_id == u32::MAX;
        }
    }
    let last = frames[frames.len() - 1];
    if last.tile_id == u32::MAX {
        return false;
    }
    if first.duration == 0 {
        assert(frames@[0].duration * frames@.len() == 0) by (nonlinear_arith)
            requires
                frames@[0].duration == 0;
        return true;
    }
    if frames.len() > 0xffff_ffff {
        proof {
            assert(first.duration * frames@.len() > u32::MAX) by (nonlinear_arith)
                requires
                    first.duration >= 1,
                    frames@.len() > 0xffff_ffff;
        }
        return false;
    }
    let n = frames.len() as u64;
    assert(first.duration * n <= 0xffff_ffff * 0xffff_ffff) by (nonlinear_arith)
        requires
            first.duration <= 0xffff_ffff,
            n <= 0xffff_ffff;
    let period = first.duration as u64 * n;
    period <= 0xffff_ffff
}

} // verus!
