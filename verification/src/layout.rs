//! Where things are in the skinned windows, in skin pixels.

use vstd::prelude::*;

verus! {

/// The windows' common width.
pub const WINDOW_WIDTH: u32 = 275;

/// The main window's height.
pub const WINDOW_HEIGHT: u32 = 116;

/// The main window rolled up.
pub const SHADE_HEIGHT: u32 = 14;

/// The equalizer's height.
pub const EQ_HEIGHT: u32 = 116;

/// The equalizer rolled up.
pub const EQ_SHADE_HEIGHT: u32 = 14;

/// The playlist rolled up.
pub const PLAYLIST_SHADE_HEIGHT: u32 = 14;

/// The least and the most that the playlist stretches to.
pub const PLAYLIST_MIN_HEIGHT: u32 = 116;

pub const PLAYLIST_MAX_HEIGHT: u32 = 696;

/// How far one notch of the corner stretches it.
pub const PLAYLIST_RESIZE_STEP: u32 = 29;

/// The playlist's frame around its list.
pub const PLAYLIST_LEFT_WIDTH: u32 = 12;

pub const PLAYLIST_RIGHT_WIDTH: u32 = 20;

pub const PLAYLIST_TITLE_HEIGHT: u32 = 20;

pub const PLAYLIST_BOTTOM_HEIGHT: u32 = 38;

pub const PLAYLIST_TILE_WIDTH: u32 = 25;

pub const PLAYLIST_TILE_HEIGHT: u32 = 29;

/// The title in the middle of the playlist's top edge.
pub const PLAYLIST_TITLE_WIDTH: u32 = 100;

/// One row of the list.
pub const PLAYLIST_TRACK_HEIGHT: u32 = 13;

/// One character of the small font.
pub const GLYPH_WIDTH: u32 = 5;

/// The stand-in mini player's equalizer panel.
pub const MINI_EQ_HEIGHT: u32 = 156;

/// A rectangle of skin pixels.
#[derive(Clone, Copy, Debug, PartialEq, Eq, Structural)]
pub struct Area {
    pub x: u32,
    pub y: u32,
    pub width: u32,
    pub height: u32,
}

impl Area {
    pub fn new(x: u32, y: u32, width: u32, height: u32) -> (a: Self)
        ensures
            a == (Area { x, y, width, height }),
    {
        Area { x, y, width, height }
    }
}

/// How many tiles of that size it takes to cover the way from `start` to `end`.
pub open spec fn tile_count(start: int, end: int, size: int) -> int {
    if end <= start {
        0
    } else {
        (end - start + size - 1) / size
    }
}

/// It takes as many tiles as reach the end and no more: one fewer would leave a
/// gap. Where there is no way to cover, it takes none.
pub proof fn lemma_tile_count(start: int, end: int, size: int)
    requires
        size > 0,
    ensures
        end <= start ==> tile_count(start, end, size) == 0,
        end > start ==> (tile_count(start, end, size) - 1) * size < end - start <= tile_count(
            start,
            end,
            size,
        ) * size,
{
    if end > start {
        let m = end - start;
        let n = (m + size - 1) / size;
        assert((n - 1) * size < m <= n * size) by (nonlinear_arith)
            requires
                size > 0,
                n == (m + size - 1) / size,
        ;
    }
}

/// Where the tiles go that cover the way from `start` to `end`: one after
/// another, the last one wherever it begins before the end.
pub fn tile_positions(start: u32, end: u32, size: u32) -> (at: Vec<u32>)
    requires
        0 < size,
        end + size <= u32::MAX,
    ensures
        at@.len() == tile_count(start as int, end as int, size as int),
        forall|k: int| 0 <= k < at@.len() ==> #[trigger] at@[k] == start + k * size,
        forall|k: int| 0 <= k < at@.len() ==> start <= #[trigger] at@[k] < end,
        start < end ==> at@.len() > 0 && at@.last() + size >= end,
{
    let mut at: Vec<u32> = Vec::new();
    let mut x: u32 = start;
    let ghost mut n: int = 0;
    proof {
        assert(n * size == 0) by (nonlinear_arith)
            requires
                n == 0,
        ;
    }
    while x < end
        invariant
            0 < size,
            end + size <= u32::MAX,
            n == at@.len(),
            x == start + n * size,
            start <= x,
            n > 0 ==> x < end + size && at@.last() == x - size,
            n == 0 ==> x == start,
            forall|k: int| 0 <= k < n ==> #[trigger] at@[k] == start + k * size,
            forall|k: int| 0 <= k < n ==> start <= #[trigger] at@[k] < end,
        decreases end + size - x,
    {
        at.push(x);
        proof {
            assert((n + 1) * size == n * size + size) by (nonlinear_arith);
            n = n + 1;
        }
        x = x + size;
    }
    proof {
        if start < end {
            let m = end - start;
            let s = size as int;
            assert(n == (m + s - 1) / s) by (nonlinear_arith)
                requires
                    s > 0,
                    n > 0,
                    (n - 1) * s < m,
                    n * s >= m,
            ;
        }
    }
    at
}

} // verus!
