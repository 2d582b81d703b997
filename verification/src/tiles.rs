//! Tile values: a cell is empty or holds a power of two, 2 at the least.
//! The moves keep it so as long as no merge leaves the range of a cell.

use crate::game::{step_down, step_left, step_right, step_up};
use crate::grid::{
    doubled, is_square, merged, merged_grid, moved_left, occupied, opening, packed, slid,
    slid_grid, turned180, turned270, turned90, Grid, Snapshot,
};
use vstd::arithmetic::power2::{
    lemma2_to64, lemma_pow2_strictly_increases, lemma_pow2_unfold, pow2,
};
use vstd::prelude::*;

verus! {

/// `v` is an empty cell, or a tile whose value is a power of two from 2 up
/// to 2 to the `top`.
pub open spec fn is_tile(v: u32, top: nat) -> bool {
    v == 0 || exists|k: nat| 1 <= k <= top && #[trigger] pow2(k) == v
}

/// Every cell of the row is empty or holds a tile of at most 2 to the `top`.
pub open spec fn row_of_tiles(r: Seq<u32>, top: nat) -> bool {
    forall|j: int| 0 <= j < r.len() ==> is_tile(#[trigger] r[j], top)
}

/// Every cell of the grid is empty or holds a tile of at most 2 to the
/// `top`.
pub open spec fn grid_of_tiles(g: Grid, top: nat) -> bool {
    forall|i: int| 0 <= i < g.len() ==> row_of_tiles(#[trigger] g[i], top)
}

/// A tile of at most 2 to the `top` is one of at most 2 to the `top + 1`.
pub proof fn lemma_tile_widens(v: u32, top: nat)
    requires
        is_tile(v, top),
    ensures
        is_tile(v, top + 1),
{
    if v != 0 {
        let k = choose|k: nat| 1 <= k <= top && #[trigger] pow2(k) == v;
        assert(1 <= k <= top + 1 && pow2(k) == v);
    }
}

/// Two equal tiles below the largest power of two that a cell can hold
/// merge into a tile: the next power of two.
pub proof fn lemma_doubled_tile(v: u32, top: nat)
    requires
        is_tile(v, top),
        top < 31,
    ensures
        is_tile(doubled(v), top + 1),
        doubled(v) == 2 * v,
{
    if v != 0 {
        let k = choose|k: nat| 1 <= k <= top && #[trigger] pow2(k) == v;
        lemma_pow2_unfold(k + 1);
        lemma2_to64();
        if k + 1 < 31 {
            lemma_pow2_strictly_increases(k + 1, 31);
        }
        assert(1 <= k + 1 <= top + 1 && pow2(k + 1) == doubled(v));
    }
}

/// Sliding a row of tiles gives a row of tiles.
pub proof fn lemma_slid_tiles(r: Seq<u32>, top: nat)
    requires
        row_of_tiles(r, top),
    ensures
        row_of_tiles(slid(r), top),
{
    assert forall|j: int| 0 <= j < slid(r).len() implies is_tile(#[trigger] slid(r)[j], top) by {
        if j < packed(r).len() {
            let v = packed(r)[j];
            assert(packed(r).contains(v));
            r.lemma_filter_contains_rev(occupied(), v);
            let i = choose|i: int| 0 <= i < r.len() && r[i] == v;
            assert(is_tile(r[i], top));
        }
    }
}

/// One merging pass keeps the length of a row, and turns a row of tiles
/// below the largest power of two into a row of tiles.
pub proof fn lemma_merged_tiles(r: Seq<u32>, top: nat)
    requires
        row_of_tiles(r, top),
        top < 31,
    ensures
        merged(r).len() == r.len(),
        row_of_tiles(merged(r), top + 1),
    decreases r.len(),
{
    if r.len() < 2 {
        assert forall|j: int| 0 <= j < r.len() implies is_tile(#[trigger] r[j], top + 1) by {
            lemma_tile_widens(r[j], top);
        }
    } else if r[0] != 0 && r[0] == r[1] {
        let rest = r.skip(2);
        assert forall|j: int| 0 <= j < rest.len() implies is_tile(#[trigger] rest[j], top) by {
            assert(rest[j] == r[j + 2]);
        }
        lemma_merged_tiles(rest, top);
        lemma_doubled_tile(r[0], top);
        assert forall|j: int| 0 <= j < merged(r).len() implies is_tile(
            #[trigger] merged(r)[j],
            top + 1,
        ) by {
            if j >= 2 {
                assert(merged(r)[j] == merged(rest)[j - 2]);
            }
        }
    } else {
        let rest = r.skip(1);
        assert forall|j: int| 0 <= j < rest.len() implies is_tile(#[trigger] rest[j], top) by {
            assert(rest[j] == r[j + 1]);
        }
        lemma_merged_tiles(rest, top);
        lemma_tile_widens(r[0], top);
        assert forall|j: int| 0 <= j < merged(r).len() implies is_tile(
            #[trigger] merged(r)[j],
            top + 1,
        ) by {
            if j >= 1 {
                assert(merged(r)[j] == merged(rest)[j - 1]);
            }
        }
    }
}

/// A move to the left keeps the shape of the grid, and turns a grid of
/// tiles below the largest power of two into a grid of tiles.
pub proof fn lemma_moved_left_tiles(g: Grid, n: nat, top: nat)
    requires
        is_square(g, n),
        grid_of_tiles(g, top),
        top < 31,
    ensures
        is_square(moved_left(g), n),
        grid_of_tiles(moved_left(g), top + 1),
{
    let a = slid_grid(g);
    let b = merged_grid(a);
    let c = slid_grid(b);
    assert forall|i: int| 0 <= i < n implies (#[trigger] c[i]).len() == n && row_of_tiles(
        c[i],
        top + 1,
    ) by {
        assert(row_of_tiles(g[i], top));
        lemma_slid_tiles(g[i], top);
        crate::laws::lemma_slid_keeps(g[i]);
        lemma_merged_tiles(a[i], top);
        lemma_slid_tiles(b[i], top + 1);
        crate::laws::lemma_slid_keeps(b[i]);
    }
}

/// Turning a grid of tiles gives a grid of tiles of the same shape.
pub proof fn lemma_turned_tiles(g: Grid, n: nat, top: nat)
    requires
        is_square(g, n),
        grid_of_tiles(g, top),
    ensures
        is_square(turned90(g), n),
        is_square(turned180(g), n),
        is_square(turned270(g), n),
        grid_of_tiles(turned90(g), top),
        grid_of_tiles(turned180(g), top),
        grid_of_tiles(turned270(g), top),
{
    assert forall|i: int, j: int| 0 <= i < n && 0 <= j < n implies is_tile(
        #[trigger] g[i][j],
        top,
    ) by {
        assert(row_of_tiles(g[i], top));
    }
    assert forall|i: int| 0 <= i < n implies row_of_tiles(#[trigger] turned90(g)[i], top) by {
        assert forall|j: int| 0 <= j < n implies is_tile(#[trigger] turned90(g)[i][j], top) by {
            assert(turned90(g)[i][j] == g[n - 1 - j][i]);
        }
    }
    assert forall|i: int| 0 <= i < n implies row_of_tiles(#[trigger] turned180(g)[i], top) by {
        assert forall|j: int| 0 <= j < n implies is_tile(#[trigger] turned180(g)[i][j], top) by {
            assert(turned180(g)[i][j] == g[n - 1 - i][n - 1 - j]);
        }
    }
    assert forall|i: int| 0 <= i < n implies row_of_tiles(#[trigger] turned270(g)[i], top) by {
        assert forall|j: int| 0 <= j < n implies is_tile(#[trigger] turned270(g)[i][j], top) by {
            assert(turned270(g)[i][j] == g[j][n - 1 - i]);
        }
    }
}

/// A grid that a game begins with is a grid of tiles of at most 4.
pub proof fn lemma_opening_tiles(g: Grid, n: nat)
    requires
        opening(g, n),
    ensures
        grid_of_tiles(g, 2),
{
    lemma2_to64();
    assert(pow2(1) == 2 && pow2(2) == 4);
    assert forall|i: int, j: int| 0 <= i < n && 0 <= j < n implies is_tile(#[trigger] g[i][j], 2) by {
        let v = g[i][j];
        if v != 0 {
            assert(v == 2 || v == 4);
            if v == 2 {
                assert(1 <= 1 <= 2 && pow2(1) == v);
            } else {
                assert(1 <= 2 <= 2 && pow2(2) == v);
            }
        }
    }
    assert forall|i: int| 0 <= i < g.len() implies row_of_tiles(#[trigger] g[i], 2) by {
        assert forall|j: int| 0 <= j < g[i].len() implies is_tile(#[trigger] g[i][j], 2) by {}
    }
}

/// Each of the four moves leads from a square grid of tiles below the
/// largest power of two to a square grid of tiles, and never lowers a score
/// that is in the score's range.
pub proof fn lemma_steps_keep_tiles(s: Snapshot, n: nat, top: nat)
    requires
        is_square(s.grid, n),
        grid_of_tiles(s.grid, top),
        top < 31,
        s.points <= u32::MAX,
    ensures
        is_square(step_left(s).grid, n) && grid_of_tiles(step_left(s).grid, top + 1),
        is_square(step_right(s).grid, n) && grid_of_tiles(step_right(s).grid, top + 1),
        is_square(step_up(s).grid, n) && grid_of_tiles(step_up(s).grid, top + 1),
        is_square(step_down(s).grid, n) && grid_of_tiles(step_down(s).grid, top + 1),
        step_left(s).points >= s.points,
        step_right(s).points >= s.points,
        step_up(s).points >= s.points,
        step_down(s).points >= s.points,
{
    let g = s.grid;
    lemma_turned_tiles(g, n, top);
    lemma_moved_left_tiles(g, n, top);
    lemma_moved_left_tiles(turned90(g), n, top);
    lemma_moved_left_tiles(turned180(g), n, top);
    lemma_moved_left_tiles(turned270(g), n, top);
    lemma_turned_tiles(moved_left(turned90(g)), n, top + 1);
    lemma_turned_tiles(moved_left(turned180(g)), n, top + 1);
    lemma_turned_tiles(moved_left(turned270(g)), n, top + 1);
}

} // verus!
