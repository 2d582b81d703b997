//! The mathematical model of the board: grids as sequences of rows, and the
//! functions on them that the moves are stated over.

use vstd::prelude::*;

verus! {

/// A grid: rows top to bottom, each row left to right. A cell holds 0 when
/// it is empty, else the value of the tile on it.
pub type Grid = Seq<Seq<u32>>;

/// `g` has `n` rows of `n` cells each.
pub open spec fn is_square(g: Grid, n: nat) -> bool {
    &&& g.len() == n
    &&& forall|i: int| 0 <= i < n ==> (#[trigger] g[i]).len() == n
}

/// The grid of dimension `n` with no tile on it.
pub open spec fn blank(n: nat) -> Grid {
    Seq::new(n, |i: int| Seq::new(n, |j: int| 0u32))
}

/// `g` with the cell in row `i`, column `j` replaced by `v`.
pub open spec fn placed(g: Grid, i: int, j: int, v: u32) -> Grid {
    g.update(i, g[i].update(j, v))
}

/// `g` mirrored along its main diagonal.
pub open spec fn transposed(g: Grid) -> Grid {
    Seq::new(g.len(), |i: int| Seq::new(g.len(), |j: int| g[j][i]))
}

/// `g` with each row read right to left.
pub open spec fn rows_reversed(g: Grid) -> Grid {
    Seq::new(g.len(), |i: int| Seq::new(g.len(), |j: int| g[i][g.len() - 1 - j]))
}

/// `g` with each column read bottom to top.
pub open spec fn cols_reversed(g: Grid) -> Grid {
    Seq::new(g.len(), |i: int| Seq::new(g.len(), |j: int| g[g.len() - 1 - i][j]))
}

/// `g` turned a quarter clockwise: the first column, read bottom to top,
/// becomes the first row.
pub open spec fn turned90(g: Grid) -> Grid {
    Seq::new(g.len(), |i: int| Seq::new(g.len(), |j: int| g[g.len() - 1 - j][i]))
}

/// `g` turned by a half.
pub open spec fn turned180(g: Grid) -> Grid {
    Seq::new(g.len(), |i: int| Seq::new(g.len(), |j: int| g[g.len() - 1 - i][g.len() - 1 - j]))
}

/// `g` turned a quarter counter-clockwise: the last column, read top to
/// bottom, becomes the first row.
pub open spec fn turned270(g: Grid) -> Grid {
    Seq::new(g.len(), |i: int| Seq::new(g.len(), |j: int| g[j][g.len() - 1 - i]))
}

/// Some cell of `g`, a grid of dimension `n`, is empty.
pub open spec fn has_empty(g: Grid, n: nat) -> bool {
    exists|i: int, j: int| 0 <= i < n && 0 <= j < n && #[trigger] g[i][j] == 0
}

/// `after` is `before` with a tile of value 2 or 4 on the cell in row `i`,
/// column `j`, which was empty.
pub open spec fn spawned_at(before: Grid, after: Grid, n: nat, i: int, j: int) -> bool {
    &&& 0 <= i < n
    &&& 0 <= j < n
    &&& before[i][j] == 0
    &&& after[i][j] == 2 || after[i][j] == 4
    &&& after == placed(before, i, j, after[i][j])
}

/// `after` is `before` with one more tile, of value 2 or 4, on a cell that
/// was empty.
pub open spec fn spawned(before: Grid, after: Grid, n: nat) -> bool {
    exists|i: int, j: int| #[trigger] spawned_at(before, after, n, i, j)
}

/// The cells `(i1, j1)` and `(i2, j2)` of `g` are two cells, each holds a
/// tile of value 2 or 4, and every other cell is empty.
pub open spec fn two_tiles(g: Grid, n: nat, i1: int, j1: int, i2: int, j2: int) -> bool {
    &&& 0 <= i1 < n && 0 <= j1 < n
    &&& 0 <= i2 < n && 0 <= j2 < n
    &&& i1 != i2 || j1 != j2
    &&& g[i1][j1] == 2 || g[i1][j1] == 4
    &&& g[i2][j2] == 2 || g[i2][j2] == 4
    &&& forall|i: int, j: int|
        0 <= i < n && 0 <= j < n && !(i == i1 && j == j1) && !(i == i2 && j == j2)
            ==> #[trigger] g[i][j] == 0
}

/// `g` is a grid that a game can begin with: exactly two cells hold a tile,
/// each of value 2 or 4, and all others are empty. On a grid of one cell,
/// that cell holds such a tile.
pub open spec fn opening(g: Grid, n: nat) -> bool {
    &&& is_square(g, n)
    &&& n >= 2 ==> exists|i1: int, j1: int, i2: int, j2: int| #[trigger]
        two_tiles(g, n, i1, j1, i2, j2)
    &&& n == 1 ==> g[0][0] == 2 || g[0][0] == 4
}

/// The predicate that holds of the cells with a tile on them.
pub open spec fn occupied() -> spec_fn(u32) -> bool {
    |v: u32| v != 0
}

/// `k` empty cells.
pub open spec fn gap(k: nat) -> Seq<u32> {
    Seq::new(k, |j: int| 0u32)
}

/// The tiles of a row in their order, without the empty cells between them.
pub open spec fn packed(r: Seq<u32>) -> Seq<u32> {
    r.filter(occupied())
}

/// A row after sliding: its tiles in their order at the left, the empty
/// cells at the right.
pub open spec fn slid(r: Seq<u32>) -> Seq<u32> {
    packed(r) + gap((r.len() - packed(r).len()) as nat)
}

/// `x` limited to the largest value that a cell or a score can hold.
pub open spec fn capped(x: int) -> u32 {
    if x <= u32::MAX {
        x as u32
    } else {
        u32::MAX
    }
}

/// The value of the tile that two tiles of value `v` merge into.
pub open spec fn doubled(v: u32) -> u32 {
    capped(2 * v)
}

/// A row after one merging pass from the left. Where a tile equals its right
/// neighbour, the pair becomes one tile of the doubled value and an empty
/// cell, and the pass goes on behind that empty cell, so a tile that a merge
/// made takes part in no other merge.
pub open spec fn merged(r: Seq<u32>) -> Seq<u32>
    decreases r.len(),
{
    if r.len() < 2 {
        r
    } else if r[0] != 0 && r[0] == r[1] {
        seq![doubled(r[0]), 0u32] + merged(r.skip(2))
    } else {
        seq![r[0]] + merged(r.skip(1))
    }
}

/// The sum of the values of the tiles that one merging pass over `r` makes.
pub open spec fn gain(r: Seq<u32>) -> nat
    decreases r.len(),
{
    if r.len() < 2 {
        0
    } else if r[0] != 0 && r[0] == r[1] {
        doubled(r[0]) as nat + gain(r.skip(2))
    } else {
        gain(r.skip(1))
    }
}

/// Every row of `g` slid to the left.
pub open spec fn slid_grid(g: Grid) -> Grid {
    Seq::new(g.len(), |i: int| slid(g[i]))
}

/// Every row of `g` after one merging pass.
pub open spec fn merged_grid(g: Grid) -> Grid {
    Seq::new(g.len(), |i: int| merged(g[i]))
}

/// The sum of the gains of one merging pass over each row of `g`.
pub open spec fn grid_gain(g: Grid) -> nat
    decreases g.len(),
{
    if g.len() == 0 {
        0
    } else {
        grid_gain(g.drop_last()) + gain(g.last())
    }
}

/// The grid after a move to the left: slide, merge, slide again.
pub open spec fn moved_left(g: Grid) -> Grid {
    slid_grid(merged_grid(slid_grid(g)))
}

/// What a move to the left on `g` adds to the score, before capping.
pub open spec fn left_gain(g: Grid) -> nat {
    grid_gain(slid_grid(g))
}

/// A state as a value: the grid and the score.
pub struct Snapshot {
    pub grid: Grid,
    pub points: nat,
}

} // verus!
