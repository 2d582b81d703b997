//! One snapshot of the grid and its cumulative score, together with the grid
//! algebra: row compaction, adjacent-pair merging and quarter-turn rotation.

use crate::chance::{choose_cell, draw_ratio};
use crate::grid::{
    blank, capped, cols_reversed, gain, grid_gain, has_empty, is_square, left_gain, merged,
    merged_grid, moved_left, occupied, opening, packed, placed, rows_reversed, slid, slid_grid,
    spawned, spawned_at, transposed, turned180, turned270, turned90, two_tiles, Snapshot,
};
use vstd::std_specs::cmp::PartialEqSpecImpl;
use vstd::prelude::*;

verus! {

/// The value of the smaller of the two tiles that can appear on an empty
/// cell.
pub const TILE_2: u32 = 2;

/// The value of the larger of the two tiles that can appear on an empty
/// cell.
pub const TILE_4: u32 = 4;

/// Of `ODDS_OUT_OF` new tiles, `ODDS_OF_2` have the smaller value on average.
pub const ODDS_OF_2: u32 = 9;

/// See `ODDS_OF_2`.
pub const ODDS_OUT_OF: u32 = 10;

/// A grid snapshot of dimension `DIM`×`DIM` with the score accumulated so far.
pub struct GameState<const DIM: usize> {
    tiles: [[u32; DIM]; DIM],
    score: u32,
}

impl<const DIM: usize> View for GameState<DIM> {
    type V = Snapshot;

    closed spec fn view(&self) -> Snapshot {
        Snapshot {
            grid: Seq::new(DIM as nat, |i: int| self.tiles@[i]@),
            points: self.score as nat,
        }
    }
}

impl<const DIM: usize> GameState<DIM> {
    /// The grid of a state is a square of dimension `DIM`, and its score fits
    /// the score's range.
    pub proof fn lemma_view_bounds(&self)
        ensures
            is_square(self@.grid, DIM as nat),
            self@.points <= u32::MAX,
    {
    }

    /// A state with the given tiles, row by row, and the given score.
    pub fn from_tiles(tiles: [[u32; DIM]; DIM], score: u32) -> (state: Self)
        ensures
            state@.grid == Seq::new(DIM as nat, |i: int| tiles@[i]@),
            state@.points == score,
    {
        GameState { tiles, score }
    }

    /// The tiles, row by row.
    pub fn tiles(&self) -> (tiles: [[u32; DIM]; DIM])
        ensures
            self@.grid == Seq::new(DIM as nat, |i: int| tiles@[i]@),
    {
        self.tiles
    }

    /// The score accumulated so far.
    pub fn score(&self) -> (score: u32)
        ensures
            score == self@.points,
    {
        self.score
    }

    /// A state with an empty grid on which two random tiles are placed, each
    /// of value 2 or 4, and with score 0. A grid of one cell gets one tile.
    pub fn new() -> (state: Self)
        ensures
            opening(state@.grid, DIM as nat),
            state@.points == 0,
    {
        let mut state = GameState { tiles: [[0u32; DIM]; DIM], score: 0 };
        assert(state@.grid =~~= blank(DIM as nat));
        let first = state.add_random();
        let ghost mid = state@.grid;
        let second = state.add_random();
        proof {
            let g = state@.grid;
            if DIM >= 1 {
                assert(blank(DIM as nat)[0][0] == 0);
                let (i1, j1) = choose|i1: int, j1: int| #[trigger]
                    spawned_at(blank(DIM as nat), mid, DIM as nat, i1, j1);
                if DIM >= 2 {
                    assert(mid[0][0] == 0 || mid[0][1] == 0);
                    let (i2, j2) = choose|i2: int, j2: int| #[trigger]
                        spawned_at(mid, g, DIM as nat, i2, j2);
                    assert(two_tiles(g, DIM as nat, i1, j1, i2, j2));
                } else {
                    assert(!has_empty(mid, DIM as nat));
                }
            }
        }
        state
    }

    /// The empty cells, as pairs of row and column, row by row.
    fn empty_cells(&self) -> (cells: Vec<(usize, usize)>)
        ensures
            forall|k: int|
                0 <= k < cells@.len() ==> (#[trigger] cells@[k]).0 < DIM && cells@[k].1 < DIM
                    && self@.grid[cells@[k].0 as int][cells@[k].1 as int] == 0,
            forall|k: int, l: int|
                0 <= k < l < cells@.len() ==> (#[trigger] cells@[k]).0 * DIM + cells@[k].1 < (
                #[trigger] cells@[l]).0 * DIM + cells@[l].1,
            cells@.len() > 0 <==> has_empty(self@.grid, DIM as nat),
    {
        let mut cells: Vec<(usize, usize)> = Vec::new();
        for i in 0..DIM
            invariant
                forall|k: int|
                    0 <= k < cells@.len() ==> (#[trigger] cells@[k]).0 < i && cells@[k].1 < DIM
                        && self@.grid[cells@[k].0 as int][cells@[k].1 as int] == 0,
                forall|k: int, l: int|
                    0 <= k < l < cells@.len() ==> (#[trigger] cells@[k]).0 * DIM + cells@[k].1 < (
                    #[trigger] cells@[l]).0 * DIM + cells@[l].1,
                forall|a: int, b: int|
                    0 <= a < i && 0 <= b < DIM && #[trigger] self@.grid[a][b] == 0 ==> cells@.len()
                        > 0,
        {
            for j in 0..DIM
                invariant
                    i < DIM,
                    forall|k: int|
                        0 <= k < cells@.len() ==> ((#[trigger] cells@[k]).0 < i || (cells@[k].0
                            == i && cells@[k].1 < j)) && cells@[k].1 < DIM
                            && self@.grid[cells@[k].0 as int][cells@[k].1 as int] == 0,
                    forall|k: int, l: int|
                        0 <= k < l < cells@.len() ==> (#[trigger] cells@[k]).0 * DIM + cells@[k].1
                            < (#[trigger] cells@[l]).0 * DIM + cells@[l].1,
                    forall|a: int, b: int|
                        0 <= a <= i && 0 <= b < DIM && (a < i || b < j)
                            && #[trigger] self@.grid[a][b] == 0 ==> cells@.len() > 0,
            {
                if self.get(i, j) == 0 {
                    proof {
                        assert forall|k: int| 0 <= k < cells@.len() implies (
                        #[trigger] cells@[k]).0 * DIM + cells@[k].1 < i * DIM + j by {
                            let a = cells@[k].0 as int;
                            let b = cells@[k].1 as int;
                            if a < i {
                                assert(a * DIM + DIM <= i * DIM) by (nonlinear_arith)
                                    requires
                                        a + 1 <= i,
                                        DIM >= 0,
                                ;
                            }
                        }
                    }
                    cells.push((i, j));
                }
            }
        }
        proof {
            if cells@.len() > 0 {
                let first = cells@[0];
                assert(self@.grid[first.0 as int][first.1 as int] == 0);
            }
        }
        cells
    }

    /// Places a tile as two random draws demand: `pick` names the cell, and
    /// the tile has value `TILE_2` where `two` holds, else `TILE_4`. Says whether a tile
    /// was placed: none is where `pick` is `None`, or names a cell that is
    /// outside the grid or not empty; the state then stays as it is.
    pub fn spawn(&mut self, pick: Option<(usize, usize)>, two: bool) -> (done: bool)
        ensures
            done == (pick.is_some() && pick.unwrap().0 < DIM && pick.unwrap().1 < DIM && old(
                self,
            )@.grid[pick.unwrap().0 as int][pick.unwrap().1 as int] == 0),
            !done ==> final(self)@ == old(self)@,
            done ==> final(self)@.grid == placed(
                old(self)@.grid,
                pick.unwrap().0 as int,
                pick.unwrap().1 as int,
                if two {
                    TILE_2
                } else {
                    TILE_4
                },
            ),
            final(self)@.points == old(self)@.points,
    {
        match pick {
            Some((i, j)) => {
                if i < DIM && j < DIM && self.get(i, j) == 0 {
                    let value: u32 = if two {
                        TILE_2
                    } else {
                        TILE_4
                    };
                    self.set(i, j, value);
                    true
                } else {
                    false
                }
            },
            None => false,
        }
    }

    /// Places a tile of value 2, with probability 9 in 10, or else 4 on an
    /// empty cell picked at random, and says whether it did: it does not
    /// where no cell is empty, and the state then stays as it is.
    pub fn add_random(&mut self) -> (done: bool)
        ensures
            done == has_empty(old(self)@.grid, DIM as nat),
            !done ==> final(self)@ == old(self)@,
            done ==> spawned(old(self)@.grid, final(self)@.grid, DIM as nat),
            final(self)@.points == old(self)@.points,
    {
        let cells = self.empty_cells();
        if cells.len() == 0 {
            return false;
        }
        let mut rng = rand::rng();
        let pick = choose_cell(&cells, &mut rng);
        let two = draw_ratio(&mut rng, ODDS_OF_2, ODDS_OUT_OF);
        let done = self.spawn(pick, two);
        proof {
            let (i, j) = pick.unwrap();
            assert(spawned_at(old(self)@.grid, self@.grid, DIM as nat, i as int, j as int));
        }
        done
    }

    /// Whether the two states have the same tiles.
    fn same_tiles(&self, other: &Self) -> (same: bool)
        ensures
            same == (self@.grid == other@.grid),
    {
        for i in 0..DIM
            invariant
                forall|a: int, b: int|
                    0 <= a < i && 0 <= b < DIM ==> #[trigger] self@.grid[a][b] == other@.grid[a][b],
        {
            for j in 0..DIM
                invariant
                    i < DIM,
                    forall|a: int, b: int|
                        0 <= a <= i && 0 <= b < DIM && (a < i || b < j)
                            ==> #[trigger] self@.grid[a][b] == other@.grid[a][b],
            {
                if self.get(i, j) != other.get(i, j) {
                    return false;
                }
            }
        }
        assert(self@.grid =~~= other@.grid);
        true
    }

    /// The cell in row `i`, column `j`.
    fn get(&self, i: usize, j: usize) -> (value: u32)
        requires
            i < DIM,
            j < DIM,
        ensures
            value == self@.grid[i as int][j as int],
    {
        self.tiles[i][j]
    }

    /// Writes `value` to the cell in row `i`, column `j`.
    fn set(&mut self, i: usize, j: usize, value: u32)
        requires
            i < DIM,
            j < DIM,
        ensures
            final(self)@.grid == placed(old(self)@.grid, i as int, j as int, value),
            final(self)@.points == old(self)@.points,
    {
        self.tiles[i][j] = value;
    }

    /// Mirrors the grid along its main diagonal.
    fn transpose(&mut self)
        ensures
            final(self)@.grid == transposed(old(self)@.grid),
            final(self)@.points == old(self)@.points,
    {
        let ghost before = self@.grid;
        for i in 0..DIM
            invariant
                self@.points == old(self)@.points,
                before == old(self)@.grid,
                forall|a: int, b: int|
                    0 <= a < DIM && 0 <= b < DIM ==> #[trigger] self@.grid[a][b] == if a < i || b
                        < i {
                        before[b][a]
                    } else {
                        before[a][b]
                    },
        {
            for j in (i + 1)..DIM
                invariant
                    i < DIM,
                    self@.points == old(self)@.points,
                    before == old(self)@.grid,
                    forall|a: int, b: int|
                        0 <= a < DIM && 0 <= b < DIM ==> #[trigger] self@.grid[a][b] == if a < i
                            || b < i || (a == i && b < j) || (b == i && a < j) {
                            before[b][a]
                        } else {
                            before[a][b]
                        },
            {
                let tmp = self.get(i, j);
                let other = self.get(j, i);
                self.set(i, j, other);
                self.set(j, i, tmp);
            }
        }
        assert(self@.grid =~~= transposed(before));
    }

    /// Swaps the cell in row `i`, column `j` with the cell of that row as far
    /// from the right edge as this one is from the left.
    fn swap_symmetric_horizontally(&mut self, i: usize, j: usize)
        requires
            i < DIM,
            j < DIM,
        ensures
            final(self)@.grid == placed(
                placed(old(self)@.grid, i as int, j as int, old(self)@.grid[i as int][DIM - 1 - j]),
                i as int,
                DIM - 1 - j,
                old(self)@.grid[i as int][j as int],
            ),
            final(self)@.points == old(self)@.points,
    {
        let tmp = self.get(i, j);
        let other = self.get(i, DIM - 1 - j);
        self.set(i, j, other);
        self.set(i, DIM - 1 - j, tmp);
    }

    /// Swaps the cell in row `i`, column `j` with the cell of that column as
    /// far from the bottom edge as this one is from the top.
    fn swap_symmetric_vertically(&mut self, i: usize, j: usize)
        requires
            i < DIM,
            j < DIM,
        ensures
            final(self)@.grid == placed(
                placed(old(self)@.grid, i as int, j as int, old(self)@.grid[DIM - 1 - i][j as int]),
                DIM - 1 - i,
                j as int,
                old(self)@.grid[i as int][j as int],
            ),
            final(self)@.points == old(self)@.points,
    {
        let tmp = self.get(i, j);
        let other = self.get(DIM - 1 - i, j);
        self.set(i, j, other);
        self.set(DIM - 1 - i, j, tmp);
    }

    /// Reverses every row.
    fn reverse_rows(&mut self)
        ensures
            final(self)@.grid == rows_reversed(old(self)@.grid),
            final(self)@.points == old(self)@.points,
    {
        let ghost before = self@.grid;
        for i in 0..DIM
            invariant
                self@.points == old(self)@.points,
                before == old(self)@.grid,
                forall|a: int, b: int|
                    0 <= a < DIM && 0 <= b < DIM ==> #[trigger] self@.grid[a][b] == if a < i {
                        before[a][DIM - 1 - b]
                    } else {
                        before[a][b]
                    },
        {
            for j in 0..(DIM / 2)
                invariant
                    i < DIM,
                    self@.points == old(self)@.points,
                    before == old(self)@.grid,
                    forall|a: int, b: int|
                        0 <= a < DIM && 0 <= b < DIM ==> #[trigger] self@.grid[a][b] == if a < i
                            || (a == i && (b < j || b > DIM - 1 - j)) {
                            before[a][DIM - 1 - b]
                        } else {
                            before[a][b]
                        },
            {
                self.swap_symmetric_horizontally(i, j);
            }
        }
        assert(self@.grid =~~= rows_reversed(before));
    }

    /// Reverses every column.
    fn reverse_cols(&mut self)
        ensures
            final(self)@.grid == cols_reversed(old(self)@.grid),
            final(self)@.points == old(self)@.points,
    {
        let ghost before = self@.grid;
        for j in 0..DIM
            invariant
                self@.points == old(self)@.points,
                before == old(self)@.grid,
                forall|a: int, b: int|
                    0 <= a < DIM && 0 <= b < DIM ==> #[trigger] self@.grid[a][b] == if b < j {
                        before[DIM - 1 - a][b]
                    } else {
                        before[a][b]
                    },
        {
            for i in 0..(DIM / 2)
                invariant
                    j < DIM,
                    self@.points == old(self)@.points,
                    before == old(self)@.grid,
                    forall|a: int, b: int|
                        0 <= a < DIM && 0 <= b < DIM ==> #[trigger] self@.grid[a][b] == if b < j
                            || (b == j && (a < i || a > DIM - 1 - i)) {
                            before[DIM - 1 - a][b]
                        } else {
                            before[a][b]
                        },
            {
                self.swap_symmetric_vertically(i, j);
            }
        }
        assert(self@.grid =~~= cols_reversed(before));
    }

    /// Slides the tiles of one row to the left, keeping their order.
    fn slide_row(&mut self, row: usize)
        requires
            row < DIM,
        ensures
            final(self)@.grid == old(self)@.grid.update(row as int, slid(old(self)@.grid[row as int])),
            final(self)@.points == old(self)@.points,
    {
        let ghost before = self@.grid;
        let ghost line = before[row as int];
        let mut kept: Vec<u32> = Vec::new();
        for col in 0..DIM
            invariant
                row < DIM,
                self@ == old(self)@,
                before == old(self)@.grid,
                line == before[row as int],
                line.len() == DIM,
                kept@ == packed(line.take(col as int)),
        {
            let value = self.get(row, col);
            proof {
                assert(line.take(col + 1) =~= line.take(col as int).push(line[col as int]));
                line.take(col as int).lemma_filter_push(line[col as int], occupied());
            }
            if value != 0 {
                kept.push(value);
            }
        }
        proof {
            assert(line.take(DIM as int) =~= line);
            line.lemma_filter_len(occupied());
        }
        for col in 0..DIM
            invariant
                row < DIM,
                self@.points == old(self)@.points,
                before == old(self)@.grid,
                line == before[row as int],
                line.len() == DIM,
                kept@ == packed(line),
                kept@.len() <= DIM,
                self@.grid.len() == DIM,
                forall|a: int| 0 <= a < DIM && a != row ==> self@.grid[a] == before[a],
                self@.grid[row as int].len() == DIM,
                forall|b: int| 0 <= b < col ==> self@.grid[row as int][b] == slid(line)[b],
        {
            let value = if col < kept.len() {
                kept[col]
            } else {
                0
            };
            self.set(row, col, value);
        }
        assert(self@.grid[row as int] =~= slid(line));
        assert(self@.grid =~= before.update(row as int, slid(line)));
    }

    /// Slides the tiles of every row to the left.
    fn slide_left(&mut self)
        ensures
            final(self)@.grid == slid_grid(old(self)@.grid),
            final(self)@.points == old(self)@.points,
    {
        let ghost before = self@.grid;
        for row in 0..DIM
            invariant
                self@.points == old(self)@.points,
                before == old(self)@.grid,
                self@.grid.len() == DIM,
                forall|a: int| 0 <= a < row ==> self@.grid[a] == slid(before[a]),
                forall|a: int| row <= a < DIM ==> self@.grid[a] == before[a],
        {
            self.slide_row(row);
        }
        assert(self@.grid =~= slid_grid(before));
    }

    /// Merges equal neighbours of one row in one pass from the left, and
    /// returns the sum of the merged tiles' values, at most `u32::MAX`.
    fn merge_row(&mut self, row: usize) -> (won: u32)
        requires
            row < DIM,
        ensures
            final(self)@.grid == old(self)@.grid.update(
                row as int,
                merged(old(self)@.grid[row as int]),
            ),
            final(self)@.points == old(self)@.points,
            won == capped(gain(old(self)@.grid[row as int]) as int),
    {
        let ghost before = self@.grid;
        let ghost line = before[row as int];
        let ghost total: nat = 0;
        let mut won: u32 = 0;
        let mut col: usize = 0;
        proof {
            assert(line.skip(0) =~= line);
            assert(line.take(0) + merged(line) =~= merged(line));
        }
        while col + 1 < DIM
            invariant
                row < DIM,
                col < DIM,
                self@.points == old(self)@.points,
                before == old(self)@.grid,
                line == before[row as int],
                self@.grid.len() == DIM,
                forall|a: int| 0 <= a < DIM && a != row ==> self@.grid[a] == before[a],
                self@.grid[row as int].len() == DIM,
                merged(line) == self@.grid[row as int].take(col as int) + merged(
                    self@.grid[row as int].skip(col as int),
                ),
                gain(line) == total + gain(self@.grid[row as int].skip(col as int)),
                won == capped(total as int),
            decreases DIM - col,
        {
            let ghost cur = self@.grid[row as int];
            let current_tile = self.get(row, col);
            let next_tile = self.get(row, col + 1);
            proof {
                assert(cur.skip(col as int).skip(1) =~= cur.skip(col + 1));
                assert(cur.skip(col as int).skip(2) =~= cur.skip(col + 2));
            }
            if current_tile != 0 && current_tile == next_tile {
                let merged_value = if next_tile > u32::MAX / 2 {
                    u32::MAX
                } else {
                    next_tile * 2
                };
                self.set(row, col, merged_value);
                self.set(row, col + 1, 0);
                won = if won > u32::MAX - merged_value {
                    u32::MAX
                } else {
                    won + merged_value
                };
                proof {
                    total = total + merged_value as nat;
                    let now = self@.grid[row as int];
                    assert(now.skip(col + 1).skip(1) =~= cur.skip(col + 2));
                    assert(now.skip(col + 1)[0] == 0);
                    assert(merged(now.skip(col + 1)) =~= seq![0u32] + merged(cur.skip(col + 2)));
                    assert(gain(now.skip(col + 1)) == gain(cur.skip(col + 2)));
                    assert(now.take(col + 1) =~= cur.take(col as int).push(merged_value));
                    assert(now.take(col + 1) + merged(now.skip(col + 1)) =~= cur.take(col as int)
                        + merged(cur.skip(col as int)));
                }
            } else {
                proof {
                    assert(cur.take(col + 1) =~= cur.take(col as int).push(current_tile));
                    assert(cur.take(col + 1) + merged(cur.skip(col + 1)) =~= cur.take(col as int)
                        + merged(cur.skip(col as int)));
                }
            }
            col += 1;
        }
        proof {
            let now = self@.grid[row as int];
            assert(now.take(col as int) + now.skip(col as int) =~= now);
            assert(self@.grid =~= before.update(row as int, merged(line)));
        }
        won
    }

    /// Merges equal neighbours in every row, and returns the sum of the
    /// merged tiles' values, at most `u32::MAX`.
    fn merge_left(&mut self) -> (won: u32)
        ensures
            final(self)@.grid == merged_grid(old(self)@.grid),
            final(self)@.points == old(self)@.points,
            won == capped(grid_gain(old(self)@.grid) as int),
    {
        let ghost before = self@.grid;
        let mut score: u32 = 0;
        for row in 0..DIM
            invariant
                self@.points == old(self)@.points,
                before == old(self)@.grid,
                self@.grid.len() == DIM,
                forall|a: int| 0 <= a < row ==> self@.grid[a] == merged(before[a]),
                forall|a: int| row <= a < DIM ==> self@.grid[a] == before[a],
                score == capped(grid_gain(before.take(row as int)) as int),
        {
            let won = self.merge_row(row);
            proof {
                assert(before.take(row + 1).drop_last() =~= before.take(row as int));
            }
            score = if score > u32::MAX - won {
                u32::MAX
            } else {
                score + won
            };
        }
        proof {
            assert(before.take(DIM as int) =~= before);
            assert(self@.grid =~= merged_grid(before));
        }
        score
    }

    /// Makes the move to the left: slides every row, merges equal neighbours
    /// in one pass from the left, and slides again. The score grows by the
    /// values of the merged tiles; tile values and the score stop at
    /// `u32::MAX`.
    pub fn slide_and_merge_left(&mut self)
        ensures
            final(self)@.grid == moved_left(old(self)@.grid),
            final(self)@.points == capped((old(self)@.points + left_gain(old(self)@.grid)) as int),
            final(self)@.points >= old(self)@.points,
    {
        self.slide_left();
        let won = self.merge_left();
        self.score = if self.score > u32::MAX - won {
            u32::MAX
        } else {
            self.score + won
        };
        self.slide_left();
    }

    /// Turns the grid a quarter clockwise. The score stays.
    pub fn rotate90(&mut self)
        ensures
            final(self)@.grid == turned90(old(self)@.grid),
            final(self)@.points == old(self)@.points,
    {
        self.transpose();
        self.reverse_rows();
        assert(self@.grid =~~= turned90(old(self)@.grid));
    }

    /// Turns the grid by a half. The score stays.
    pub fn rotate180(&mut self)
        ensures
            final(self)@.grid == turned180(old(self)@.grid),
            final(self)@.points == old(self)@.points,
    {
        self.reverse_rows();
        self.reverse_cols();
        assert(self@.grid =~~= turned180(old(self)@.grid));
    }

    /// Turns the grid a quarter counter-clockwise. The score stays.
    pub fn rotate270(&mut self)
        ensures
            final(self)@.grid == turned270(old(self)@.grid),
            final(self)@.points == old(self)@.points,
    {
        self.reverse_rows();
        self.transpose();
        assert(self@.grid =~~= turned270(old(self)@.grid));
    }
}

impl<const DIM: usize> Clone for GameState<DIM> {
    /// A copy with the same tiles and the same score.
    fn clone(&self) -> (copy: Self)
        ensures
            copy == *self,
    {
        GameState { tiles: self.tiles, score: self.score }
    }
}

impl<const DIM: usize> PartialEq for GameState<DIM> {
    /// Whether the two states have the same tiles. The scores are not
    /// compared.
    fn eq(&self, other: &Self) -> (same: bool) {
        self.same_tiles(other)
    }
}

impl<const DIM: usize> PartialEqSpecImpl for GameState<DIM> {
    open spec fn obeys_eq_spec() -> bool {
        true
    }

    open spec fn eq_spec(&self, other: &Self) -> bool {
        self@.grid == other@.grid
    }
}

} // verus!
