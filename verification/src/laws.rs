//! What holds of the grid functions and of the history, for every grid and
//! every game.

use crate::game::{recorded, undone, Record};
use crate::game_state::GameState;
use crate::grid::{
    gap, is_square, merged, moved_left, occupied, packed, rows_reversed, slid, slid_grid,
    transposed, turned180, turned270, turned90, Grid, Snapshot,
};
use vstd::prelude::*;
use vstd::std_specs::cmp::PartialEqSpec;

verus! {

/// Four quarter turns clockwise give the grid back.
pub proof fn lemma_four_quarter_turns(g: Grid, n: nat)
    requires
        is_square(g, n),
    ensures
        turned90(turned90(turned90(turned90(g)))) == g,
{
    assert(turned90(turned90(turned90(turned90(g)))) =~~= g);
}

/// Two half turns give the grid back.
pub proof fn lemma_two_half_turns(g: Grid, n: nat)
    requires
        is_square(g, n),
    ensures
        turned180(turned180(g)) == g,
{
    assert(turned180(turned180(g)) =~~= g);
}

/// A quarter turn clockwise and a quarter turn counter-clockwise undo one
/// another, in either order.
pub proof fn lemma_quarter_turns_cancel(g: Grid, n: nat)
    requires
        is_square(g, n),
    ensures
        turned270(turned90(g)) == g,
        turned90(turned270(g)) == g,
{
    assert(turned270(turned90(g)) =~~= g);
    assert(turned90(turned270(g)) =~~= g);
}

/// Two quarter turns clockwise are a half turn, and three are a quarter turn
/// counter-clockwise.
pub proof fn lemma_turns_compose(g: Grid, n: nat)
    requires
        is_square(g, n),
    ensures
        turned90(turned90(g)) == turned180(g),
        turned90(turned180(g)) == turned270(g),
{
    assert(turned90(turned90(g)) =~~= turned180(g));
    assert(turned90(turned180(g)) =~~= turned270(g));
}

/// The same laws, for the grid of a state: the turns that `rotate90`,
/// `rotate180` and `rotate270` make return to the state's own grid.
pub proof fn lemma_rotations_return<const DIM: usize>(s: GameState<DIM>)
    ensures
        turned90(turned90(turned90(turned90(s@.grid)))) == s@.grid,
        turned180(turned180(s@.grid)) == s@.grid,
        turned270(turned90(s@.grid)) == s@.grid,
{
    s.lemma_view_bounds();
    lemma_four_quarter_turns(s@.grid, DIM as nat);
    lemma_two_half_turns(s@.grid, DIM as nat);
    lemma_quarter_turns_cancel(s@.grid, DIM as nat);
}

/// A row of tiles without empty cells between them is packed already.
proof fn lemma_packed_of_tiles(r: Seq<u32>)
    requires
        forall|i: int| 0 <= i < r.len() ==> r[i] != 0,
    ensures
        packed(r) == r,
    decreases r.len(),
{
    if r.len() == 0 {
        reveal(Seq::filter);
    } else {
        lemma_packed_of_tiles(r.drop_last());
        r.drop_last().lemma_filter_push(r.last(), occupied());
        assert(r.drop_last().push(r.last()) =~= r);
    }
}

/// Empty cells hold no tile.
proof fn lemma_packed_of_gap(k: nat)
    ensures
        packed(gap(k)) == Seq::<u32>::empty(),
    decreases k,
{
    if k == 0 {
        reveal(Seq::filter);
        assert(gap(k) =~= Seq::<u32>::empty());
    } else {
        lemma_packed_of_gap((k - 1) as nat);
        gap((k - 1) as nat).lemma_filter_push(0u32, occupied());
        assert(gap((k - 1) as nat).push(0u32) =~= gap(k));
    }
}

/// Sliding keeps the length of a row and the tiles on it in their order.
pub proof fn lemma_slid_keeps(r: Seq<u32>)
    ensures
        slid(r).len() == r.len(),
        packed(slid(r)) == packed(r),
{
    r.lemma_filter_len(occupied());
    let k = (r.len() - packed(r).len()) as nat;
    assert forall|i: int| 0 <= i < packed(r).len() implies packed(r)[i] != 0 by {
        r.lemma_filter_pred(occupied(), i);
    }
    lemma_packed_of_tiles(packed(r));
    lemma_packed_of_gap(k);
    Seq::filter_distributes_over_add(packed(r), gap(k), occupied());
    assert(packed(r) + Seq::<u32>::empty() =~= packed(r));
}

/// Sliding a row twice is sliding it once.
pub proof fn lemma_slide_idempotent(r: Seq<u32>)
    ensures
        slid(slid(r)) == slid(r),
{
    lemma_slid_keeps(r);
}

/// Sliding every row of a grid twice is sliding every row once.
pub proof fn lemma_slide_grid_idempotent(g: Grid)
    ensures
        slid_grid(slid_grid(g)) == slid_grid(g),
{
    assert forall|i: int| 0 <= i < g.len() implies slid(slid(g[i])) == slid(g[i]) by {
        lemma_slide_idempotent(g[i]);
    }
    assert(slid_grid(slid_grid(g)) =~= slid_grid(g));
}

/// One merging pass keeps the length of a row.
pub proof fn lemma_merged_len(r: Seq<u32>)
    ensures
        merged(r).len() == r.len(),
    decreases r.len(),
{
    if r.len() >= 2 {
        if r[0] != 0 && r[0] == r[1] {
            lemma_merged_len(r.skip(2));
        } else {
            lemma_merged_len(r.skip(1));
        }
    }
}

/// A move to the left keeps the shape of the grid.
pub proof fn lemma_moved_left_square(g: Grid, n: nat)
    requires
        is_square(g, n),
    ensures
        is_square(moved_left(g), n),
{
    assert forall|i: int| 0 <= i < n implies (#[trigger] moved_left(g)[i]).len() == n by {
        lemma_slid_keeps(g[i]);
        lemma_merged_len(slid(g[i]));
        lemma_slid_keeps(merged(slid(g[i])));
    }
}

/// The move to the right, made by two half turns around the move to the
/// left, acts on each row by itself: it is the move to the left on the rows
/// read from the right.
pub proof fn lemma_right_by_rows(g: Grid, n: nat)
    requires
        is_square(g, n),
    ensures
        turned180(moved_left(turned180(g))) == rows_reversed(moved_left(rows_reversed(g))),
{
    let a = moved_left(turned180(g));
    let b = moved_left(rows_reversed(g));
    assert(is_square(turned180(g), n));
    assert(is_square(rows_reversed(g), n));
    lemma_moved_left_square(turned180(g), n);
    lemma_moved_left_square(rows_reversed(g), n);
    assert forall|k: int| 0 <= k < n implies a[n - 1 - k] == #[trigger] b[k] by {
        assert(turned180(g)[n - 1 - k] =~= rows_reversed(g)[k]);
    }
    assert(turned180(a) =~~= rows_reversed(b));
}

/// The move up, made by quarter turns around the move to the left, acts on
/// each column by itself: it is the move to the left on the columns read
/// from the top.
pub proof fn lemma_up_by_columns(g: Grid, n: nat)
    requires
        is_square(g, n),
    ensures
        turned90(moved_left(turned270(g))) == transposed(moved_left(transposed(g))),
{
    let a = moved_left(turned270(g));
    let b = moved_left(transposed(g));
    assert(is_square(turned270(g), n));
    assert(is_square(transposed(g), n));
    lemma_moved_left_square(turned270(g), n);
    lemma_moved_left_square(transposed(g), n);
    assert forall|k: int| 0 <= k < n implies a[n - 1 - k] == #[trigger] b[k] by {
        assert(turned270(g)[n - 1 - k] =~= transposed(g)[k]);
    }
    assert(turned90(a) =~~= transposed(b));
}

/// The move down, made by quarter turns around the move to the left, acts
/// on each column by itself: it is the move to the left on the columns read
/// from the bottom.
pub proof fn lemma_down_by_columns(g: Grid, n: nat)
    requires
        is_square(g, n),
    ensures
        turned270(moved_left(turned90(g))) == transposed(
            rows_reversed(moved_left(rows_reversed(transposed(g)))),
        ),
{
    let a = moved_left(turned90(g));
    let b = moved_left(rows_reversed(transposed(g)));
    assert(is_square(turned90(g), n));
    assert(is_square(transposed(g), n));
    assert(is_square(rows_reversed(transposed(g)), n));
    lemma_moved_left_square(turned90(g), n);
    lemma_moved_left_square(rows_reversed(transposed(g)), n);
    assert forall|k: int| 0 <= k < n implies a[k] == #[trigger] b[k] by {
        assert(turned90(g)[k] =~= rows_reversed(transposed(g))[k]);
    }
    assert(is_square(rows_reversed(b), n));
    assert(turned270(a) =~~= transposed(rows_reversed(b)));
}

/// Two states with the same tiles are equal, whatever their scores.
pub proof fn lemma_equality_ignores_score<const DIM: usize>(a: GameState<DIM>, b: GameState<DIM>)
    requires
        a@.grid == b@.grid,
    ensures
        a.eq_spec(&b),
{
}

/// The history `h` after the states of `states` are recorded one after the
/// other, the first of them first, while `undos` undos are left.
pub open spec fn recorded_all(h: Seq<Snapshot>, undos: nat, states: Seq<Snapshot>) -> Seq<Snapshot>
    decreases states.len(),
{
    if states.len() == 0 {
        h
    } else {
        recorded(recorded_all(h, undos, states.drop_last()), undos, states.last())
    }
}

/// The game after `k` undos.
pub open spec fn undone_times(r: Record, k: nat) -> Record
    decreases k,
{
    if k == 0 {
        r
    } else {
        undone(undone_times(r, (k - 1) as nat))
    }
}

/// Recording states lets the history grow by one state each until it holds
/// one more than undos are left, and no further.
pub proof fn lemma_history_length(h: Seq<Snapshot>, undos: nat, states: Seq<Snapshot>)
    requires
        1 <= h.len() <= undos + 1,
    ensures
        recorded_all(h, undos, states).len() == if h.len() + states.len() <= undos + 1 {
            h.len() + states.len()
        } else {
            undos + 1
        },
    decreases states.len(),
{
    if states.len() > 0 {
        lemma_history_length(h, undos, states.drop_last());
    }
}

/// After more accepted moves than undos are left, the history holds one
/// state more than undos are left.
pub proof fn lemma_history_full(h: Seq<Snapshot>, undos: nat, states: Seq<Snapshot>)
    requires
        1 <= h.len() <= undos + 1,
        states.len() > undos,
    ensures
        recorded_all(h, undos, states).len() == undos + 1,
{
    lemma_history_length(h, undos, states);
}

/// As many undos as states were recorded give the earlier game back, with
/// that many undos fewer, as long as no state had to leave the history.
pub proof fn lemma_undos_take_back(h: Seq<Snapshot>, undos: nat, states: Seq<Snapshot>)
    requires
        1 <= h.len(),
        h.len() + states.len() <= undos + 1,
    ensures
        undone_times(
            Record { history: recorded_all(h, undos, states), undos_left: undos },
            states.len(),
        ) == (Record { history: h, undos_left: (undos - states.len()) as nat }),
    decreases states.len(),
{
    let k = states.len();
    if k > 0 {
        lemma_undo_commutes(
            Record { history: recorded_all(h, undos, states), undos_left: undos },
            (k - 1) as nat,
        );
        lemma_history_length(h, undos, states.drop_last());
        let earlier = recorded_all(h, undos, states.drop_last());
        assert(recorded(earlier, undos, states.last()).skip(1) =~= earlier);
        lemma_undos_shift(earlier, undos, (k - 1) as nat);
        lemma_undos_take_back(h, undos, states.drop_last());
    }
}

/// One undo and then `k` are `k` undos and then one.
proof fn lemma_undo_commutes(r: Record, k: nat)
    ensures
        undone_times(undone(r), k) == undone(undone_times(r, k)),
    decreases k,
{
    if k > 0 {
        lemma_undo_commutes(r, (k - 1) as nat);
    }
}

/// With one undo fewer at hand, `k` undos take back the same states and
/// leave one undo fewer, as long as `k` undos were at hand before.
proof fn lemma_undos_shift(h: Seq<Snapshot>, undos: nat, k: nat)
    requires
        k < undos,
    ensures
        undone_times(Record { history: h, undos_left: (undos - 1) as nat }, k).history
            == undone_times(Record { history: h, undos_left: undos }, k).history,
        undone_times(Record { history: h, undos_left: (undos - 1) as nat }, k).undos_left + 1
            == undone_times(Record { history: h, undos_left: undos }, k).undos_left,
        undone_times(Record { history: h, undos_left: undos }, k).undos_left + k >= undos,
    decreases k,
{
    if k > 0 {
        lemma_undos_shift(h, undos, (k - 1) as nat);
    }
}

/// In a game that began with one state and `undos` undos, `undos` undos
/// after `undos` accepted moves give the first state back, and one undo
/// more changes nothing.
pub proof fn lemma_undo_restores(first: Snapshot, undos: nat, states: Seq<Snapshot>)
    requires
        states.len() == undos,
    ensures
        undone_times(
            Record { history: recorded_all(seq![first], undos, states), undos_left: undos },
            undos,
        ) == (Record { history: seq![first], undos_left: 0 }),
        undone_times(
            Record { history: recorded_all(seq![first], undos, states), undos_left: undos },
            undos + 1,
        ) == (Record { history: seq![first], undos_left: 0 }),
{
    lemma_undos_take_back(seq![first], undos, states);
}

} // verus!
