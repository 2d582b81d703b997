//! A game: the history of its states, most recent first, bounded by the
//! undos that are left, and the four moves and the undo that change it.

use crate::game_state::GameState;
use crate::grid::{
    capped, left_gain, moved_left, opening, turned180, turned270, turned90, Snapshot,
};
use std::collections::VecDeque;
use vstd::prelude::*;

verus! {

/// A game as a value: the states kept, most recent first, and the number of
/// undos that are left.
pub struct Record {
    pub history: Seq<Snapshot>,
    pub undos_left: nat,
}

/// The history `h` after the state `s` is recorded while `undos` undos are
/// left: `s` comes first, and the oldest state leaves if `h` already holds
/// more than `undos` states.
pub open spec fn recorded(h: Seq<Snapshot>, undos: nat, s: Snapshot) -> Seq<Snapshot> {
    seq![s] + if h.len() > undos {
        h.drop_last()
    } else {
        h
    }
}

/// The history `h` after a move that leads to `candidate`: unchanged where
/// the candidate has the tiles of the current state, else with the
/// candidate recorded.
pub open spec fn advanced(h: Seq<Snapshot>, undos: nat, candidate: Snapshot) -> Seq<Snapshot> {
    if candidate.grid == h[0].grid {
        h
    } else {
        recorded(h, undos, candidate)
    }
}

/// The game after one undo. The most recent state leaves and one undo is
/// used up, if an undo is left and an earlier state is kept; else nothing
/// changes.
pub open spec fn undone(r: Record) -> Record {
    if r.undos_left > 0 && r.history.len() > 1 {
        Record { history: r.history.skip(1), undos_left: (r.undos_left - 1) as nat }
    } else {
        r
    }
}

/// The state that the move to the left leads to.
pub open spec fn step_left(s: Snapshot) -> Snapshot {
    Snapshot {
        grid: moved_left(s.grid),
        points: capped((s.points + left_gain(s.grid)) as int) as nat,
    }
}

/// The state that the move to the right leads to: the move to the left on
/// the grid turned by a half, turned back.
pub open spec fn step_right(s: Snapshot) -> Snapshot {
    Snapshot {
        grid: turned180(moved_left(turned180(s.grid))),
        points: capped((s.points + left_gain(turned180(s.grid))) as int) as nat,
    }
}

/// The state that the move up leads to: the move to the left on the grid
/// turned a quarter counter-clockwise, turned back.
pub open spec fn step_up(s: Snapshot) -> Snapshot {
    Snapshot {
        grid: turned90(moved_left(turned270(s.grid))),
        points: capped((s.points + left_gain(turned270(s.grid))) as int) as nat,
    }
}

/// The state that the move down leads to: the move to the left on the grid
/// turned a quarter clockwise, turned back.
pub open spec fn step_down(s: Snapshot) -> Snapshot {
    Snapshot {
        grid: turned270(moved_left(turned90(s.grid))),
        points: capped((s.points + left_gain(turned90(s.grid))) as int) as nat,
    }
}

/// A game on a grid of dimension `DIM`×`DIM` with a bounded number of undos.
pub struct Game<const DIM: usize> {
    history: VecDeque<GameState<DIM>>,
    undos_left: usize,
}

impl<const DIM: usize> View for Game<DIM> {
    type V = Record;

    closed spec fn view(&self) -> Record {
        Record {
            history: self.history@.map_values(|s: GameState<DIM>| s@),
            undos_left: self.undos_left as nat,
        }
    }
}

impl<const DIM: usize> Game<DIM> {
    /// What holds of every game: at least one state is kept, and at most
    /// one more than undos are left.
    pub open spec fn wf(&self) -> bool {
        1 <= self@.history.len() <= self@.undos_left + 1
    }

    /// A game with `undos` undos whose one state is a fresh one, with two
    /// random tiles.
    pub fn new(undos: usize) -> (game: Self)
        ensures
            game.wf(),
            game@.undos_left == undos,
            game@.history.len() == 1,
            opening(game@.history[0].grid, DIM as nat),
            game@.history[0].points == 0,
    {
        Self::from_state(GameState::new(), undos)
    }

    /// A game with `undos` undos whose one state is `state`.
    pub fn from_state(state: GameState<DIM>, undos: usize) -> (game: Self)
        ensures
            game.wf(),
            game@ == (Record { history: seq![state@], undos_left: undos as nat }),
    {
        let mut game = Game { history: VecDeque::new(), undos_left: undos };
        assert(game@.history =~= Seq::empty());
        game.push_state(state);
        assert(game@.history =~= seq![state@]);
        game
    }

    /// The current state.
    pub fn current(&self) -> (state: &GameState<DIM>)
        requires
            self.wf(),
        ensures
            state@ == self@.history[0],
    {
        &self.history[0]
    }

    /// The number of undos that are left.
    pub fn undos_left(&self) -> (undos: usize)
        ensures
            undos == self@.undos_left,
    {
        self.undos_left
    }

    /// The number of states kept, the current one included.
    pub fn history_len(&self) -> (len: usize)
        ensures
            len == self@.history.len(),
    {
        self.history.len()
    }

    /// Records `gs` as the current state; the oldest state leaves where the
    /// history already holds more states than undos are left.
    fn push_state(&mut self, gs: GameState<DIM>)
        ensures
            final(self)@.history == recorded(old(self)@.history, old(self)@.undos_left, gs@),
            final(self)@.undos_left == old(self)@.undos_left,
    {
        if self.history.len() > self.undos_left {
            let _ = self.history.pop_back();
        }
        self.history.push_front(gs);
        assert(self@.history =~= recorded(old(self)@.history, old(self)@.undos_left, gs@));
    }

    /// Takes back the most recent move, if an undo is left and an earlier
    /// state is kept; else does nothing.
    pub fn undo(&mut self)
        requires
            old(self).wf(),
        ensures
            final(self).wf(),
            final(self)@ == undone(old(self)@),
    {
        if self.undos_left > 0 && self.history.len() > 1 {
            let _ = self.history.pop_front();
            self.undos_left -= 1;
            assert(self@.history =~= old(self)@.history.skip(1));
        }
    }

    /// Records `next_gs` as the new current state unless its tiles are
    /// those of the current state.
    fn settle(&mut self, next_gs: GameState<DIM>)
        requires
            old(self).wf(),
        ensures
            final(self).wf(),
            final(self)@.undos_left == old(self)@.undos_left,
            final(self)@.history == advanced(
                old(self)@.history,
                old(self)@.undos_left,
                next_gs@,
            ),
    {
        if next_gs == self.history[0] {
            return ;
        }
        self.push_state(next_gs);
    }

    /// Moves the tiles to the left. A move that leaves every tile in its
    /// place changes nothing: no state is recorded.
    pub fn left(&mut self)
        requires
            old(self).wf(),
        ensures
            final(self).wf(),
            final(self)@.undos_left == old(self)@.undos_left,
            final(self)@.history == advanced(
                old(self)@.history,
                old(self)@.undos_left,
                step_left(old(self)@.history[0]),
            ),
            step_left(old(self)@.history[0]).grid == old(self)@.history[0].grid ==> final(self)@
                == old(self)@,
    {
        let mut next_gs = self.history[0].clone();
        next_gs.slide_and_merge_left();
        self.settle(next_gs);
    }

    /// Moves the tiles down. A move that leaves every tile in its place
    /// changes nothing: no state is recorded.
    pub fn down(&mut self)
        requires
            old(self).wf(),
        ensures
            final(self).wf(),
            final(self)@.undos_left == old(self)@.undos_left,
            final(self)@.history == advanced(
                old(self)@.history,
                old(self)@.undos_left,
                step_down(old(self)@.history[0]),
            ),
            step_down(old(self)@.history[0]).grid == old(self)@.history[0].grid ==> final(self)@
                == old(self)@,
    {
        let mut next_gs = self.history[0].clone();
        next_gs.rotate90();
        next_gs.slide_and_merge_left();
        next_gs.rotate270();
        self.settle(next_gs);
    }

    /// Moves the tiles up. A move that leaves every tile in its place
    /// changes nothing: no state is recorded.
    pub fn up(&mut self)
        requires
            old(self).wf(),
        ensures
            final(self).wf(),
            final(self)@.undos_left == old(self)@.undos_left,
            final(self)@.history == advanced(
                old(self)@.history,
                old(self)@.undos_left,
                step_up(old(self)@.history[0]),
            ),
            step_up(old(self)@.history[0]).grid == old(self)@.history[0].grid ==> final(self)@
                == old(self)@,
    {
        let mut next_gs = self.history[0].clone();
        next_gs.rotate270();
        next_gs.slide_and_merge_left();
        next_gs.rotate90();
        self.settle(next_gs);
    }

    /// Moves the tiles to the right. A move that leaves every tile in its
    /// place changes nothing: no state is recorded.
    pub fn right(&mut self)
        requires
            old(self).wf(),
        ensures
            final(self).wf(),
            final(self)@.undos_left == old(self)@.undos_left,
            final(self)@.history == advanced(
                old(self)@.history,
                old(self)@.undos_left,
                step_right(old(self)@.history[0]),
            ),
            step_right(old(self)@.history[0]).grid == old(self)@.history[0].grid ==> final(self)@
                == old(self)@,
    {
        let mut next_gs = self.history[0].clone();
        next_gs.rotate180();
        next_gs.slide_and_merge_left();
        next_gs.rotate180();
        self.settle(next_gs);
    }
}

} // verus!
