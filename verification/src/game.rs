//! Terminal classification of a game, by direct move simulation — play every
//! candidate and see whether a reply captures the King — and the history
//! holder a human player's driver works on.
use vstd::prelude::*;

use crate::engine::count_eq;
use crate::engine::spec_first_king_capture;
use crate::moves::Move;
use crate::moves::apply_move;
use crate::moves::lemma_moves_ok;
use crate::moves::moves;
use crate::moves::spec_apply;
use crate::moves::spec_moves;
use crate::position::Position;

verus! {

/// How a finished or continuing game stands after the latest ply.
#[derive(Clone, Copy, Debug, PartialEq, Eq, Structural)]
pub enum GameState {
    Ongoing,
    DrawByRepetition,
    StaleMate,
    CheckMate,
}

/// Some candidate of `pos` captures a King.
pub open spec fn spec_has_king_capture(pos: Position) -> bool {
    spec_first_king_capture(spec_moves(pos), 0) is Some
}

/// The side to move stands in check: were it the opponent's turn in the same
/// placement, some reply would capture a King.
pub open spec fn spec_king_in_check(pos: Position) -> bool {
    spec_has_king_capture(Position { turn: pos.turn.spec_other(), ..pos })
}

/// Every candidate of the side to move lets the opponent capture a King in
/// reply.
pub open spec fn spec_king_capture_forced(pos: Position) -> bool {
    forall|k: int|
        0 <= k < spec_moves(pos).len() ==> spec_has_king_capture(
            spec_apply(pos, #[trigger] spec_moves(pos)[k]),
        )
}

/// The classification of the last position of `hist`: a draw when it already
/// occurred three times before, else checkmate when the mover is in check
/// and every candidate loses the King, stalemate when the King capture is
/// forced without a check, and ongoing otherwise.
pub open spec fn spec_classify(hist: Seq<Position>) -> GameState {
    if count_eq(hist.take(hist.len() - 1), hist.last(), hist.len() - 1) >= 3 {
        GameState::DrawByRepetition
    } else {
        let check = spec_king_in_check(hist.last());
        let forced = spec_king_capture_forced(hist.last());
        if check && forced {
            GameState::CheckMate
        } else if !check && forced {
            GameState::StaleMate
        } else {
            GameState::Ongoing
        }
    }
}

fn has_king_capture(pos: &Position) -> (r: bool)
    ensures
        r == spec_has_king_capture(*pos),
{
    let mvs = moves(pos);
    let mut i: usize = 0;
    while i < mvs.len()
        invariant
            0 <= i <= mvs@.len(),
            mvs@ == spec_moves(*pos),
            spec_first_king_capture(mvs@, 0) == spec_first_king_capture(mvs@, i as int),
        decreases mvs@.len() - i,
    {
        let captures_king = match mvs[i].captured_piece {
            Some(crate::position::Piece::King) => true,
            _ => false,
        };
        if captures_king {
            return true;
        }
        i = i + 1;
    }
    false
}

/// Classifies the last position of a game's history.
#[verifier::rlimit(60)]
#[verifier::loop_isolation(false)]
pub fn classify_position(history: &Vec<Position>) -> (r: GameState)
    requires
        history@.len() >= 1,
    ensures
        r == spec_classify(history@),
{
    let current: Position = history[history.len() - 1];
    let mut repetitions: usize = 0;
    let mut i: usize = 0;
    while i < history.len() - 1
        invariant
            0 <= i <= history@.len() - 1,
            repetitions == count_eq(history@.take(history@.len() - 1), current, i as int),
            repetitions <= i,
        decreases history@.len() - 1 - i,
    {
        proof {
            assert(history@.take(history@.len() - 1)[i as int] == history@[i as int]);
        }
        if history[i] == current {
            repetitions = repetitions + 1;
        }
        i = i + 1;
    }
    if repetitions >= 3 {
        return GameState::DrawByRepetition;
    }
    let mut mirror: Position = current;
    mirror.turn = current.turn.other();
    let king_is_in_check = has_king_capture(&mirror);

    let mvs = moves(&current);
    proof {
        lemma_moves_ok(current);
    }
    let mut king_capture_is_forced = true;
    let mut j: usize = 0;
    while j < mvs.len()
        invariant
            0 <= j <= mvs@.len(),
            king_capture_is_forced == (forall|k: int|
                0 <= k < j ==> spec_has_king_capture(spec_apply(current, #[trigger] mvs@[k]))),
        decreases mvs@.len() - j,
    {
        if !has_king_capture(&apply_move(&current, mvs[j])) {
            king_capture_is_forced = false;
        }
        j = j + 1;
    }
    if king_is_in_check && king_capture_is_forced {
        GameState::CheckMate
    } else if !king_is_in_check && king_capture_is_forced {
        GameState::StaleMate
    } else {
        GameState::Ongoing
    }
}

/// The game history a human player's driver keeps: the root position plus
/// one position per played ply.
pub struct HumanPlayer {
    pub game_history: Vec<Position>,
}

impl HumanPlayer {
    pub open spec fn history(self) -> Seq<Position> {
        self.game_history@
    }

    pub open spec fn wf(self) -> bool {
        self.history().len() >= 1
    }

    pub fn from_position(pos: &Position) -> (r: HumanPlayer)
        ensures
            r.wf(),
            r.history() == seq![*pos],
    {
        let mut game_history: Vec<Position> = Vec::new();
        game_history.push(*pos);
        proof {
            assert(game_history@ =~= seq![*pos]);
        }
        HumanPlayer { game_history }
    }

    pub fn current_position(&self) -> (r: &Position)
        requires
            self.wf(),
        ensures
            *r == self.history().last(),
    {
        &self.game_history[self.game_history.len() - 1]
    }

    /// Pushes the position a played move leads to.
    pub fn input_move(&mut self, mov: Move)
        requires
            old(self).wf(),
            mov.from.wf(),
            mov.to.wf(),
        ensures
            final(self).wf(),
            final(self).history() == old(self).history().push(
                spec_apply(old(self).history().last(), mov),
            ),
    {
        let next = apply_move(self.current_position(), mov);
        self.game_history.push(next);
    }
}

} // verus!
