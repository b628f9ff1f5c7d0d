//! One turn of the game: a line of input is read as a move and carried out
//! on the board.

use vstd::prelude::*;
use crate::engine::{defuse_result, defuse_tile, mark_result, mark_tile, reveal_result, reveal_tile};
use crate::grid::{board, in_board, tile_at, well_formed, Board, Cell};
use crate::hint::{best_hidden, hint_result, hint_stops_at, show_hint};
use crate::moves::{move_of, translate_move, MoveType};
use crate::tile::{MoveResult, TileState};

verus! {

/// What the player is to be told after a turn.
#[derive(Clone, Copy, PartialEq, Eq, Structural, Debug)]
pub enum Feedback {
    /// Nothing: the move went through.
    Nothing,
    /// The line was not understood; the help is due.
    NotUnderstood,
    /// The position lies outside the board.
    NoSuchTile,
    /// The tile was uncovered before.
    AlreadyRevealed,
    /// A reminder of how a defuser is taken off.
    DefuserReminder,
}

/// How a turn ended.
#[derive(Clone, Copy, PartialEq, Eq, Structural, Debug)]
pub struct Turn {
    /// False once a mine went off.
    pub alive: bool,
    pub feedback: Feedback,
}

/// The position named by a move lies on the board.
pub open spec fn names_tile(b: Board, row: u8, column: u8) -> bool {
    row < b.len() && column < b[0].len()
}

/// How a turn ends on a given answer of the engine: a reveal that makes no
/// sense asks for the help, a defuser or mark that does asks for the
/// reminder.
pub open spec fn turn_after(result: MoveResult, revealing: bool) -> Turn {
    match result {
        MoveResult::Explosion => Turn { alive: false, feedback: Feedback::Nothing },
        MoveResult::SafeMove => Turn { alive: true, feedback: Feedback::Nothing },
        MoveResult::AlreadyRevealed => Turn { alive: true, feedback: Feedback::AlreadyRevealed },
        MoveResult::MakesNoSense => Turn {
            alive: true,
            feedback: if revealing {
                Feedback::NotUnderstood
            } else {
                Feedback::DefuserReminder
            },
        },
    }
}

/// The board after a move that is not a hint.
pub open spec fn board_after(b: Board, m: MoveType) -> Board {
    match m {
        MoveType::Reveal { row, column } => if names_tile(b, row, column) {
            reveal_result(b, (row as int, column as int), false)
        } else {
            b
        },
        MoveType::Defuse { row, column } => if names_tile(b, row, column) {
            defuse_result(b, (row as int, column as int))
        } else {
            b
        },
        MoveType::Mark { row, column } => if names_tile(b, row, column) {
            mark_result(b, (row as int, column as int))
        } else {
            b
        },
        _ => b,
    }
}

/// How the turn of a move that is not a hint ends.
pub open spec fn turn_of(b: Board, m: MoveType) -> Turn {
    match m {
        MoveType::Unknown => Turn { alive: true, feedback: Feedback::NotUnderstood },
        MoveType::Hint => Turn { alive: true, feedback: Feedback::Nothing },
        MoveType::Reveal { row, column } => if names_tile(b, row, column) {
            turn_after(tile_at(b, (row as int, column as int)).reveal_outcome(false), true)
        } else {
            Turn { alive: true, feedback: Feedback::NoSuchTile }
        },
        MoveType::Defuse { row, column } => if names_tile(b, row, column) {
            turn_after(tile_at(b, (row as int, column as int)).toggle_outcome(), false)
        } else {
            Turn { alive: true, feedback: Feedback::NoSuchTile }
        },
        MoveType::Mark { row, column } => if names_tile(b, row, column) {
            turn_after(tile_at(b, (row as int, column as int)).toggle_outcome(), false)
        } else {
            Turn { alive: true, feedback: Feedback::NoSuchTile }
        },
    }
}

/// A hint turned `before` into `after`: nothing changed where no tile
/// qualifies, else the hint came to rest on one that does.
pub open spec fn hint_took_place(before: Board, after: Board) -> bool {
    if exists|p: Cell|
        in_board(before, p) && hint_stops_at(#[trigger] tile_at(before, p), best_hidden(before)) {
        exists|p: Cell|
            in_board(before, p) && hint_stops_at(#[trigger] tile_at(before, p), best_hidden(before))
                && after == hint_result(before, p)
    } else {
        after == before
    }
}

/// How the round goes on after a move.
#[derive(Clone, Copy, PartialEq, Eq, Structural, Debug)]
pub enum AfterMove {
    /// The round goes on with the next move.
    GoOn,
    /// The first move hit a mine: the mines are laid anew and the move is
    /// made again.
    LayAnew,
    /// A mine went off: the round is lost.
    Lost,
    /// Every safe tile is uncovered: the round is won.
    Won,
}

/// How the round goes on after a move. The first move of a round never
/// costs the round; a later one that sets off a mine does. A round is won
/// once no safe tile is covered, with or without a flag on it.
pub open spec fn after_move(first_guess: bool, alive: bool, remaining: usize) -> AfterMove {
    if !alive {
        if first_guess {
            AfterMove::LayAnew
        } else {
            AfterMove::Lost
        }
    } else if remaining == 0 {
        AfterMove::Won
    } else {
        AfterMove::GoOn
    }
}

/// Decides how the round goes on after a move, from how the turn ended and
/// from the number of safe tiles that are still covered.
pub fn decide_after_move(first_guess: bool, turn: Turn, remaining: usize) -> (next: AfterMove)
    ensures
        next == after_move(first_guess, turn.alive, remaining),
{
    if !turn.alive {
        if first_guess {
            AfterMove::LayAnew
        } else {
            AfterMove::Lost
        }
    } else if remaining == 0 {
        AfterMove::Won
    } else {
        AfterMove::GoOn
    }
}

/// Tells the player what the engine answered.
pub fn turn_for(result: MoveResult, revealing: bool) -> (turn: Turn)
    ensures
        turn == turn_after(result, revealing),
{
    match result {
        MoveResult::Explosion => Turn { alive: false, feedback: Feedback::Nothing },
        MoveResult::SafeMove => Turn { alive: true, feedback: Feedback::Nothing },
        MoveResult::AlreadyRevealed => Turn { alive: true, feedback: Feedback::AlreadyRevealed },
        MoveResult::MakesNoSense => Turn {
            alive: true,
            feedback: if revealing {
                Feedback::NotUnderstood
            } else {
                Feedback::DefuserReminder
            },
        },
    }
}

/// Carries out a move on the board.
///
/// A position outside the board changes nothing. A hint never ends the
/// round, whatever it uncovers; every other move ends it when a mine goes
/// off.
pub fn apply_move(m: MoveType, mines: &mut Vec<Vec<TileState>>) -> (turn: Turn)
    requires
        well_formed(board(old(mines))),
    ensures
        well_formed(board(final(mines))),
        turn == turn_of(board(old(mines)), m),
        m is Hint ==> hint_took_place(board(old(mines)), board(final(mines))),
        !(m is Hint) ==> board(final(mines)) == board_after(board(old(mines)), m),
{
    let ghost b = board(mines);
    match m {
        MoveType::Unknown => Turn { alive: true, feedback: Feedback::NotUnderstood },
        MoveType::Reveal { row, column } => {
            if row as usize >= mines.len() || column as usize >= mines[0].len() {
                return Turn { alive: true, feedback: Feedback::NoSuchTile };
            }
            assert(b[row as int].len() == b[0].len());
            turn_for(reveal_tile(row as usize, column as usize, mines, false), true)
        },
        MoveType::Defuse { row, column } => {
            if row as usize >= mines.len() || column as usize >= mines[0].len() {
                return Turn { alive: true, feedback: Feedback::NoSuchTile };
            }
            assert(b[row as int].len() == b[0].len());
            turn_for(defuse_tile(row as usize, column as usize, mines), false)
        },
        MoveType::Mark { row, column } => {
            if row as usize >= mines.len() || column as usize >= mines[0].len() {
                return Turn { alive: true, feedback: Feedback::NoSuchTile };
            }
            assert(b[row as int].len() == b[0].len());
            turn_for(mark_tile(row as usize, column as usize, mines), false)
        },
        MoveType::Hint => {
            show_hint(mines);
            Turn { alive: true, feedback: Feedback::Nothing }
        },
    }
}

/// Reads a line as a move and carries it out on the board.
pub fn process_input(guess: &str, mines: &mut Vec<Vec<TileState>>) -> (turn: Turn)
    requires
        well_formed(board(old(mines))),
    ensures
        well_formed(board(final(mines))),
        turn == turn_of(board(old(mines)), move_of(guess@)),
        move_of(guess@) is Hint ==> hint_took_place(board(old(mines)), board(final(mines))),
        !(move_of(guess@) is Hint) ==> board(final(mines)) == board_after(
            board(old(mines)),
            move_of(guess@),
        ),
{
    apply_move(translate_move(guess), mines)
}

} // verus!
