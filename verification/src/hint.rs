//! A hint uncovers one of the safest covered tiles for the player.
//!
//! The tiles that qualify are listed and one of them is drawn at random,
//! so a hint always ends, also on a board with nothing left to uncover.

use vstd::prelude::*;
use crate::chance::random_between;
use crate::engine::{
    cell_of, defuse_result, defuse_tile, lemma_on_stack_push, on_stack, reveal_result, reveal_tile,
};
use crate::grid::{
    board, comes_before, get_tile, in_board, lemma_with_tile, tile_at, well_formed, Board, Cell,
};
use crate::tile::{MoveResult, TileState};

verus! {

/// The count that no tile reaches: what the search starts from.
pub const NO_HINT: i16 = 9;

/// What a tile offers to the search for the lowest count: its count where
/// it is a covered safe tile, with or without a flag on it, and 9 where it
/// is not.
pub open spec fn hint_value(tile: TileState) -> int {
    match tile {
        TileState::HiddenEmpty(n) => n as int,
        TileState::Marked(n) => if n >= 0 {
            n as int
        } else {
            9
        },
        TileState::Question(n) => if n >= 0 {
            n as int
        } else {
            9
        },
        _ => 9,
    }
}

/// The smaller of two numbers.
pub open spec fn lesser(a: int, b: int) -> int {
    if a <= b {
        a
    } else {
        b
    }
}

/// The lowest value that a tile of the row offers, 9 at most.
pub open spec fn best_in_row(row: Seq<TileState>) -> int
    decreases row.len(),
{
    if row.len() == 0 {
        9
    } else {
        lesser(best_in_row(row.drop_last()), hint_value(row.last()))
    }
}

/// The lowest value that a tile of the board offers, 9 at most.
pub open spec fn best_hidden(b: Board) -> int
    decreases b.len(),
{
    if b.len() == 0 {
        9
    } else {
        lesser(best_hidden(b.drop_last()), best_in_row(b.last()))
    }
}

/// A hint may come to rest on this tile: a covered safe tile with the
/// lowest count, or a mine that went off.
pub open spec fn hint_stops_at(tile: TileState, best: int) -> bool {
    match tile {
        TileState::Explosion => true,
        TileState::HiddenEmpty(n) => n == best,
        TileState::Marked(n) => n >= 0 && n == best,
        TileState::Question(n) => n >= 0 && n == best,
        _ => false,
    }
}

/// The board after a hint that came to rest at `p`.
pub open spec fn hint_result(b: Board, p: Cell) -> Board {
    match tile_at(b, p) {
        TileState::HiddenEmpty(_) => reveal_result(b, p, true),
        TileState::Marked(n) => if n >= 0 {
            reveal_result(defuse_result(b, p), p, true)
        } else {
            b
        },
        TileState::Question(n) => if n >= 0 {
            reveal_result(b, p, true)
        } else {
            b
        },
        _ => b,
    }
}

/// What a hint that came to rest at `p` reports.
pub open spec fn hint_outcome(b: Board, p: Cell) -> MoveResult {
    match tile_at(b, p) {
        TileState::Explosion => MoveResult::Explosion,
        TileState::HiddenEmpty(_) => MoveResult::SafeMove,
        TileState::Marked(n) => if n >= 0 {
            MoveResult::SafeMove
        } else {
            MoveResult::MakesNoSense
        },
        TileState::Question(n) => if n >= 0 {
            MoveResult::SafeMove
        } else {
            MoveResult::MakesNoSense
        },
        _ => MoveResult::MakesNoSense,
    }
}

/// The lowest value of a row is offered by one of its tiles, unless it is
/// 9, and no tile offers less.
pub proof fn lemma_best_in_row(row: Seq<TileState>)
    ensures
        best_in_row(row) <= 9,
        forall|j: int| 0 <= j < row.len() ==> best_in_row(row) <= hint_value(#[trigger] row[j]),
        best_in_row(row) == 9 || exists|j: int|
            0 <= j < row.len() && hint_value(#[trigger] row[j]) == best_in_row(row),
    decreases row.len(),
{
    if row.len() > 0 {
        let front = row.drop_last();
        lemma_best_in_row(front);
        assert forall|j: int| 0 <= j < row.len() implies best_in_row(row) <= hint_value(
            #[trigger] row[j],
        ) by {
            if j < front.len() {
                assert(front[j] == row[j]);
            }
        }
        if best_in_row(row) != 9 {
            if best_in_row(row) == hint_value(row.last()) {
                assert(hint_value(row[row.len() - 1]) == best_in_row(row));
            } else {
                let j = choose|j: int|
                    0 <= j < front.len() && hint_value(#[trigger] front[j]) == best_in_row(front);
                assert(front[j] == row[j]);
            }
        }
    }
}

/// The lowest value of a board is offered by one of its tiles, unless it
/// is 9, and no tile offers less.
pub proof fn lemma_best_hidden(b: Board)
    ensures
        best_hidden(b) <= 9,
        forall|p: Cell| in_board(b, p) ==> best_hidden(b) <= hint_value(#[trigger] tile_at(b, p)),
        best_hidden(b) == 9 || exists|p: Cell|
            in_board(b, p) && hint_value(#[trigger] tile_at(b, p)) == best_hidden(b),
    decreases b.len(),
{
    if b.len() > 0 {
        let front = b.drop_last();
        lemma_best_hidden(front);
        lemma_best_in_row(b.last());
        assert forall|p: Cell| in_board(b, p) implies best_hidden(b) <= hint_value(
            #[trigger] tile_at(b, p),
        ) by {
            if p.0 < front.len() {
                assert(front[p.0] == b[p.0]);
                assert(in_board(front, p));
                assert(tile_at(front, p) == tile_at(b, p));
            } else {
                assert(b.last()[p.1] == tile_at(b, p));
            }
        }
        if best_hidden(b) != 9 {
            if best_hidden(b) == best_in_row(b.last()) {
                let j = choose|j: int|
                    0 <= j < b.last().len() && hint_value(#[trigger] b.last()[j]) == best_in_row(
                        b.last(),
                    );
                let p = (b.len() - 1, j);
                assert(in_board(b, p));
                assert(hint_value(tile_at(b, p)) == best_hidden(b));
            } else {
                let p = choose|p: Cell|
                    in_board(front, p) && hint_value(#[trigger] tile_at(front, p)) == best_hidden(
                        front,
                    );
                assert(front[p.0] == b[p.0]);
                assert(in_board(b, p));
                assert(hint_value(tile_at(b, p)) == best_hidden(b));
            }
        }
    }
}

/// Where a valid board has a covered safe tile, a hint has a covered safe
/// tile to come to rest on.
pub proof fn lemma_hint_finds_covered_safe_tile(b: Board, q: Cell)
    requires
        in_board(b, q),
        tile_at(b, q).is_valid(),
        tile_at(b, q).is_covered_safe(),
    ensures
        exists|p: Cell|
            in_board(b, p) && (#[trigger] tile_at(b, p)).is_covered_safe() && hint_stops_at(
                tile_at(b, p),
                best_hidden(b),
            ),
{
    lemma_best_hidden(b);
    assert(best_hidden(b) <= hint_value(tile_at(b, q)));
    assert(hint_value(tile_at(b, q)) <= 8);
    let p = choose|p: Cell|
        in_board(b, p) && hint_value(#[trigger] tile_at(b, p)) == best_hidden(b);
    assert(tile_at(b, p).is_covered_safe() && hint_stops_at(tile_at(b, p), best_hidden(b)));
}

/// Looks for the lowest count among the covered safe tiles, flagged ones
/// among them. Returns 9 where no tile offers a count.
pub fn best_hint(mines: &Vec<Vec<TileState>>) -> (best: i16)
    ensures
        best == best_hidden(board(mines)),
        0 <= best <= 9,
{
    let ghost b = board(mines);
    let mut best_hidden: i16 = NO_HINT;
    let mut i: usize = 0;
    while i < mines.len()
        invariant
            i <= mines.len(),
            b == board(mines),
            best_hidden == self::best_hidden(b.take(i as int)),
            0 <= best_hidden <= 9,
        decreases mines.len() - i,
    {
        let line = &mines[i];
        let mut best_here: i16 = NO_HINT;
        let mut j: usize = 0;
        while j < line.len()
            invariant
                j <= line.len(),
                best_here == best_in_row(line@.take(j as int)),
                0 <= best_here <= 9,
            decreases line.len() - j,
        {
            proof {
                assert(line@.take(j + 1).drop_last() =~= line@.take(j as int));
                assert(line@.take(j + 1).last() == line@[j as int]);
            }
            match line[j] {
                TileState::Marked(num) => if num >= 0 && num < best_here {
                    best_here = num;
                },
                TileState::HiddenEmpty(num) => if (num as i16) < best_here {
                    best_here = num as i16;
                },
                TileState::Question(num) => if num >= 0 && num < best_here {
                    best_here = num;
                },
                _ => {},
            }
            j += 1;
        }
        proof {
            assert(line@.take(j as int) =~= line@);
            assert(b.take(i + 1).drop_last() =~= b.take(i as int));
            assert(b.take(i + 1).last() == line@);
        }
        if best_here < best_hidden {
            best_hidden = best_here;
        }
        i += 1;
    }
    assert(b.take(i as int) =~= b);
    best_hidden
}

/// Tells whether a hint may come to rest on a tile.
pub fn stops_hint(tile: TileState, best: i16) -> (r: bool)
    ensures
        r == hint_stops_at(tile, best as int),
{
    match tile {
        TileState::Explosion => true,
        TileState::HiddenEmpty(n) => (n as i16) == best,
        TileState::Marked(n) => n >= 0 && n == best,
        TileState::Question(n) => n >= 0 && n == best,
        _ => false,
    }
}

/// The positions stand in reading order: each row after the one above it,
/// and within a row from left to right. No position stands twice.
pub open spec fn in_reading_order(cells: Seq<(usize, usize)>) -> bool {
    forall|k: int, l: int|
        0 <= k < l < cells.len() ==> comes_before(
            #[trigger] cell_of(cells[k]),
            (#[trigger] cell_of(cells[l])).0,
            cell_of(cells[l]).1,
        )
}

/// Lists the positions on which a hint may come to rest, each once, in
/// reading order.
pub fn hint_candidates(mines: &Vec<Vec<TileState>>) -> (cells: Vec<(usize, usize)>)
    ensures
        forall|p: Cell| #[trigger]
            on_stack(cells@, p) <==> in_board(board(mines), p) && hint_stops_at(
                tile_at(board(mines), p),
                best_hidden(board(mines)),
            ),
        in_reading_order(cells@),
{
    let ghost b = board(mines);
    let best = best_hint(mines);
    let mut cells: Vec<(usize, usize)> = Vec::new();
    let mut i: usize = 0;
    assert(forall|p: Cell| !on_stack(cells@, p));
    while i < mines.len()
        invariant
            i <= mines.len(),
            b == board(mines),
            best == best_hidden(b),
            forall|p: Cell| #[trigger]
                on_stack(cells@, p) <==> in_board(b, p) && p.0 < i && hint_stops_at(
                    tile_at(b, p),
                    best as int,
                ),
            in_reading_order(cells@),
            forall|k: int| 0 <= k < cells@.len() ==> (#[trigger] cell_of(cells@[k])).0 < i,
        decreases mines.len() - i,
    {
        let mut j: usize = 0;
        while j < mines[i].len()
            invariant
                i < mines.len(),
                j <= mines[i as int].len(),
                b == board(mines),
                forall|p: Cell| #[trigger]
                    on_stack(cells@, p) <==> in_board(b, p) && (p.0 < i || (p.0 == i && p.1 < j))
                        && hint_stops_at(tile_at(b, p), best as int),
                in_reading_order(cells@),
                forall|k: int|
                    0 <= k < cells@.len() ==> comes_before(
                        #[trigger] cell_of(cells@[k]),
                        i as int,
                        j as int,
                    ),
            decreases mines[i as int].len() - j,
        {
            let ghost before = cells@;
            if stops_hint(mines[i][j], best) {
                cells.push((i, j));
                proof {
                    lemma_on_stack_push(before, (i, j));
                    assert forall|k: int, l: int| 0 <= k < l < cells@.len() implies comes_before(
                        #[trigger] cell_of(cells@[k]),
                        (#[trigger] cell_of(cells@[l])).0,
                        cell_of(cells@[l]).1,
                    ) by {
                        if l < before.len() {
                            assert(cells@[k] == before[k] && cells@[l] == before[l]);
                        } else {
                            assert(cells@[k] == before[k]);
                            assert(comes_before(cell_of(before[k]), i as int, j as int));
                        }
                    }
                }
            }
            assert forall|p: Cell| #[trigger]
                on_stack(cells@, p) <==> in_board(b, p) && (p.0 < i || (p.0 == i && p.1 < j + 1))
                    && hint_stops_at(tile_at(b, p), best as int) by {
                if p.0 == i && p.1 == j {
                    assert(p == (i as int, j as int));
                    assert(tile_at(b, p) == mines[i as int][j as int]);
                }
            }
            assert forall|k: int| 0 <= k < cells@.len() implies comes_before(
                #[trigger] cell_of(cells@[k]),
                i as int,
                j + 1,
            ) by {
                if k < before.len() {
                    assert(cells@[k] == before[k]);
                    assert(comes_before(cell_of(before[k]), i as int, j as int));
                }
            }
            j += 1;
        }
        i += 1;
    }
    cells
}

/// Carries out a hint that came to rest at (`row`, `column`): a covered
/// safe tile is uncovered as by a forced reveal, a defuser on it is taken
/// off first. Any other tile is left alone.
pub fn apply_hint(row: usize, column: usize, mines: &mut Vec<Vec<TileState>>) -> (result:
    MoveResult)
    requires
        well_formed(board(old(mines))),
        in_board(board(old(mines)), (row as int, column as int)),
    ensures
        board(final(mines)) == hint_result(board(old(mines)), (row as int, column as int)),
        result == hint_outcome(board(old(mines)), (row as int, column as int)),
        well_formed(board(final(mines))),
{
    let ghost b0 = board(mines);
    let ghost p = (row as int, column as int);
    let tile = get_tile(mines, row, column);
    assert(b0[row as int][column as int].is_valid());
    match tile {
        TileState::Explosion => MoveResult::Explosion,
        TileState::HiddenEmpty(_) => reveal_tile(row, column, mines, true),
        TileState::Marked(num) => {
            if num < 0 {
                MoveResult::MakesNoSense
            } else {
                defuse_tile(row, column, mines);
                proof {
                    lemma_with_tile(b0, p, tile.defused());
                }
                reveal_tile(row, column, mines, true)
            }
        },
        TileState::Question(num) => {
            if num < 0 {
                MoveResult::MakesNoSense
            } else {
                reveal_tile(row, column, mines, true)
            }
        },
        _ => MoveResult::MakesNoSense,
    }
}

/// Gives a hint: draws one of the positions on which a hint may come to
/// rest and carries the hint out there. Where there is no such position
/// the board stays as it is and the answer is `MakesNoSense`.
pub fn show_hint(mines: &mut Vec<Vec<TileState>>) -> (result: MoveResult)
    requires
        well_formed(board(old(mines))),
    ensures
        well_formed(board(final(mines))),
        (forall|p: Cell|
            in_board(board(old(mines)), p) ==> !hint_stops_at(
                #[trigger] tile_at(board(old(mines)), p),
                best_hidden(board(old(mines))),
            )) ==> board(final(mines)) == board(old(mines)) && result == MoveResult::MakesNoSense,
        (exists|p: Cell|
            in_board(board(old(mines)), p) && hint_stops_at(
                #[trigger] tile_at(board(old(mines)), p),
                best_hidden(board(old(mines))),
            )) ==> exists|p: Cell|
            in_board(board(old(mines)), p) && hint_stops_at(
                #[trigger] tile_at(board(old(mines)), p),
                best_hidden(board(old(mines))),
            ) && board(final(mines)) == hint_result(board(old(mines)), p) && result
                == hint_outcome(board(old(mines)), p),
{
    let ghost b0 = board(mines);
    let cells = hint_candidates(mines);
    if cells.len() == 0 {
        proof {
            assert forall|p: Cell| in_board(b0, p) implies !hint_stops_at(
                #[trigger] tile_at(b0, p),
                best_hidden(b0),
            ) by {
                if hint_stops_at(tile_at(b0, p), best_hidden(b0)) {
                    assert(on_stack(cells@, p));
                }
            }
        }
        return MoveResult::MakesNoSense;
    }
    let pick = random_between(0, cells.len() - 1);
    let (row, column) = cells[pick];
    let ghost p = cell_of(cells@[pick as int]);
    proof {
        assert(on_stack(cells@, p));
    }
    let result = apply_hint(row, column, mines);
    proof {
        assert(in_board(b0, p) && hint_stops_at(tile_at(b0, p), best_hidden(b0)) && board(mines)
            == hint_result(b0, p) && result == hint_outcome(b0, p));
    }
    result
}

} // verus!
