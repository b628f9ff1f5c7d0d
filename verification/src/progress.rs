//! How far a round has come: uncovered tiles, safe tiles still covered,
//! defused mines.

use vstd::prelude::*;
use crate::grid::{
    board, count_in_board, count_in_row, lemma_count_in_board_none, tile_total, Board,
};
use crate::tile::TileState;

verus! {

/// The predicate "the tile is uncovered".
pub open spec fn visible() -> spec_fn(TileState) -> bool {
    |t: TileState| t.is_visible()
}

/// The predicate "the tile is safe and still covered".
pub open spec fn covered_safe() -> spec_fn(TileState) -> bool {
    |t: TileState| t.is_covered_safe()
}

/// The predicate "the tile is a mine under a defuser".
pub open spec fn defused_mine() -> spec_fn(TileState) -> bool {
    |t: TileState| t.is_defused_mine()
}

/// The number of uncovered tiles.
pub open spec fn visible_count(b: Board) -> nat {
    count_in_board(b, visible())
}

/// The number of safe tiles that are still covered, with or without a flag.
pub open spec fn remaining_count(b: Board) -> nat {
    count_in_board(b, covered_safe())
}

/// The number of mines under a defuser.
pub open spec fn defused_count(b: Board) -> nat {
    count_in_board(b, defused_mine())
}

/// The three counts of one board.
pub struct Tally {
    pub visible: usize,
    pub remaining: usize,
    pub defused: usize,
}

proof fn lemma_tile_total_prefix(b: Board, i: int)
    requires
        0 <= i <= b.len(),
    ensures
        tile_total(b.take(i)) <= tile_total(b),
        i < b.len() ==> tile_total(b.take(i + 1)) == tile_total(b.take(i)) + b[i].len(),
    decreases b.len() - i,
{
    if i < b.len() {
        assert(b.take(i + 1).drop_last() =~= b.take(i));
        assert(b.take(i + 1).last() == b[i]);
        lemma_tile_total_prefix(b, i + 1);
    } else {
        assert(b.take(i) =~= b);
    }
}

/// Counts the tiles of each kind in one row.
fn tally_row(row: &Vec<TileState>) -> (t: Tally)
    ensures
        t.visible == count_in_row(row@, visible()),
        t.remaining == count_in_row(row@, covered_safe()),
        t.defused == count_in_row(row@, defused_mine()),
        t.visible + t.remaining + t.defused <= row@.len(),
{
    let mut visible_tiles: usize = 0;
    let mut remaining_tiles: usize = 0;
    let mut defused_tiles: usize = 0;
    let mut j: usize = 0;
    while j < row.len()
        invariant
            j <= row.len(),
            visible_tiles == count_in_row(row@.take(j as int), visible()),
            remaining_tiles == count_in_row(row@.take(j as int), covered_safe()),
            defused_tiles == count_in_row(row@.take(j as int), defused_mine()),
            visible_tiles + remaining_tiles + defused_tiles <= j,
        decreases row.len() - j,
    {
        proof {
            assert(row@.take(j + 1).drop_last() =~= row@.take(j as int));
            assert(row@.take(j + 1).last() == row@[j as int]);
        }
        match row[j] {
            TileState::VisibleEmpty(_) => {
                visible_tiles += 1;
            },
            TileState::HiddenEmpty(_) => {
                remaining_tiles += 1;
            },
            TileState::Question(num) => {
                if num >= 0 {
                    remaining_tiles += 1;
                }
            },
            TileState::Marked(num) => {
                if num >= 0 {
                    remaining_tiles += 1;
                } else {
                    defused_tiles += 1;
                }
            },
            _ => {},
        }
        j += 1;
    }
    assert(row@.take(j as int) =~= row@);
    Tally { visible: visible_tiles, remaining: remaining_tiles, defused: defused_tiles }
}

/// Counts the uncovered tiles, the safe tiles still covered and the defused
/// mines of a board in one pass.
pub fn tally(mine_map: &Vec<Vec<TileState>>) -> (t: Tally)
    requires
        tile_total(board(mine_map)) <= usize::MAX,
    ensures
        t.visible == visible_count(board(mine_map)),
        t.remaining == remaining_count(board(mine_map)),
        t.defused == defused_count(board(mine_map)),
        t.visible + t.remaining + t.defused <= tile_total(board(mine_map)),
{
    let ghost b = board(mine_map);
    let mut visible_tiles: usize = 0;
    let mut remaining_tiles: usize = 0;
    let mut defused_tiles: usize = 0;
    let mut i: usize = 0;
    while i < mine_map.len()
        invariant
            b == board(mine_map),
            tile_total(b) <= usize::MAX,
            i <= mine_map.len(),
            visible_tiles == count_in_board(b.take(i as int), visible()),
            remaining_tiles == count_in_board(b.take(i as int), covered_safe()),
            defused_tiles == count_in_board(b.take(i as int), defused_mine()),
            visible_tiles + remaining_tiles + defused_tiles <= tile_total(b.take(i as int)),
        decreases mine_map.len() - i,
    {
        let in_row = tally_row(&mine_map[i]);
        proof {
            assert(b.take(i + 1).drop_last() =~= b.take(i as int));
            assert(b.take(i + 1).last() == b[i as int]);
            assert(b[i as int] == mine_map[i as int]@);
            lemma_tile_total_prefix(b, i as int);
            lemma_tile_total_prefix(b, i + 1);
        }
        visible_tiles += in_row.visible;
        remaining_tiles += in_row.remaining;
        defused_tiles += in_row.defused;
        i += 1;
    }
    assert(b.take(i as int) =~= b);
    Tally { visible: visible_tiles, remaining: remaining_tiles, defused: defused_tiles }
}

/// Returns the number of uncovered tiles and the number of safe tiles that
/// are still covered. Flagged mines count for neither.
pub fn get_progress(mine_map: &Vec<Vec<TileState>>) -> (progress: (usize, usize))
    requires
        tile_total(board(mine_map)) <= usize::MAX,
    ensures
        progress.0 == visible_count(board(mine_map)),
        progress.1 == remaining_count(board(mine_map)),
        progress.0 + progress.1 <= usize::MAX,
{
    let t = tally(mine_map);
    (t.visible, t.remaining)
}

/// Returns the number of mines that lie under a defuser.
pub fn count_defused(mine_map: &Vec<Vec<TileState>>) -> (defused: usize)
    requires
        tile_total(board(mine_map)) <= usize::MAX,
    ensures
        defused == defused_count(board(mine_map)),
{
    tally(mine_map).defused
}

/// Returns the number of tiles of a rectangular board: rows times columns.
pub fn tile_count(mine_map: &Vec<Vec<TileState>>) -> (total: usize)
    requires
        crate::grid::is_rectangular(board(mine_map)),
        tile_total(board(mine_map)) <= usize::MAX,
    ensures
        total == tile_total(board(mine_map)),
        total == board(mine_map).len() * crate::grid::width(board(mine_map)),
{
    proof {
        crate::grid::lemma_tile_total_rectangular(board(mine_map));
    }
    if mine_map.len() == 0 {
        0
    } else {
        mine_map.len() * mine_map[0].len()
    }
}

/// The numbers that a round adds to the record of the player.
#[derive(Clone, Copy, PartialEq, Eq, Structural, Debug)]
pub struct RoundNumbers {
    pub defused: usize,
    pub revealed: usize,
    pub exploded: bool,
}

/// How a round came to its end.
#[derive(Clone, Copy, PartialEq, Eq, Structural, Debug)]
pub enum RoundEnd {
    /// The player left.
    Left,
    /// A mine went off.
    Lost,
    /// Every safe tile is uncovered.
    Won,
}

/// The numbers of a round: the uncovered tiles count as revealed. In a
/// round that was won every other tile counts as a defused mine, else the
/// mines under a defuser do.
pub open spec fn numbers_of_round(b: Board, end: RoundEnd) -> RoundNumbers {
    RoundNumbers {
        defused: if end is Won {
            (tile_total(b) - visible_count(b)) as usize
        } else {
            defused_count(b) as usize
        },
        revealed: visible_count(b) as usize,
        exploded: end is Lost,
    }
}

/// Works out the numbers that a round adds to the record.
pub fn round_numbers(mine_map: &Vec<Vec<TileState>>, end: RoundEnd) -> (numbers: RoundNumbers)
    requires
        tile_total(board(mine_map)) <= usize::MAX,
        end is Won ==> crate::grid::is_rectangular(board(mine_map)),
    ensures
        numbers == numbers_of_round(board(mine_map), end),
{
    let t = tally(mine_map);
    match end {
        RoundEnd::Won => RoundNumbers {
            defused: tile_count(mine_map) - t.visible,
            revealed: t.visible,
            exploded: false,
        },
        RoundEnd::Lost => RoundNumbers { defused: t.defused, revealed: t.visible, exploded: true },
        RoundEnd::Left => RoundNumbers { defused: t.defused, revealed: t.visible, exploded: false },
    }
}

/// A round is won once every safe tile is uncovered: a flag on a safe tile
/// does not stand for uncovering it.
pub fn round_is_won(visible: usize, remaining: usize) -> (won: bool)
    ensures
        won == (remaining == 0),
{
    match visible.checked_add(remaining) {
        Some(all) => visible == all,
        None => false,
    }
}

/// A board on which no safe tile is covered has nothing left to uncover.
pub proof fn lemma_no_covered_safe_tile_left(b: Board)
    requires
        forall|i: int, j: int|
            0 <= i < b.len() && 0 <= j < b[i].len() ==> !(#[trigger] b[i][j]).is_covered_safe(),
    ensures
        remaining_count(b) == 0,
{
    lemma_count_in_board_none(b, covered_safe());
}

} // verus!
