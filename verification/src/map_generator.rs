//! Laying out a fresh board: mines at random, then the neighbour counts.

use vstd::prelude::*;
use crate::chance::random_between;
use crate::grid::{
    board, comes_before, in_board, is_rectangular, set_tile, tile_at, well_formed, width, Board,
    Cell,
};
use crate::tile::TileState;

verus! {

/// Out of 100 rolls, so many give a mine.
pub const MINE_PERCENT: usize = 20;

/// 1 where an untouched mine lies at `p`, 0 elsewhere and off the board.
pub open spec fn mine_at(b: Board, p: Cell) -> int {
    if in_board(b, p) && tile_at(b, p) == TileState::Mine {
        1
    } else {
        0
    }
}

/// The number of untouched mines on the up to eight neighbours of `p`.
pub open spec fn mines_around(b: Board, p: Cell) -> int {
    mine_at(b, (p.0 - 1, p.1 - 1)) + mine_at(b, (p.0 - 1, p.1)) + mine_at(b, (p.0 - 1, p.1 + 1))
        + mine_at(b, (p.0, p.1 - 1)) + mine_at(b, (p.0, p.1 + 1)) + mine_at(b, (p.0 + 1, p.1 - 1))
        + mine_at(b, (p.0 + 1, p.1)) + mine_at(b, (p.0 + 1, p.1 + 1))
}

/// The tile that the counting pass leaves at `p`: a mine stays, anything
/// else becomes a covered tile with the number of mines around it.
pub open spec fn counted_tile(b: Board, p: Cell) -> TileState {
    if tile_at(b, p) == TileState::Mine {
        TileState::Mine
    } else {
        TileState::HiddenEmpty(mines_around(b, p) as u8)
    }
}

/// The board after the counting pass.
pub open spec fn counted(b: Board) -> Board {
    Seq::new(b.len(), |i: int| Seq::new(b[i].len(), |j: int| counted_tile(b, (i, j))))
}

/// The board is as the generator leaves it: every tile is an untouched mine
/// or a covered tile that holds the number of mines around it.
pub open spec fn is_fresh(b: Board) -> bool {
    forall|i: int, j: int|
        0 <= i < b.len() && 0 <= j < b[i].len() ==> #[trigger] b[i][j] == counted_tile(b, (i, j))
}

/// The tile that a roll between 1 and 100 gives.
pub open spec fn rolled_tile(roll: usize) -> TileState {
    if roll <= MINE_PERCENT {
        TileState::Mine
    } else {
        TileState::HiddenEmpty(0)
    }
}

/// A position has at most eight neighbours.
pub proof fn lemma_mines_around_bound(b: Board, p: Cell)
    ensures
        0 <= mines_around(b, p) <= 8,
{
}

/// The counting pass leaves a rectangle of valid tiles.
pub proof fn lemma_counted_well_formed(b: Board)
    requires
        is_rectangular(b),
    ensures
        well_formed(counted(b)),
        counted(b).len() == b.len(),
        width(counted(b)) == width(b),
{
    let after = counted(b);
    assert forall|i: int| 0 <= i < after.len() implies (#[trigger] after[i]).len() == width(
        after,
    ) by {
        assert(b[i].len() == width(b));
        assert(b[0].len() == width(b));
    }
    assert forall|i: int, j: int| 0 <= i < after.len() && 0 <= j < after[i].len() implies (
    #[trigger] after[i][j]).is_valid() by {
        lemma_mines_around_bound(b, (i, j));
    }
}

/// The mines of two boards of one shape lie at the same places: then the
/// counts agree.
proof fn lemma_mines_around_same(a: Board, b: Board, p: Cell)
    requires
        a.len() == b.len(),
        forall|i: int| 0 <= i < a.len() ==> (#[trigger] a[i]).len() == b[i].len(),
        forall|q: Cell|
            in_board(a, q) ==> (#[trigger] tile_at(a, q) == TileState::Mine) == (tile_at(b, q)
                == TileState::Mine),
    ensures
        mines_around(a, p) == mines_around(b, p),
{
    assert forall|q: Cell| mine_at(a, q) == mine_at(b, q) by {
        if in_board(a, q) {
            assert(a[q.0].len() == b[q.0].len());
            assert((tile_at(a, q) == TileState::Mine) == (tile_at(b, q) == TileState::Mine));
        } else if in_board(b, q) {
            assert(a[q.0].len() == b[q.0].len());
        }
    }
}

/// The counting pass changes nothing on a board it has been over.
pub proof fn lemma_counted_is_fresh(b: Board)
    ensures
        is_fresh(counted(b)),
{
    let after = counted(b);
    assert forall|i: int, j: int| 0 <= i < after.len() && 0 <= j < after[i].len() implies #[trigger]
        after[i][j] == counted_tile(after, (i, j)) by {
        assert forall|q: Cell| in_board(after, q) implies (#[trigger] tile_at(after, q)
            == TileState::Mine) == (tile_at(b, q) == TileState::Mine) by {}
        lemma_mines_around_same(after, b, (i, j));
    }
}

/// Turns a roll between 1 and 100 into a tile: a mine for the first
/// `MINE_PERCENT` values, a covered tile else.
pub fn tile_from_roll(roll: usize) -> (tile: TileState)
    ensures
        tile == rolled_tile(roll),
{
    if roll <= MINE_PERCENT {
        TileState::Mine
    } else {
        TileState::HiddenEmpty(0)
    }
}

/// Counts one more mine on a tile that is being counted.
pub fn add_one(tile: &TileState) -> (r: TileState)
    requires
        *tile is Mine || (*tile matches TileState::HiddenEmpty(x) && x < 255),
    ensures
        *tile is Mine ==> r == TileState::HiddenEmpty(1),
        *tile matches TileState::HiddenEmpty(x) ==> r == TileState::HiddenEmpty((x + 1) as u8),
{
    match tile {
        TileState::Mine => TileState::HiddenEmpty(1),
        TileState::HiddenEmpty(x) => TileState::HiddenEmpty(1 + *x),
        _ => TileState::HiddenEmpty(0),
    }
}

/// Counts the mine at (`row`, `column`), if there is one, on `tile`.
fn count_if_mine(tile: TileState, mines: &Vec<Vec<TileState>>, row: usize, column: usize) -> (r:
    TileState)
    requires
        in_board(board(mines), (row as int, column as int)),
        tile matches TileState::HiddenEmpty(x) && x < 255,
    ensures
        r == TileState::HiddenEmpty(
            (tile->HiddenEmpty_0 + mine_at(board(mines), (row as int, column as int))) as u8,
        ),
{
    if mines[row][column] == TileState::Mine {
        add_one(&tile)
    } else {
        tile
    }
}

/// Counts the untouched mines around (`row`, `column`) and returns the
/// covered tile that holds the count. The board is only read.
pub fn count_neigbour_mines(
    row: usize,
    column: usize,
    mines: &mut Vec<Vec<TileState>>,
    height: usize,
    width: usize,
) -> (tile: TileState)
    requires
        is_rectangular(board(old(mines))),
        height == board(old(mines)).len(),
        width == self::width(board(old(mines))),
        row < height,
        column < width,
    ensures
        *final(mines) == *old(mines),
        tile == TileState::HiddenEmpty(
            mines_around(board(old(mines)), (row as int, column as int)) as u8,
        ),
        mines_around(board(old(mines)), (row as int, column as int)) <= 8,
{
    let ghost b = board(mines);
    let ghost r = row as int;
    let ghost c = column as int;
    proof {
        assert forall|i: int| 0 <= i < b.len() implies (#[trigger] b[i]).len() == width by {
            assert(b[i].len() == self::width(b));
            assert(b[0].len() == self::width(b));
        }
    }
    let mut tile = TileState::HiddenEmpty(0);
    // the row above
    if row > 0 {
        let row_local = row - 1;
        if column > 0 {
            tile = count_if_mine(tile, mines, row_local, column - 1);
        }
        tile = count_if_mine(tile, mines, row_local, column);
        if column + 1 < width {
            tile = count_if_mine(tile, mines, row_local, column + 1);
        }
    }
    let ghost above = mine_at(b, (r - 1, c - 1)) + mine_at(b, (r - 1, c)) + mine_at(
        b,
        (r - 1, c + 1),
    );
    assert(tile == TileState::HiddenEmpty(above as u8) && 0 <= above <= 3);
    // this row
    if column > 0 {
        tile = count_if_mine(tile, mines, row, column - 1);
    }
    if column + 1 < width {
        tile = count_if_mine(tile, mines, row, column + 1);
    }
    let ghost beside = mine_at(b, (r, c - 1)) + mine_at(b, (r, c + 1));
    assert(tile == TileState::HiddenEmpty((above + beside) as u8) && 0 <= beside <= 2);
    // the row below
    if row + 1 < height {
        let row_local = row + 1;
        if column > 0 {
            tile = count_if_mine(tile, mines, row_local, column - 1);
        }
        tile = count_if_mine(tile, mines, row_local, column);
        if column + 1 < width {
            tile = count_if_mine(tile, mines, row_local, column + 1);
        }
    }
    let ghost below = mine_at(b, (r + 1, c - 1)) + mine_at(b, (r + 1, c)) + mine_at(
        b,
        (r + 1, c + 1),
    );
    assert(tile == TileState::HiddenEmpty((above + beside + below) as u8));
    tile
}

/// The counting pass: every tile that is no untouched mine becomes a covered
/// tile with the number of mines around it, which is at most 8.
pub fn fill_neighbours(mines: &mut Vec<Vec<TileState>>)
    requires
        is_rectangular(board(old(mines))),
    ensures
        board(final(mines)) == counted(board(old(mines))),
        well_formed(board(final(mines))),
        is_fresh(board(final(mines))),
{
    let ghost b0 = board(mines);
    let height = mines.len();
    proof {
        lemma_counted_well_formed(b0);
        lemma_counted_is_fresh(b0);
    }
    if height > 0 {
        let width = mines[0].len();
        let mut row: usize = 0;
        while row < height
            invariant
                is_rectangular(b0),
                height == b0.len(),
                width == self::width(b0),
                row <= height,
                fill_inv(b0, board(mines), row as int, 0),
            decreases height - row,
        {
            let mut column: usize = 0;
            while column < width
                invariant
                    is_rectangular(b0),
                    height == b0.len(),
                    width == self::width(b0),
                    row < height,
                    column <= width,
                    fill_inv(b0, board(mines), row as int, column as int),
                decreases width - column,
            {
                let ghost cur = board(mines);
                let ghost p = (row as int, column as int);
                proof {
                    lemma_fill_inv_shape(b0, cur, row as int, column as int);
                }
                if mines[row][column] == TileState::Mine {
                    proof {
                        lemma_fill_skip(b0, cur, p);
                    }
                    column += 1;
                    continue ;
                }
                let tile = count_neigbour_mines(row, column, mines, height, width);
                set_tile(mines, row, column, tile);
                proof {
                    lemma_fill_step(b0, cur, p, tile);
                }
                column += 1;
            }
            proof {
                lemma_fill_next_row(b0, board(mines), row as int);
            }
            row += 1;
        }
        proof {
            lemma_fill_done(b0, board(mines));
        }
    } else {
        assert(board(mines) =~= counted(b0));
    }
}

/// The counting pass has come to (`row`, `column`): what lies before is
/// counted, the rest is as it was.
spec fn fill_inv(b0: Board, cur: Board, row: int, column: int) -> bool {
    &&& cur.len() == b0.len()
    &&& forall|i: int| 0 <= i < b0.len() ==> (#[trigger] cur[i]).len() == b0[i].len()
    &&& forall|q: Cell|
        in_board(b0, q) ==> #[trigger] tile_at(cur, q) == if comes_before(q, row, column) {
            counted_tile(b0, q)
        } else {
            tile_at(b0, q)
        }
}

proof fn lemma_fill_inv_shape(b0: Board, cur: Board, row: int, column: int)
    requires
        is_rectangular(b0),
        fill_inv(b0, cur, row, column),
        0 <= row < b0.len(),
        0 <= column < width(b0),
    ensures
        is_rectangular(cur),
        width(cur) == width(b0),
        in_board(cur, (row, column)),
        in_board(b0, (row, column)),
        tile_at(cur, (row, column)) == tile_at(b0, (row, column)),
        mines_around(cur, (row, column)) == mines_around(b0, (row, column)),
{
    assert(b0[0].len() == width(b0));
    assert(b0[row].len() == width(b0));
    assert forall|i: int| 0 <= i < cur.len() implies (#[trigger] cur[i]).len() == width(cur) by {
        assert(b0[i].len() == width(b0));
    }
    assert(cur[row].len() == b0[row].len());
    assert(in_board(b0, (row, column)));
    assert(tile_at(cur, (row, column)) == tile_at(b0, (row, column)));
    assert forall|q: Cell| in_board(cur, q) implies (#[trigger] tile_at(cur, q) == TileState::Mine)
        == (tile_at(b0, q) == TileState::Mine) by {
        assert(cur[q.0].len() == b0[q.0].len());
        assert(in_board(b0, q));
    }
    lemma_mines_around_same(cur, b0, (row, column));
}

proof fn lemma_fill_skip(b0: Board, cur: Board, p: Cell)
    requires
        fill_inv(b0, cur, p.0, p.1),
        in_board(b0, p),
        tile_at(cur, p) == TileState::Mine,
    ensures
        fill_inv(b0, cur, p.0, p.1 + 1),
{
    assert(tile_at(cur, p) == tile_at(b0, p));
    assert forall|q: Cell| in_board(b0, q) implies #[trigger] tile_at(cur, q) == if comes_before(
        q,
        p.0,
        p.1 + 1,
    ) {
        counted_tile(b0, q)
    } else {
        tile_at(b0, q)
    } by {
        if q.0 == p.0 && q.1 == p.1 {
            assert(q == p);
        }
    }
}

proof fn lemma_fill_step(b0: Board, cur: Board, p: Cell, tile: TileState)
    requires
        fill_inv(b0, cur, p.0, p.1),
        in_board(b0, p),
        tile_at(b0, p) != TileState::Mine,
        tile == TileState::HiddenEmpty(mines_around(b0, p) as u8),
    ensures
        fill_inv(b0, crate::grid::with_tile(cur, p, tile), p.0, p.1 + 1),
{
    let next = crate::grid::with_tile(cur, p, tile);
    assert(cur[p.0].len() == b0[p.0].len());
    crate::grid::lemma_with_tile(cur, p, tile);
    assert forall|q: Cell| in_board(b0, q) implies #[trigger] tile_at(next, q) == if comes_before(
        q,
        p.0,
        p.1 + 1,
    ) {
        counted_tile(b0, q)
    } else {
        tile_at(b0, q)
    } by {
        assert(cur[q.0].len() == b0[q.0].len());
        assert(in_board(cur, q));
        if q.0 == p.0 && q.1 == p.1 {
            assert(q == p);
        } else {
            assert(tile_at(next, q) == tile_at(cur, q));
        }
    }
}

proof fn lemma_fill_next_row(b0: Board, cur: Board, row: int)
    requires
        is_rectangular(b0),
        0 <= row < b0.len(),
        fill_inv(b0, cur, row, width(b0) as int),
    ensures
        fill_inv(b0, cur, row + 1, 0),
{
    assert forall|q: Cell| in_board(b0, q) implies #[trigger] tile_at(cur, q) == if comes_before(
        q,
        row + 1,
        0,
    ) {
        counted_tile(b0, q)
    } else {
        tile_at(b0, q)
    } by {
        assert(b0[q.0].len() == width(b0));
        assert(comes_before(q, row + 1, 0) == comes_before(q, row, width(b0) as int));
    }
}

proof fn lemma_fill_done(b0: Board, cur: Board)
    requires
        fill_inv(b0, cur, b0.len() as int, 0),
    ensures
        cur == counted(b0),
{
    let want = counted(b0);
    assert forall|i: int| 0 <= i < cur.len() implies cur[i] =~= want[i] by {
        assert(cur[i].len() == b0[i].len());
        assert forall|j: int| 0 <= j < cur[i].len() implies cur[i][j] == want[i][j] by {
            assert(in_board(b0, (i, j)));
            assert(tile_at(cur, (i, j)) == counted_tile(b0, (i, j)));
        }
    }
    assert(cur =~= want);
}

/// Lays out a board of `height` rows and `width` columns. Each tile is a
/// mine with a chance of `MINE_PERCENT` in 100, whatever the others are;
/// then the counts are filled in. Which tiles are mines is left to chance:
/// a board of mines only, or of none, can come out.
pub fn generate_map(width: u8, height: u8) -> (map: Vec<Vec<TileState>>)
    ensures
        board(&map).len() == height,
        forall|i: int| 0 <= i < height ==> (#[trigger] board(&map)[i]).len() == width,
        well_formed(board(&map)),
        is_fresh(board(&map)),
{
    let mut ret: Vec<Vec<TileState>> = Vec::new();
    let mut i: u8 = 0;
    while i < height
        invariant
            i <= height,
            ret.len() == i,
            forall|k: int| 0 <= k < i ==> (#[trigger] ret[k]).len() == width,
        decreases height - i,
    {
        let mut row: Vec<TileState> = Vec::new();
        let mut j: u8 = 0;
        while j < width
            invariant
                j <= width,
                row.len() == j,
            decreases width - j,
        {
            let roll = random_between(1, 100);
            row.push(tile_from_roll(roll));
            j += 1;
        }
        ret.push(row);
        i += 1;
    }
    proof {
        let b = board(&ret);
        assert forall|k: int| 0 <= k < b.len() implies (#[trigger] b[k]).len() == self::width(
            b,
        ) by {
            assert(ret[k].len() == width);
            assert(ret[0].len() == width);
        }
        lemma_counted_well_formed(b);
    }
    fill_neighbours(&mut ret);
    proof {
        let b = board(&ret);
        assert forall|k: int| 0 <= k < height implies (#[trigger] b[k]).len() == width by {}
    }
    ret
}

} // verus!
