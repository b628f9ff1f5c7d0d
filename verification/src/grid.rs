//! The board as a mathematical object: a sequence of rows of tiles.

use vstd::prelude::*;
use crate::tile::TileState;

verus! {

/// A board in contracts: rows of tiles.
pub type Board = Seq<Seq<TileState>>;

/// A position on a board: row first, then column.
pub type Cell = (int, int);

/// The board that a vector of rows holds.
pub open spec fn board(rows: &Vec<Vec<TileState>>) -> Board {
    rows@.map_values(|row: Vec<TileState>| row@)
}

/// The number of columns: the length of the first row, 0 without rows.
pub open spec fn width(b: Board) -> nat {
    if b.len() == 0 {
        0
    } else {
        b[0].len()
    }
}

/// Every row is as long as the first.
pub open spec fn is_rectangular(b: Board) -> bool {
    forall|i: int| 0 <= i < b.len() ==> (#[trigger] b[i]).len() == width(b)
}

/// Every tile holds a count or a flag that the game can produce.
pub open spec fn all_tiles_valid(b: Board) -> bool {
    forall|i: int, j: int| 0 <= i < b.len() && 0 <= j < b[i].len() ==> (#[trigger] b[i][j]).is_valid()
}

/// The board is a rectangle of valid tiles.
pub open spec fn well_formed(b: Board) -> bool {
    is_rectangular(b) && all_tiles_valid(b)
}

/// The position lies on the board.
pub open spec fn in_board(b: Board, p: Cell) -> bool {
    0 <= p.0 < b.len() && 0 <= p.1 < b[p.0].len()
}

/// The tile at a position.
pub open spec fn tile_at(b: Board, p: Cell) -> TileState {
    b[p.0][p.1]
}

/// The board with one tile replaced.
pub open spec fn with_tile(b: Board, p: Cell, tile: TileState) -> Board {
    b.update(p.0, b[p.0].update(p.1, tile))
}

/// Two different positions that touch, sideways or diagonally.
pub open spec fn adjacent(p: Cell, q: Cell) -> bool {
    p != q && p.0 - 1 <= q.0 <= p.0 + 1 && p.1 - 1 <= q.1 <= p.1 + 1
}

/// The position comes before (`row`, `column`) in reading order: in a row
/// above, or in that row further left.
pub open spec fn comes_before(p: Cell, row: int, column: int) -> bool {
    p.0 < row || (p.0 == row && p.1 < column)
}

/// The number of tiles of a row that satisfy `pred`.
pub open spec fn count_in_row(row: Seq<TileState>, pred: spec_fn(TileState) -> bool) -> nat
    decreases row.len(),
{
    if row.len() == 0 {
        0
    } else {
        count_in_row(row.drop_last(), pred) + if pred(row.last()) {
            1nat
        } else {
            0nat
        }
    }
}

/// The number of tiles of a board that satisfy `pred`.
pub open spec fn count_in_board(b: Board, pred: spec_fn(TileState) -> bool) -> nat
    decreases b.len(),
{
    if b.len() == 0 {
        0
    } else {
        count_in_board(b.drop_last(), pred) + count_in_row(b.last(), pred)
    }
}

/// The number of tiles of a board.
pub open spec fn tile_total(b: Board) -> nat
    decreases b.len(),
{
    if b.len() == 0 {
        0
    } else {
        tile_total(b.drop_last()) + b.last().len()
    }
}

/// A rectangular board has height times width tiles.
pub proof fn lemma_tile_total_rectangular(b: Board)
    requires
        is_rectangular(b),
    ensures
        tile_total(b) == b.len() * width(b),
    decreases b.len(),
{
    let w = width(b) as int;
    let h = b.len() as int;
    if h > 1 {
        let front = b.drop_last();
        assert(front[0] == b[0]);
        assert forall|i: int| 0 <= i < front.len() implies (#[trigger] front[i]).len() == width(
            front,
        ) by {
            assert(front[i] == b[i]);
        }
        lemma_tile_total_rectangular(front);
        assert(b.last().len() == w);
        assert(h * w == (h - 1) * w + w) by (nonlinear_arith);
    } else if h == 1 {
        assert(tile_total(b.drop_last()) == 0);
        assert(b.last() == b[0]);
        assert(h * w == w) by (nonlinear_arith)
            requires
                h == 1,
        ;
    } else {
        assert(h * w == 0) by (nonlinear_arith)
            requires
                h == 0,
        ;
    }
}

/// Replacing one tile of a row changes the count by what the two tiles
/// contribute.
pub proof fn lemma_count_in_row_update(
    row: Seq<TileState>,
    j: int,
    tile: TileState,
    pred: spec_fn(TileState) -> bool,
)
    requires
        0 <= j < row.len(),
    ensures
        count_in_row(row.update(j, tile), pred) + (if pred(row[j]) {
            1nat
        } else {
            0nat
        }) == count_in_row(row, pred) + (if pred(tile) {
            1nat
        } else {
            0nat
        }),
    decreases row.len(),
{
    let changed = row.update(j, tile);
    if j == row.len() - 1 {
        assert(changed.drop_last() =~= row.drop_last());
    } else {
        assert(changed.drop_last() =~= row.drop_last().update(j, tile));
        lemma_count_in_row_update(row.drop_last(), j, tile, pred);
    }
}

/// Replacing one row of a board changes the count by what the two rows
/// contribute.
pub proof fn lemma_count_in_board_update(
    b: Board,
    i: int,
    row: Seq<TileState>,
    pred: spec_fn(TileState) -> bool,
)
    requires
        0 <= i < b.len(),
    ensures
        count_in_board(b.update(i, row), pred) + count_in_row(b[i], pred) == count_in_board(b, pred)
            + count_in_row(row, pred),
    decreases b.len(),
{
    let changed = b.update(i, row);
    if i == b.len() - 1 {
        assert(changed.drop_last() =~= b.drop_last());
    } else {
        assert(changed.drop_last() =~= b.drop_last().update(i, row));
        lemma_count_in_board_update(b.drop_last(), i, row, pred);
    }
}

/// Replacing one tile of a board changes the count by what the two tiles
/// contribute.
pub proof fn lemma_count_with_tile(
    b: Board,
    p: Cell,
    tile: TileState,
    pred: spec_fn(TileState) -> bool,
)
    requires
        in_board(b, p),
    ensures
        count_in_board(with_tile(b, p, tile), pred) + (if pred(tile_at(b, p)) {
            1nat
        } else {
            0nat
        }) == count_in_board(b, pred) + (if pred(tile) {
            1nat
        } else {
            0nat
        }),
{
    lemma_count_in_row_update(b[p.0], p.1, tile, pred);
    lemma_count_in_board_update(b, p.0, b[p.0].update(p.1, tile), pred);
}

/// Where no tile satisfies the predicate the count is 0.
pub proof fn lemma_count_in_row_none(row: Seq<TileState>, pred: spec_fn(TileState) -> bool)
    requires
        forall|j: int| 0 <= j < row.len() ==> !pred(#[trigger] row[j]),
    ensures
        count_in_row(row, pred) == 0,
    decreases row.len(),
{
    if row.len() > 0 {
        let front = row.drop_last();
        assert forall|j: int| 0 <= j < front.len() implies !pred(#[trigger] front[j]) by {
            assert(front[j] == row[j]);
        }
        lemma_count_in_row_none(front, pred);
    }
}

/// Where every tile satisfies the predicate the count is the length.
pub proof fn lemma_count_in_row_all(row: Seq<TileState>, pred: spec_fn(TileState) -> bool)
    requires
        forall|j: int| 0 <= j < row.len() ==> pred(#[trigger] row[j]),
    ensures
        count_in_row(row, pred) == row.len(),
    decreases row.len(),
{
    if row.len() > 0 {
        let front = row.drop_last();
        assert forall|j: int| 0 <= j < front.len() implies pred(#[trigger] front[j]) by {
            assert(front[j] == row[j]);
        }
        lemma_count_in_row_all(front, pred);
    }
}

/// Where no tile of the board satisfies the predicate the count is 0.
pub proof fn lemma_count_in_board_none(b: Board, pred: spec_fn(TileState) -> bool)
    requires
        forall|i: int, j: int| 0 <= i < b.len() && 0 <= j < b[i].len() ==> !pred(#[trigger] b[i][j]),
    ensures
        count_in_board(b, pred) == 0,
    decreases b.len(),
{
    if b.len() > 0 {
        let front = b.drop_last();
        assert forall|i: int, j: int| 0 <= i < front.len() && 0 <= j < front[i].len() implies !pred(
            #[trigger] front[i][j],
        ) by {
            assert(front[i] == b[i]);
        }
        lemma_count_in_board_none(front, pred);
        let last = b.last();
        assert forall|j: int| 0 <= j < last.len() implies !pred(#[trigger] last[j]) by {
            assert(last[j] == b[b.len() - 1][j]);
        }
        lemma_count_in_row_none(last, pred);
    }
}

/// Where every tile of the board satisfies the predicate the count is the
/// number of tiles.
pub proof fn lemma_count_in_board_all(b: Board, pred: spec_fn(TileState) -> bool)
    requires
        forall|i: int, j: int| 0 <= i < b.len() && 0 <= j < b[i].len() ==> pred(#[trigger] b[i][j]),
    ensures
        count_in_board(b, pred) == tile_total(b),
    decreases b.len(),
{
    if b.len() > 0 {
        let front = b.drop_last();
        assert forall|i: int, j: int| 0 <= i < front.len() && 0 <= j < front[i].len() implies pred(
            #[trigger] front[i][j],
        ) by {
            assert(front[i] == b[i]);
        }
        lemma_count_in_board_all(front, pred);
        let last = b.last();
        assert forall|j: int| 0 <= j < last.len() implies pred(#[trigger] last[j]) by {
            assert(last[j] == b[b.len() - 1][j]);
        }
        lemma_count_in_row_all(last, pred);
    }
}

/// Tells whether a tile holds a count or a flag that the game can produce.
pub fn is_valid_tile(tile: TileState) -> (r: bool)
    ensures
        r == tile.is_valid(),
{
    match tile {
        TileState::Mine => true,
        TileState::Explosion => true,
        TileState::Marked(n) => -1 <= n && n <= 8,
        TileState::HiddenEmpty(n) => n <= 8,
        TileState::VisibleEmpty(n) => n <= 8,
        TileState::Question(n) => -1 <= n && n <= 8,
    }
}

/// Tells whether the rows make up a rectangle of valid tiles.
pub fn is_well_formed(rows: &Vec<Vec<TileState>>) -> (r: bool)
    ensures
        r == well_formed(board(rows)),
{
    let ghost b = board(rows);
    let mut i: usize = 0;
    while i < rows.len()
        invariant
            i <= rows.len(),
            b == board(rows),
            forall|k: int| 0 <= k < i ==> (#[trigger] b[k]).len() == width(b),
            forall|k: int, j: int| 0 <= k < i && 0 <= j < b[k].len() ==> (#[trigger] b[k][j]).is_valid(),
        decreases rows.len() - i,
    {
        if rows[i].len() != rows[0].len() {
            assert(b[i as int].len() != width(b));
            return false;
        }
        let mut j: usize = 0;
        while j < rows[i].len()
            invariant
                i < rows.len(),
                j <= rows[i as int].len(),
                b == board(rows),
                forall|c: int| 0 <= c < j ==> (#[trigger] b[i as int][c]).is_valid(),
            decreases rows[i as int].len() - j,
        {
            if !is_valid_tile(rows[i][j]) {
                assert(!b[i as int][j as int].is_valid());
                return false;
            }
            j += 1;
        }
        i += 1;
    }
    true
}

/// Reads one tile.
pub fn get_tile(rows: &Vec<Vec<TileState>>, row: usize, column: usize) -> (tile: TileState)
    requires
        in_board(board(rows), (row as int, column as int)),
    ensures
        tile == tile_at(board(rows), (row as int, column as int)),
{
    rows[row][column]
}

/// Writes one tile and leaves every other as it is.
pub fn set_tile(rows: &mut Vec<Vec<TileState>>, row: usize, column: usize, tile: TileState)
    requires
        in_board(board(old(rows)), (row as int, column as int)),
    ensures
        board(final(rows)) == with_tile(board(old(rows)), (row as int, column as int), tile),
{
    rows[row][column] = tile;
    assert(board(rows) =~= with_tile(board(old(rows)), (row as int, column as int), tile)) by {
        let after = board(rows);
        let want = with_tile(board(old(rows)), (row as int, column as int), tile);
        assert(after.len() == want.len());
        assert forall|i: int| 0 <= i < after.len() implies after[i] == want[i] by {
            if i == row {
                assert(after[i] =~= want[i]);
            } else {
                assert(rows@[i] == old(rows)@[i]);
            }
        }
    }
}

/// What `with_tile` does to the shape and to each tile.
pub proof fn lemma_with_tile(b: Board, p: Cell, tile: TileState)
    requires
        in_board(b, p),
    ensures
        with_tile(b, p, tile).len() == b.len(),
        forall|i: int| 0 <= i < b.len() ==> (#[trigger] with_tile(b, p, tile)[i]).len() == b[i].len(),
        forall|q: Cell|
            in_board(b, q) ==> #[trigger] tile_at(with_tile(b, p, tile), q) == if q == p {
                tile
            } else {
                tile_at(b, q)
            },
        forall|q: Cell| in_board(with_tile(b, p, tile), q) == in_board(b, q),
        is_rectangular(b) ==> is_rectangular(with_tile(b, p, tile)),
        all_tiles_valid(b) && tile.is_valid() ==> all_tiles_valid(with_tile(b, p, tile)),
        width(with_tile(b, p, tile)) == width(b),
{
    let after = with_tile(b, p, tile);
    assert forall|q: Cell| in_board(b, q) implies #[trigger] tile_at(after, q) == if q == p {
        tile
    } else {
        tile_at(b, q)
    } by {
        if q.0 == p.0 && q.1 == p.1 {
            assert(q == p);
        }
    }
    if is_rectangular(b) {
        assert forall|i: int| 0 <= i < after.len() implies (#[trigger] after[i]).len() == width(
            after,
        ) by {
            assert(b[i].len() == width(b));
            assert(b[0].len() == width(b));
        }
    }
    if all_tiles_valid(b) && tile.is_valid() {
        assert forall|i: int, j: int| 0 <= i < after.len() && 0 <= j < after[i].len() implies (
        #[trigger] after[i][j]).is_valid() by {
            assert(b[i][j].is_valid());
        }
    }
}

} // verus!
