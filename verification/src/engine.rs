//! The three player actions on a board: reveal, defuse and mark.
//!
//! A reveal that uncovers a tile with no mine around it carries on to the
//! eight neighbours, and from those on, until it meets tiles with a count.
//! The contract of `reveal_tile` states which tiles that is, whatever the
//! order in which the implementation visits them.

use vstd::prelude::*;
use crate::grid::{
    adjacent, board, count_in_board, get_tile, in_board, lemma_count_with_tile, lemma_with_tile,
    set_tile, tile_at, well_formed, width, with_tile, Board, Cell,
};
use crate::tile::{MoveResult, TileState};

verus! {

/// Step `i` of a walk leads to a neighbour.
pub open spec fn walk_step(walk: Seq<Cell>, i: int) -> bool {
    adjacent(walk[i], walk[i + 1])
}

/// A walk that stays on covered tiles with no mine around them.
pub open spec fn is_zero_walk(b: Board, walk: Seq<Cell>) -> bool {
    &&& walk.len() > 0
    &&& forall|i: int|
        0 <= i < walk.len() ==> in_board(b, #[trigger] walk[i]) && tile_at(b, walk[i]).spreads()
    &&& forall|i: int| 0 <= i < walk.len() - 1 ==> #[trigger] walk_step(walk, i)
}

/// `p` lies in the connected region of covered zero-count tiles that holds
/// `start`. The region is empty where `start` is no such tile.
pub open spec fn in_zero_region(b: Board, start: Cell, p: Cell) -> bool {
    exists|walk: Seq<Cell>| #[trigger]
        is_zero_walk(b, walk) && walk[0] == start && walk.last() == p
}

/// A reveal at `start` gets to `p`: `p` is `start` itself, or it touches the
/// zero-count region of `start`.
pub open spec fn cascade_reaches(b: Board, start: Cell, p: Cell) -> bool {
    in_board(b, p) && (p == start || exists|q: Cell| #[trigger]
        in_zero_region(b, start, q) && adjacent(q, p))
}

/// The board after a forced reveal at `start`: every tile that the reveal
/// gets to is opened, every other tile is as before.
pub open spec fn cascade(b: Board, start: Cell) -> Board {
    Seq::new(
        b.len(),
        |i: int|
            Seq::new(
                b[i].len(),
                |j: int|
                    if cascade_reaches(b, start, (i, j)) {
                        b[i][j].opened()
                    } else {
                        b[i][j]
                    },
            ),
    )
}

/// The board after a reveal at `p`.
pub open spec fn reveal_result(b: Board, p: Cell, force: bool) -> Board {
    if tile_at(b, p).resists_reveal(force) {
        b
    } else {
        cascade(b, p)
    }
}

/// The board after the defuser is toggled at `p`.
pub open spec fn defuse_result(b: Board, p: Cell) -> Board {
    with_tile(b, p, tile_at(b, p).defused())
}

/// The board after the suspicion mark is toggled at `p`.
pub open spec fn mark_result(b: Board, p: Cell) -> Board {
    with_tile(b, p, tile_at(b, p).marked())
}

/// The predicate "uncovering this tile carries on".
pub open spec fn spreading() -> spec_fn(TileState) -> bool {
    |t: TileState| t.spreads()
}

/// The position that a pair of indices names.
pub open spec fn cell_of(x: (usize, usize)) -> Cell {
    (x.0 as int, x.1 as int)
}

/// The position waits on the work list.
pub open spec fn on_stack(stack: Seq<(usize, usize)>, q: Cell) -> bool {
    exists|k: int| 0 <= k < stack.len() && #[trigger] cell_of(stack[k]) == q
}

/// What holds between two steps of the work list: `done` are the positions
/// already handled, `stack` those that wait.
pub closed spec fn frontier_inv(
    b0: Board,
    start: Cell,
    cur: Board,
    done: Set<Cell>,
    stack: Seq<(usize, usize)>,
) -> bool {
    &&& cur.len() == b0.len()
    &&& forall|i: int| 0 <= i < b0.len() ==> (#[trigger] cur[i]).len() == b0[i].len()
    &&& forall|q: Cell|
        in_board(b0, q) ==> #[trigger] tile_at(cur, q) == if done.contains(q) {
            tile_at(b0, q).opened()
        } else {
            tile_at(b0, q)
        }
    &&& forall|q: Cell| #[trigger] on_stack(stack, q) ==> cascade_reaches(b0, start, q)
    &&& forall|q: Cell| #[trigger] done.contains(q) ==> cascade_reaches(b0, start, q)
    &&& forall|p: Cell, q: Cell|
        done.contains(p) && tile_at(b0, p).spreads() && #[trigger] adjacent(p, q) && in_board(b0, q)
            ==> done.contains(q) || on_stack(stack, q)
    &&& done.contains(start) || on_stack(stack, start)
}

/// A position is on the list after a push where it was there before or
/// is the one pushed.
pub proof fn lemma_on_stack_push(stack: Seq<(usize, usize)>, x: (usize, usize))
    ensures
        forall|q: Cell| #[trigger]
            on_stack(stack.push(x), q) <==> on_stack(stack, q) || q == cell_of(x),
{
    let pushed = stack.push(x);
    assert forall|q: Cell| #[trigger] on_stack(pushed, q) <==> on_stack(stack, q) || q == cell_of(
        x,
    ) by {
        if on_stack(pushed, q) {
            let k = choose|k: int| 0 <= k < pushed.len() && #[trigger] cell_of(pushed[k]) == q;
            if k < stack.len() {
                assert(cell_of(stack[k]) == q);
            }
        }
        if on_stack(stack, q) {
            let k = choose|k: int| 0 <= k < stack.len() && #[trigger] cell_of(stack[k]) == q;
            assert(cell_of(pushed[k]) == q);
        }
        if q == cell_of(x) {
            assert(cell_of(pushed[stack.len() as int]) == q);
        }
    }
}

proof fn lemma_on_stack_pop(stack: Seq<(usize, usize)>)
    requires
        stack.len() > 0,
    ensures
        forall|q: Cell| #[trigger]
            on_stack(stack, q) <==> on_stack(stack.drop_last(), q) || q == cell_of(stack.last()),
{
    let rest = stack.drop_last();
    assert(stack =~= rest.push(stack.last()));
    lemma_on_stack_push(rest, stack.last());
}

/// Puts one position on the work list.
fn push_cell(stack: &mut Vec<(usize, usize)>, row: usize, column: usize)
    ensures
        forall|q: Cell| #[trigger]
            on_stack(final(stack)@, q) <==> on_stack(old(stack)@, q) || q == (
                row as int,
                column as int,
            ),
{
    proof {
        lemma_on_stack_push(stack@, (row, column));
    }
    stack.push((row, column));
}

/// Puts the neighbours of a position on the work list, as far as they lie
/// on a board of the given size.
fn push_neighbours(
    stack: &mut Vec<(usize, usize)>,
    row: usize,
    column: usize,
    height: usize,
    columns: usize,
)
    requires
        row < height,
        column < columns,
    ensures
        forall|q: Cell| #[trigger]
            on_stack(final(stack)@, q) <==> on_stack(old(stack)@, q) || (adjacent(
                (row as int, column as int),
                q,
            ) && 0 <= q.0 < height && 0 <= q.1 < columns),
{
    if row > 0 {
        if column > 0 {
            push_cell(stack, row - 1, column - 1);
        }
        push_cell(stack, row - 1, column);
        if column + 1 < columns {
            push_cell(stack, row - 1, column + 1);
        }
    }
    if column > 0 {
        push_cell(stack, row, column - 1);
    }
    if column + 1 < columns {
        push_cell(stack, row, column + 1);
    }
    if row + 1 < height {
        if column > 0 {
            push_cell(stack, row + 1, column - 1);
        }
        push_cell(stack, row + 1, column);
        if column + 1 < columns {
            push_cell(stack, row + 1, column + 1);
        }
    }
}

/// A covered zero-count tile that a reveal gets to belongs to the region.
proof fn lemma_reached_zero_joins_region(b: Board, start: Cell, p: Cell)
    requires
        cascade_reaches(b, start, p),
        tile_at(b, p).spreads(),
    ensures
        in_zero_region(b, start, p),
{
    if p == start {
        let walk = seq![p];
        assert(is_zero_walk(b, walk));
        assert(walk[0] == start && walk.last() == p);
    } else {
        let q = choose|q: Cell| #[trigger] in_zero_region(b, start, q) && adjacent(q, p);
        let walk = choose|walk: Seq<Cell>| #[trigger]
            is_zero_walk(b, walk) && walk[0] == start && walk.last() == q;
        lemma_zero_walk_extends(b, walk, p);
        let longer = walk.push(p);
        assert(longer[0] == start && longer.last() == p);
    }
}

/// A walk can go one step further, to a covered zero-count neighbour.
pub proof fn lemma_zero_walk_extends(b: Board, walk: Seq<Cell>, p: Cell)
    requires
        is_zero_walk(b, walk),
        adjacent(walk.last(), p),
        in_board(b, p),
        tile_at(b, p).spreads(),
    ensures
        is_zero_walk(b, walk.push(p)),
        walk.push(p)[0] == walk[0],
{
    let longer = walk.push(p);
    assert forall|i: int| 0 <= i < longer.len() implies in_board(b, #[trigger] longer[i])
        && tile_at(b, longer[i]).spreads() by {
        if i < walk.len() {
            assert(longer[i] == walk[i]);
        }
    }
    assert forall|i: int| 0 <= i < longer.len() - 1 implies #[trigger] walk_step(longer, i) by {
        if i < walk.len() - 1 {
            assert(walk_step(walk, i));
        }
    }
}

proof fn lemma_frontier_start(b0: Board, start: Cell, stack: Seq<(usize, usize)>)
    requires
        in_board(b0, start),
        stack.len() == 1,
        cell_of(stack[0]) == start,
    ensures
        frontier_inv(b0, start, b0, Set::<Cell>::empty(), stack),
{
    assert(on_stack(stack, start));
    assert forall|q: Cell| #[trigger] on_stack(stack, q) implies cascade_reaches(b0, start, q) by {
        let k = choose|k: int| 0 <= k < stack.len() && #[trigger] cell_of(stack[k]) == q;
        assert(q == start);
    }
}

proof fn lemma_frontier_step(
    b0: Board,
    start: Cell,
    cur: Board,
    done: Set<Cell>,
    before: Seq<(usize, usize)>,
    after: Seq<(usize, usize)>,
)
    requires
        frontier_inv(b0, start, cur, done, before),
        before.len() > 0,
        tile_at(cur, cell_of(before.last())).spreads() ==> forall|q: Cell| #[trigger]
            on_stack(after, q) <==> on_stack(before.drop_last(), q) || (adjacent(
                cell_of(before.last()),
                q,
            ) && in_board(b0, q)),
        !tile_at(cur, cell_of(before.last())).spreads() ==> after == before.drop_last(),
    ensures
        in_board(b0, cell_of(before.last())),
        frontier_inv(
            b0,
            start,
            with_tile(cur, cell_of(before.last()), tile_at(cur, cell_of(before.last())).opened()),
            done.insert(cell_of(before.last())),
            after,
        ),
{
    let p = cell_of(before.last());
    let tile = tile_at(cur, p);
    let next = with_tile(cur, p, tile.opened());
    let done2 = done.insert(p);
    lemma_on_stack_pop(before);
    assert(on_stack(before, p));
    assert(cascade_reaches(b0, start, p));
    assert(in_board(cur, p));
    lemma_with_tile(cur, p, tile.opened());
    assert(tile_at(cur, p) == if done.contains(p) {
        tile_at(b0, p).opened()
    } else {
        tile_at(b0, p)
    });
    assert(tile.opened() == tile_at(b0, p).opened());
    assert forall|q: Cell| in_board(b0, q) implies #[trigger] tile_at(next, q) == if done2.contains(
        q,
    ) {
        tile_at(b0, q).opened()
    } else {
        tile_at(b0, q)
    } by {
        assert(in_board(cur, q));
        if q != p {
            assert(tile_at(next, q) == tile_at(cur, q));
        }
    }
    if tile.spreads() {
        assert(tile == tile_at(b0, p));
        lemma_reached_zero_joins_region(b0, start, p);
        assert forall|q: Cell| #[trigger] on_stack(after, q) implies cascade_reaches(
            b0,
            start,
            q,
        ) by {
            if !on_stack(before.drop_last(), q) {
                assert(adjacent(p, q) && in_board(b0, q));
                assert(in_zero_region(b0, start, p));
            } else {
                assert(on_stack(before, q));
            }
        }
    } else {
        assert forall|q: Cell| #[trigger] on_stack(after, q) implies cascade_reaches(
            b0,
            start,
            q,
        ) by {
            assert(on_stack(before, q));
        }
    }
    assert forall|a: Cell, q: Cell|
        done2.contains(a) && tile_at(b0, a).spreads() && #[trigger] adjacent(a, q) && in_board(
            b0,
            q,
        ) implies done2.contains(q) || on_stack(after, q) by {
        if a == p && !done.contains(p) {
            assert(tile == tile_at(b0, p));
            assert(on_stack(after, q));
        } else {
            assert(done.contains(a));
            assert(done.contains(q) || on_stack(before, q));
            if on_stack(before, q) && q != p {
                assert(on_stack(before.drop_last(), q));
                assert(on_stack(after, q));
            }
        }
    }
    if !done.contains(start) {
        assert(on_stack(before, start));
        if start != p {
            assert(on_stack(before.drop_last(), start));
            assert(on_stack(after, start));
        }
    }
}

proof fn lemma_region_is_done(
    b0: Board,
    start: Cell,
    cur: Board,
    done: Set<Cell>,
    walk: Seq<Cell>,
    i: int,
)
    requires
        frontier_inv(b0, start, cur, done, Seq::<(usize, usize)>::empty()),
        is_zero_walk(b0, walk),
        walk[0] == start,
        0 <= i < walk.len(),
    ensures
        done.contains(walk[i]),
    decreases i,
{
    let empty = Seq::<(usize, usize)>::empty();
    assert(forall|q: Cell| !on_stack(empty, q));
    if i == 0 {
        assert(!on_stack(empty, start));
    } else {
        lemma_region_is_done(b0, start, cur, done, walk, i - 1);
        assert(walk_step(walk, i - 1));
        assert(adjacent(walk[i - 1], walk[i]));
        assert(in_board(b0, walk[i]));
        assert(tile_at(b0, walk[i - 1]).spreads());
        assert(!on_stack(empty, walk[i]));
    }
}

proof fn lemma_frontier_end(b0: Board, start: Cell, cur: Board, done: Set<Cell>)
    requires
        frontier_inv(b0, start, cur, done, Seq::<(usize, usize)>::empty()),
    ensures
        cur == cascade(b0, start),
{
    let empty = Seq::<(usize, usize)>::empty();
    let want = cascade(b0, start);
    assert(forall|q: Cell| !on_stack(empty, q));
    assert forall|q: Cell| cascade_reaches(b0, start, q) implies done.contains(q) by {
        if q == start {
            assert(!on_stack(empty, start));
        } else {
            let a = choose|a: Cell| #[trigger] in_zero_region(b0, start, a) && adjacent(a, q);
            let walk = choose|walk: Seq<Cell>| #[trigger]
                is_zero_walk(b0, walk) && walk[0] == start && walk.last() == a;
            lemma_region_is_done(b0, start, cur, done, walk, walk.len() - 1);
            assert(tile_at(b0, walk[walk.len() - 1]).spreads());
            assert(adjacent(a, q));
            assert(!on_stack(empty, q));
        }
    }
    assert(cur.len() == want.len());
    assert forall|i: int| 0 <= i < cur.len() implies cur[i] =~= want[i] by {
        assert(cur[i].len() == b0[i].len());
        assert forall|j: int| 0 <= j < cur[i].len() implies cur[i][j] == want[i][j] by {
            let q = (i, j);
            assert(in_board(b0, q));
            assert(tile_at(cur, q) == cur[i][j]);
            assert(done.contains(q) <==> cascade_reaches(b0, start, q));
        }
    }
    assert(cur =~= want);
}

/// A reveal keeps the shape of the board and the validity of its tiles.
pub proof fn lemma_cascade_well_formed(b: Board, start: Cell)
    requires
        well_formed(b),
    ensures
        well_formed(cascade(b, start)),
        cascade(b, start).len() == b.len(),
        width(cascade(b, start)) == width(b),
{
    let after = cascade(b, start);
    assert forall|i: int| 0 <= i < after.len() implies (#[trigger] after[i]).len() == width(
        after,
    ) by {
        assert(b[i].len() == width(b));
        assert(b[0].len() == width(b));
    }
    assert forall|i: int, j: int| 0 <= i < after.len() && 0 <= j < after[i].len() implies (
    #[trigger] after[i][j]).is_valid() by {
        assert(b[i][j].is_valid());
    }
}

/// Reveals the tile at (`row`, `column`).
///
/// A tile under a defuser is left alone unless `force` is set. Otherwise the
/// tile is opened, and where it turns out to have no mine around it, so is
/// all that touches its region of such tiles. The result tells what the
/// tile at (`row`, `column`) was.
pub fn reveal_tile(
    row: usize,
    column: usize,
    mine_map: &mut Vec<Vec<TileState>>,
    force: bool,
) -> (result: MoveResult)
    requires
        well_formed(board(old(mine_map))),
        in_board(board(old(mine_map)), (row as int, column as int)),
    ensures
        board(final(mine_map)) == reveal_result(
            board(old(mine_map)),
            (row as int, column as int),
            force,
        ),
        result == tile_at(board(old(mine_map)), (row as int, column as int)).reveal_outcome(force),
        well_formed(board(final(mine_map))),
{
    let ghost b0 = board(mine_map);
    let ghost start = (row as int, column as int);
    let first = get_tile(mine_map, row, column);
    assert(b0[row as int][column as int].is_valid());
    let result = match first {
        TileState::Mine => MoveResult::Explosion,
        TileState::Explosion => MoveResult::Explosion,
        TileState::Marked(n) => if !force || n < 0 {
            MoveResult::MakesNoSense
        } else {
            MoveResult::SafeMove
        },
        TileState::HiddenEmpty(_) => MoveResult::SafeMove,
        TileState::VisibleEmpty(_) => MoveResult::AlreadyRevealed,
        TileState::Question(n) => if n < 0 {
            MoveResult::Explosion
        } else {
            MoveResult::SafeMove
        },
    };
    if !force {
        if let TileState::Marked(_) = first {
            return result;
        }
    }
    let height = mine_map.len();
    let columns = mine_map[row].len();
    let mut stack: Vec<(usize, usize)> = Vec::new();
    stack.push((row, column));
    let ghost mut done: Set<Cell> = Set::empty();
    proof {
        lemma_frontier_start(b0, start, stack@);
        assert(b0[row as int].len() == width(b0));
    }
    while stack.len() > 0
        invariant
            well_formed(b0),
            in_board(b0, start),
            height == b0.len(),
            columns == width(b0),
            frontier_inv(b0, start, board(mine_map), done, stack@),
            board(mine_map).len() == b0.len(),
            forall|i: int| 0 <= i < b0.len() ==> (#[trigger] board(mine_map)[i]).len() == b0[i].len(),
        decreases count_in_board(board(mine_map), spreading()), stack.len(),
    {
        let ghost cur = board(mine_map);
        let ghost before = stack@;
        let top = stack.pop().unwrap();
        let ghost p = cell_of(top);
        proof {
            lemma_on_stack_pop(before);
            assert(on_stack(before, p));
            lemma_frontier_tile(b0, start, cur, done, before, p);
            assert(b0[p.0][p.1].is_valid());
            assert(b0[p.0].len() == width(b0));
        }
        let tile = get_tile(mine_map, top.0, top.1);
        let opened = tile.open();
        set_tile(mine_map, top.0, top.1, opened);
        if tile.is_spreading() {
            push_neighbours(&mut stack, top.0, top.1, height, columns);
        }
        proof {
            assert forall|q: Cell|
                (0 <= q.0 < height && 0 <= q.1 < columns) == in_board(b0, q) by {
                if 0 <= q.0 < height {
                    assert(b0[q.0].len() == width(b0));
                }
            }
            lemma_frontier_step(b0, start, cur, done, before, stack@);
            lemma_with_tile(cur, p, opened);
            lemma_count_with_tile(cur, p, opened, spreading());
            done = done.insert(p);
        }
    }
    proof {
        assert(stack@ =~= Seq::<(usize, usize)>::empty());
        lemma_frontier_end(b0, start, board(mine_map), done);
        lemma_cascade_well_formed(b0, start);
    }
    result
}

proof fn lemma_frontier_tile(
    b0: Board,
    start: Cell,
    cur: Board,
    done: Set<Cell>,
    stack: Seq<(usize, usize)>,
    p: Cell,
)
    requires
        frontier_inv(b0, start, cur, done, stack),
        on_stack(stack, p),
    ensures
        in_board(b0, p),
        in_board(cur, p),
        tile_at(cur, p) == tile_at(b0, p) || tile_at(cur, p) == tile_at(b0, p).opened(),
{
    assert(cascade_reaches(b0, start, p));
    assert(cur[p.0].len() == b0[p.0].len());
    assert(tile_at(cur, p) == if done.contains(p) {
        tile_at(b0, p).opened()
    } else {
        tile_at(b0, p)
    });
}

/// Toggles the defuser on the tile at (`row`, `column`).
pub fn defuse_tile(row: usize, column: usize, mine_map: &mut Vec<Vec<TileState>>) -> (result:
    MoveResult)
    requires
        well_formed(board(old(mine_map))),
        in_board(board(old(mine_map)), (row as int, column as int)),
    ensures
        board(final(mine_map)) == defuse_result(board(old(mine_map)), (row as int, column as int)),
        result == tile_at(board(old(mine_map)), (row as int, column as int)).toggle_outcome(),
        well_formed(board(final(mine_map))),
{
    let ghost b0 = board(mine_map);
    let tile = get_tile(mine_map, row, column);
    assert(b0[row as int][column as int].is_valid());
    let next = tile.toggle_defuser();
    set_tile(mine_map, row, column, next);
    proof {
        lemma_with_tile(b0, (row as int, column as int), next);
    }
    match tile {
        TileState::VisibleEmpty(_) => MoveResult::AlreadyRevealed,
        _ => MoveResult::SafeMove,
    }
}

/// Toggles the suspicion mark on the tile at (`row`, `column`).
pub fn mark_tile(row: usize, column: usize, mine_map: &mut Vec<Vec<TileState>>) -> (result:
    MoveResult)
    requires
        well_formed(board(old(mine_map))),
        in_board(board(old(mine_map)), (row as int, column as int)),
    ensures
        board(final(mine_map)) == mark_result(board(old(mine_map)), (row as int, column as int)),
        result == tile_at(board(old(mine_map)), (row as int, column as int)).toggle_outcome(),
        well_formed(board(final(mine_map))),
{
    let ghost b0 = board(mine_map);
    let tile = get_tile(mine_map, row, column);
    assert(b0[row as int][column as int].is_valid());
    let next = tile.toggle_mark();
    set_tile(mine_map, row, column, next);
    proof {
        lemma_with_tile(b0, (row as int, column as int), next);
    }
    match tile {
        TileState::VisibleEmpty(_) => MoveResult::AlreadyRevealed,
        _ => MoveResult::SafeMove,
    }
}

} // verus!
