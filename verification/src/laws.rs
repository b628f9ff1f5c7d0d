//! What holds of the actions taken together.

use vstd::prelude::*;
use crate::engine::{
    cascade, cascade_reaches, defuse_result, in_zero_region, is_zero_walk, lemma_zero_walk_extends,
    mark_result, reveal_result,
};
use crate::grid::{
    adjacent, in_board, is_rectangular, lemma_count_in_board_all, lemma_with_tile, tile_at,
    tile_total, width, Board, Cell,
};
use crate::map_generator::{is_fresh, lemma_mines_around_bound, mine_at, mines_around};
use crate::progress::{
    lemma_no_covered_safe_tile_left, remaining_count, visible, visible_count,
};
use crate::tile::{lemma_defuse_twice_restores, lemma_mark_twice_restores, TileState};

verus! {

/// No covered tile with a count of zero touches a mine.
pub open spec fn zero_tiles_clear(b: Board) -> bool {
    forall|p: Cell, q: Cell|
        in_board(b, p) && in_board(b, q) && tile_at(b, p).spreads() && #[trigger] adjacent(p, q)
            ==> !tile_at(b, q).holds_mine()
}

/// No tile of the board is or hides a mine.
pub open spec fn has_no_mine(b: Board) -> bool {
    forall|i: int, j: int|
        0 <= i < b.len() && 0 <= j < b[i].len() ==> !(#[trigger] b[i][j]).holds_mine()
}

/// On a board as the generator leaves it, a tile with a count of zero has
/// no mine next to it.
pub proof fn lemma_fresh_board_zero_tiles_clear(b: Board)
    requires
        is_fresh(b),
    ensures
        zero_tiles_clear(b),
{
    assert forall|p: Cell, q: Cell|
        in_board(b, p) && in_board(b, q) && tile_at(b, p).spreads() && #[trigger] adjacent(
            p,
            q,
        ) implies !tile_at(b, q).holds_mine() by {
        assert(b[p.0][p.1] == crate::map_generator::counted_tile(b, p));
        assert(b[q.0][q.1] == crate::map_generator::counted_tile(b, q));
        lemma_mines_around_bound(b, p);
        assert(mines_around(b, p) == 0);
        assert(mine_at(b, q) == 0) by {
            assert(q == (p.0 - 1, p.1 - 1) || q == (p.0 - 1, p.1) || q == (p.0 - 1, p.1 + 1) || q
                == (p.0, p.1 - 1) || q == (p.0, p.1 + 1) || q == (p.0 + 1, p.1 - 1) || q == (
                p.0 + 1,
                p.1,
            ) || q == (p.0 + 1, p.1 + 1));
        }
    }
}

/// A reveal never touches a mine other than the one it is aimed at: on a
/// board whose zero-count tiles have no mine next to them, every tile that
/// is or hides a mine, but for the tile revealed, is afterwards as before.
pub proof fn lemma_reveal_spares_mines(b: Board, start: Cell, force: bool)
    requires
        zero_tiles_clear(b),
        in_board(b, start),
    ensures
        forall|q: Cell|
            in_board(b, q) && q != start && tile_at(b, q).holds_mine() ==> #[trigger] tile_at(
                reveal_result(b, start, force),
                q,
            ) == tile_at(b, q),
{
    let after = reveal_result(b, start, force);
    assert forall|q: Cell|
        in_board(b, q) && q != start && tile_at(b, q).holds_mine() implies #[trigger] tile_at(
        after,
        q,
    ) == tile_at(b, q) by {
        if cascade_reaches(b, start, q) {
            let a = choose|a: Cell| #[trigger] in_zero_region(b, start, a) && adjacent(a, q);
            let walk = choose|walk: Seq<Cell>| #[trigger]
                is_zero_walk(b, walk) && walk[0] == start && walk.last() == a;
            assert(in_board(b, walk[walk.len() - 1]));
            assert(adjacent(a, q));
        }
    }
}

/// A reveal uncovers exactly the tile it is aimed at, the connected region
/// of covered zero-count tiles around it, and the tiles that border that
/// region; all other tiles stay as they are.
pub proof fn lemma_reveal_opens_region_and_border(b: Board, start: Cell, q: Cell)
    requires
        in_board(b, start),
        in_board(b, q),
        !tile_at(b, start).resists_reveal(true),
    ensures
        tile_at(reveal_result(b, start, true), q) == if q == start || exists|a: Cell| #[trigger]
            in_zero_region(b, start, a) && adjacent(a, q) {
            tile_at(b, q).opened()
        } else {
            tile_at(b, q)
        },
        in_zero_region(b, start, q) ==> tile_at(reveal_result(b, start, true), q)
            == TileState::VisibleEmpty(0),
{
    if in_zero_region(b, start, q) {
        let walk = choose|walk: Seq<Cell>| #[trigger]
            is_zero_walk(b, walk) && walk[0] == start && walk.last() == q;
        assert(tile_at(b, walk[walk.len() - 1]).spreads());
        if walk.len() > 1 {
            let shorter = walk.drop_last();
            assert(crate::engine::walk_step(walk, walk.len() - 2));
            assert forall|i: int| 0 <= i < shorter.len() implies in_board(b, #[trigger] shorter[i])
                && tile_at(b, shorter[i]).spreads() by {
                assert(shorter[i] == walk[i]);
            }
            assert forall|i: int| 0 <= i < shorter.len() - 1 implies #[trigger]
                crate::engine::walk_step(shorter, i) by {
                assert(crate::engine::walk_step(walk, i));
            }
            assert(is_zero_walk(b, shorter) && shorter[0] == start && shorter.last() == walk[walk.len()
                - 2]);
            assert(in_zero_region(b, start, walk[walk.len() - 2]));
            assert(adjacent(walk[walk.len() - 2], q));
        } else {
            assert(q == start);
        }
    }
}

/// The three actions keep a board free of zero-count tiles next to mines.
pub proof fn lemma_actions_keep_zero_tiles_clear(b: Board, p: Cell, force: bool)
    requires
        zero_tiles_clear(b),
        in_board(b, p),
        tile_at(b, p).is_valid(),
    ensures
        zero_tiles_clear(reveal_result(b, p, force)),
        zero_tiles_clear(defuse_result(b, p)),
        zero_tiles_clear(mark_result(b, p)),
{
    let revealed = reveal_result(b, p, force);
    assert forall|a: Cell, q: Cell|
        in_board(revealed, a) && in_board(revealed, q) && tile_at(revealed, a).spreads()
            && #[trigger] adjacent(a, q) implies !tile_at(revealed, q).holds_mine() by {
        assert(in_board(b, a) && in_board(b, q));
        assert(tile_at(revealed, a) == tile_at(b, a));
        assert(adjacent(a, q));
    }
    let defused = defuse_result(b, p);
    lemma_with_tile(b, p, tile_at(b, p).defused());
    assert forall|a: Cell, q: Cell|
        in_board(defused, a) && in_board(defused, q) && tile_at(defused, a).spreads()
            && #[trigger] adjacent(a, q) implies !tile_at(defused, q).holds_mine() by {
        assert(in_board(b, a) && in_board(b, q));
        assert(tile_at(b, a).spreads());
        assert(adjacent(a, q));
        assert(tile_at(defused, q).holds_mine() == tile_at(b, q).holds_mine());
    }
    let marked = mark_result(b, p);
    lemma_with_tile(b, p, tile_at(b, p).marked());
    assert forall|a: Cell, q: Cell|
        in_board(marked, a) && in_board(marked, q) && tile_at(marked, a).spreads()
            && #[trigger] adjacent(a, q) implies !tile_at(marked, q).holds_mine() by {
        assert(in_board(b, a) && in_board(b, q));
        assert(tile_at(b, a).spreads());
        assert(adjacent(a, q));
        assert(tile_at(marked, q).holds_mine() == tile_at(b, q).holds_mine());
    }
}

/// An uncovered tile stays as it is, whatever is done to the board.
pub proof fn lemma_visible_tiles_stay(b: Board, p: Cell, q: Cell, force: bool)
    requires
        in_board(b, p),
        in_board(b, q),
        tile_at(b, q) is VisibleEmpty,
    ensures
        tile_at(reveal_result(b, p, force), q) == tile_at(b, q),
        tile_at(defuse_result(b, p), q) == tile_at(b, q),
        tile_at(mark_result(b, p), q) == tile_at(b, q),
{
    lemma_with_tile(b, p, tile_at(b, p).defused());
    lemma_with_tile(b, p, tile_at(b, p).marked());
}

/// Toggling the defuser twice on one tile gives the board back, unless the
/// tile carried a suspicion mark.
pub proof fn lemma_defuse_tile_twice(b: Board, p: Cell)
    requires
        in_board(b, p),
        tile_at(b, p).is_valid(),
        !(tile_at(b, p) is Question),
    ensures
        defuse_result(defuse_result(b, p), p) == b,
{
    lemma_defuse_twice_restores(tile_at(b, p));
    let once = defuse_result(b, p);
    let twice = defuse_result(once, p);
    assert(twice.len() == b.len());
    assert forall|i: int| 0 <= i < b.len() implies twice[i] =~= b[i] by {}
    assert(twice =~= b);
}

/// Toggling the suspicion mark twice on one tile gives the board back, for
/// a tile that is neither uncovered nor under a defuser.
pub proof fn lemma_mark_tile_twice(b: Board, p: Cell)
    requires
        in_board(b, p),
        tile_at(b, p).is_valid(),
        !(tile_at(b, p) is VisibleEmpty),
        !(tile_at(b, p) is Marked),
    ensures
        mark_result(mark_result(b, p), p) == b,
{
    lemma_mark_twice_restores(tile_at(b, p));
    let once = mark_result(b, p);
    let twice = mark_result(once, p);
    assert(twice.len() == b.len());
    assert forall|i: int| 0 <= i < b.len() implies twice[i] =~= b[i] by {}
    assert(twice =~= b);
}

/// How far two positions lie apart, in steps along rows plus steps along
/// columns.
pub open spec fn distance(p: Cell, q: Cell) -> int {
    (if p.0 < q.0 {
        q.0 - p.0
    } else {
        p.0 - q.0
    }) + (if p.1 < q.1 {
        q.1 - p.1
    } else {
        p.1 - q.1
    })
}

/// The neighbour of `p` that lies one step nearer to `target`.
pub open spec fn step_towards(p: Cell, target: Cell) -> Cell {
    (
        if p.0 < target.0 {
            p.0 + 1
        } else if p.0 > target.0 {
            p.0 - 1
        } else {
            p.0
        },
        if p.1 < target.1 {
            p.1 + 1
        } else if p.1 > target.1 {
            p.1 - 1
        } else {
            p.1
        },
    )
}

/// On a rectangular board of covered zero-count tiles only, the region of
/// any tile is the whole board.
pub proof fn lemma_blank_board_is_one_region(b: Board, start: Cell, p: Cell)
    requires
        is_rectangular(b),
        forall|i: int, j: int|
            0 <= i < b.len() && 0 <= j < b[i].len() ==> (#[trigger] b[i][j]).spreads(),
        in_board(b, start),
        in_board(b, p),
    ensures
        in_zero_region(b, start, p),
    decreases distance(p, start),
{
    assert(b[start.0][start.1].spreads());
    assert(b[p.0][p.1].spreads());
    if p == start {
        let walk = seq![start];
        assert(is_zero_walk(b, walk));
        assert(walk[0] == start && walk.last() == p);
    } else {
        let q = step_towards(p, start);
        assert(b[q.0].len() == width(b));
        assert(b[p.0].len() == width(b));
        assert(b[start.0].len() == width(b));
        lemma_blank_board_is_one_region(b, start, q);
        let walk = choose|walk: Seq<Cell>| #[trigger]
            is_zero_walk(b, walk) && walk[0] == start && walk.last() == q;
        lemma_zero_walk_extends(b, walk, p);
        let longer = walk.push(p);
        assert(longer[0] == start && longer.last() == p);
    }
}

/// A board that was generated without a single mine is cleared by one
/// reveal, wherever it is made: no safe tile stays covered and every tile
/// is uncovered.
pub proof fn lemma_mine_free_board_cleared_by_one_reveal(b: Board, start: Cell, force: bool)
    requires
        is_rectangular(b),
        is_fresh(b),
        has_no_mine(b),
        in_board(b, start),
    ensures
        remaining_count(reveal_result(b, start, force)) == 0,
        visible_count(reveal_result(b, start, force)) == tile_total(b),
{
    assert forall|i: int, j: int| 0 <= i < b.len() && 0 <= j < b[i].len() implies #[trigger]
        b[i][j] == TileState::HiddenEmpty(0) by {
        assert(!b[i][j].holds_mine());
        assert(b[i][j] == crate::map_generator::counted_tile(b, (i, j)));
        assert forall|q: Cell| mine_at(b, q) == 0 by {
            if in_board(b, q) {
                assert(!b[q.0][q.1].holds_mine());
            }
        }
    }
    assert(b[start.0][start.1] == TileState::HiddenEmpty(0));
    let after = cascade(b, start);
    assert(after == reveal_result(b, start, force));
    assert forall|i: int, j: int| 0 <= i < after.len() && 0 <= j < after[i].len() implies #[trigger]
        after[i][j] == TileState::VisibleEmpty(0) by {
        let p = (i, j);
        assert(b[i][j] == TileState::HiddenEmpty(0));
        if p != start {
            let q = step_towards(p, start);
            assert(b[q.0].len() == width(b));
            assert(b[p.0].len() == width(b));
            assert(b[start.0].len() == width(b));
            lemma_blank_board_is_one_region(b, start, q);
            assert(adjacent(q, p));
        }
        assert(cascade_reaches(b, start, p));
    }
    lemma_no_covered_safe_tile_left(after);
    lemma_count_in_board_all(after, visible());
    lemma_same_shape_same_total(after, b);
}

proof fn lemma_same_shape_same_total(a: Board, b: Board)
    requires
        a.len() == b.len(),
        forall|i: int| 0 <= i < a.len() ==> (#[trigger] a[i]).len() == b[i].len(),
    ensures
        tile_total(a) == tile_total(b),
    decreases a.len(),
{
    if a.len() > 0 {
        let fa = a.drop_last();
        let fb = b.drop_last();
        assert forall|i: int| 0 <= i < fa.len() implies (#[trigger] fa[i]).len() == fb[i].len() by {
            assert(fa[i] == a[i]);
            assert(fb[i] == b[i]);
        }
        lemma_same_shape_same_total(fa, fb);
        assert(a.last() == a[a.len() - 1]);
        assert(a[a.len() - 1].len() == b[a.len() - 1].len());
    }
}

} // verus!
