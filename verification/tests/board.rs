use minesweeper::{
    add_one, apply_hint, apply_move, best_hint, count_defused, count_neigbour_mines,
    decide_after_move, defuse_tile, fill_neighbours, generate_map, get_progress, hint_candidates,
    mark_tile, process_input, reveal_tile, round_is_won, round_numbers, show_hint, tile_count,
    tile_from_roll, AfterMove, Feedback, MoveResult, MoveType, RoundEnd, RoundNumbers, TileState,
    Turn,
};

fn parse_map(input: &str) -> Vec<Vec<TileState>> {
    let mut mine_map: Vec<Vec<TileState>> = Vec::new();
    for input_line in input.lines() {
        let mut mine_line: Vec<TileState> = Vec::new();
        for token in input_line.split('|') {
            if token.trim() == "*" {
                mine_line.push(TileState::Mine);
            } else {
                mine_line.push(TileState::HiddenEmpty(0));
            }
        }
        mine_map.push(mine_line);
    }

    mine_map
}

/// The reveal written as a recursion from tile to tile.
fn reveal_by_recursion(
    row: usize,
    column: usize,
    map: &mut Vec<Vec<TileState>>,
    force: bool,
) -> MoveResult {
    map[row][column] = match map[row][column] {
        TileState::Mine => TileState::Explosion,
        TileState::Explosion => TileState::Explosion,
        TileState::Marked(num) => {
            if !force || num < 0 {
                return MoveResult::MakesNoSense;
            } else {
                TileState::VisibleEmpty(num as u8)
            }
        }
        TileState::HiddenEmpty(x) => TileState::VisibleEmpty(x),
        TileState::VisibleEmpty(_) => return MoveResult::AlreadyRevealed,
        TileState::Question(x) => {
            if x < 0 {
                return MoveResult::Explosion;
            } else {
                TileState::VisibleEmpty(x as u8)
            }
        }
    };
    if map[row][column] == TileState::Explosion {
        return MoveResult::Explosion;
    }
    if map[row][column] == TileState::VisibleEmpty(0) {
        let height = map.len();
        let width = map[0].len();
        for r in row.saturating_sub(1)..=(row + 1).min(height - 1) {
            for c in column.saturating_sub(1)..=(column + 1).min(width - 1) {
                if r != row || c != column {
                    reveal_by_recursion(r, c, map, true);
                }
            }
        }
    }
    MoveResult::SafeMove
}

/// A board laid out by a simple rule, so that the same one comes out each
/// time.
fn patterned_map(width: usize, height: usize, seed: u32) -> Vec<Vec<TileState>> {
    let mut state = seed;
    let mut map = Vec::new();
    for _ in 0..height {
        let mut line = Vec::new();
        for _ in 0..width {
            state = state.wrapping_mul(1664525).wrapping_add(1013904223);
            if (state >> 16) % 100 < 15 {
                line.push(TileState::Mine);
            } else {
                line.push(TileState::HiddenEmpty(0));
            }
        }
        map.push(line);
    }
    fill_neighbours(&mut map);
    map
}

#[test]
fn double_defuse() {
    let row_1 = vec![TileState::HiddenEmpty(0)];
    let mut test_map = vec![row_1];

    defuse_tile(0, 0, &mut test_map);
    defuse_tile(0, 0, &mut test_map);

    assert_eq!(test_map[0][0], TileState::HiddenEmpty(0));
}

#[test]
fn generate_small_map() {
    assert_eq!(0, generate_map(0, 0).len());
    assert_eq!(1, generate_map(0, 1).len());
    assert_eq!(0, generate_map(0, 1)[0].len());
    assert_eq!(2, generate_map(2, 1)[0].len());
}

#[test]
fn fill_neighbours_test() {
    let row_1 = vec![TileState::HiddenEmpty(0), TileState::Mine];
    let row_2 = vec![TileState::HiddenEmpty(0), TileState::HiddenEmpty(0)];
    let mut test_map = vec![row_1, row_2];

    assert_eq!(TileState::HiddenEmpty(0), test_map[0][0]);

    fill_neighbours(&mut test_map);

    assert_eq!(TileState::HiddenEmpty(1), test_map[0][0]);
    assert_eq!(TileState::HiddenEmpty(1), test_map[1][0]);
    assert_eq!(TileState::HiddenEmpty(1), test_map[1][1]);
}

#[test]
fn bug_1_fill_neighbours_test() {
    let row_1 = vec![TileState::HiddenEmpty(0), TileState::Mine, TileState::HiddenEmpty(0)];
    let row_2 = vec![TileState::Mine, TileState::HiddenEmpty(0), TileState::HiddenEmpty(0)];
    let row_3 = vec![TileState::Mine, TileState::Mine, TileState::Mine];
    let mut test_map = vec![row_1, row_2, row_3];

    assert_eq!(test_map.len(), 3);

    fill_neighbours(&mut test_map);

    assert_eq!(test_map[1][1], TileState::HiddenEmpty(5));
    // ----------
    let mut mine_map = parse_map(
" |  |  |  |  |  |  | *|  |  
*|  | *|  |  |  | *| *|  |  
 |  |  |  |  |  |  |  | *|  
 |  |  |  | *|  |  |  |  |  
 | *|  | *|  |  |  | *|  |  
 |  |  | *| *| *|  |  | *|  
 |  | *|  | *| *|  |  |  | *
*|  |  |  |  | *|  | *|  |  ");
    fill_neighbours(&mut mine_map);

    assert_eq!(mine_map[4][4], TileState::HiddenEmpty(5));

    reveal_tile(4, 4, &mut mine_map, false);

    assert_eq!(mine_map[4][4], TileState::VisibleEmpty(5));
}

#[test]
fn counts_lie_between_zero_and_eight_and_mines_stay() {
    let mut all_mines = vec![vec![TileState::Mine; 3]; 3];
    all_mines[1][1] = TileState::HiddenEmpty(0);
    fill_neighbours(&mut all_mines);
    assert_eq!(TileState::HiddenEmpty(8), all_mines[1][1]);
    assert_eq!(TileState::Mine, all_mines[0][0]);
    assert_eq!(TileState::Mine, all_mines[2][2]);

    let mut no_mines = vec![vec![TileState::HiddenEmpty(0); 4]; 2];
    fill_neighbours(&mut no_mines);
    assert_eq!(vec![vec![TileState::HiddenEmpty(0); 4]; 2], no_mines);

    let mut empty: Vec<Vec<TileState>> = Vec::new();
    fill_neighbours(&mut empty);
    assert!(empty.is_empty());

    let map = patterned_map(12, 9, 7);
    for row in 0..9 {
        for column in 0..12 {
            match map[row][column] {
                TileState::Mine => {}
                TileState::HiddenEmpty(n) => assert!(n <= 8),
                other => panic!("{:?}", other),
            }
        }
    }
}

#[test]
fn corner_and_edge_counts_do_not_wrap_around() {
    let mut map = vec![
        vec![TileState::Mine, TileState::HiddenEmpty(0), TileState::HiddenEmpty(0)],
        vec![TileState::HiddenEmpty(0), TileState::HiddenEmpty(0), TileState::HiddenEmpty(0)],
        vec![TileState::HiddenEmpty(0), TileState::HiddenEmpty(0), TileState::Mine],
    ];
    assert_eq!(TileState::HiddenEmpty(2), count_neigbour_mines(1, 1, &mut map, 3, 3));
    assert_eq!(TileState::HiddenEmpty(0), count_neigbour_mines(0, 2, &mut map, 3, 3));
    assert_eq!(TileState::HiddenEmpty(0), count_neigbour_mines(2, 0, &mut map, 3, 3));
    assert_eq!(TileState::HiddenEmpty(1), count_neigbour_mines(0, 1, &mut map, 3, 3));
    assert_eq!(TileState::HiddenEmpty(0), count_neigbour_mines(0, 0, &mut map, 3, 3));
    assert_eq!(TileState::Mine, map[0][0]);
}

#[test]
fn add_one_counts_up() {
    assert_eq!(TileState::HiddenEmpty(1), add_one(&TileState::Mine));
    assert_eq!(TileState::HiddenEmpty(1), add_one(&TileState::HiddenEmpty(0)));
    assert_eq!(TileState::HiddenEmpty(8), add_one(&TileState::HiddenEmpty(7)));
}

#[test]
fn one_roll_in_five_is_a_mine() {
    assert_eq!(TileState::Mine, tile_from_roll(1));
    assert_eq!(TileState::Mine, tile_from_roll(20));
    assert_eq!(TileState::HiddenEmpty(0), tile_from_roll(21));
    assert_eq!(TileState::HiddenEmpty(0), tile_from_roll(100));
}

#[test]
fn generated_maps_hold_mines_and_their_counts() {
    let map = generate_map(40, 40);
    assert_eq!(40, map.len());
    let mut mines = 0;
    let mut safe = 0;
    let mut copy = map.clone();
    for row in 0..40 {
        assert_eq!(40, map[row].len());
        for column in 0..40 {
            match map[row][column] {
                TileState::Mine => mines += 1,
                TileState::HiddenEmpty(n) => {
                    safe += 1;
                    assert_eq!(
                        TileState::HiddenEmpty(n),
                        count_neigbour_mines(row, column, &mut copy, 40, 40)
                    );
                }
                other => panic!("{:?}", other),
            }
        }
    }
    assert!(mines > 0);
    assert!(safe > 0);
}

#[test]
fn a_single_mine_goes_off_at_once() {
    for force in [false, true] {
        let mut map = vec![vec![TileState::Mine]];
        assert_eq!(MoveResult::Explosion, reveal_tile(0, 0, &mut map, force));
        assert_eq!(TileState::Explosion, map[0][0]);
        assert_eq!(MoveResult::Explosion, reveal_tile(0, 0, &mut map, force));
    }
    let mut map = vec![vec![TileState::Mine]];
    assert_eq!(
        Turn { alive: false, feedback: Feedback::Nothing },
        process_input("A1", &mut map)
    );
}

#[test]
fn a_single_safe_tile_wins_the_round() {
    let mut map = vec![vec![TileState::HiddenEmpty(0)]];
    assert_eq!((0, 1), get_progress(&map));
    assert_eq!(MoveResult::SafeMove, reveal_tile(0, 0, &mut map, false));
    assert_eq!(TileState::VisibleEmpty(0), map[0][0]);
    let (visible, remaining) = get_progress(&map);
    assert_eq!((1, 0), (visible, remaining));
    assert!(round_is_won(visible, remaining));
    assert_eq!(MoveResult::AlreadyRevealed, reveal_tile(0, 0, &mut map, false));
}

#[test]
fn reveal_follows_the_table() {
    let cases = [
        (TileState::Marked(3), false, MoveResult::MakesNoSense, TileState::Marked(3)),
        (TileState::Marked(-1), false, MoveResult::MakesNoSense, TileState::Marked(-1)),
        (TileState::Marked(-1), true, MoveResult::MakesNoSense, TileState::Marked(-1)),
        (TileState::Marked(3), true, MoveResult::SafeMove, TileState::VisibleEmpty(3)),
        (TileState::HiddenEmpty(2), false, MoveResult::SafeMove, TileState::VisibleEmpty(2)),
        (TileState::VisibleEmpty(2), false, MoveResult::AlreadyRevealed, TileState::VisibleEmpty(2)),
        (TileState::Question(-1), false, MoveResult::Explosion, TileState::Question(-1)),
        (TileState::Question(4), false, MoveResult::SafeMove, TileState::VisibleEmpty(4)),
        (TileState::Mine, false, MoveResult::Explosion, TileState::Explosion),
    ];
    for (tile, force, result, after) in cases {
        let mut map = vec![vec![tile, TileState::HiddenEmpty(1)]];
        assert_eq!(result, reveal_tile(0, 0, &mut map, force));
        assert_eq!(after, map[0][0]);
        assert_eq!(TileState::HiddenEmpty(1), map[0][1]);
    }
}

#[test]
fn defuse_and_mark_follow_the_table() {
    let defused = [
        (TileState::Mine, TileState::Marked(-1), MoveResult::SafeMove),
        (TileState::Marked(-1), TileState::Mine, MoveResult::SafeMove),
        (TileState::Marked(2), TileState::HiddenEmpty(2), MoveResult::SafeMove),
        (TileState::HiddenEmpty(2), TileState::Marked(2), MoveResult::SafeMove),
        (TileState::VisibleEmpty(2), TileState::VisibleEmpty(2), MoveResult::AlreadyRevealed),
        (TileState::Question(2), TileState::Marked(2), MoveResult::SafeMove),
        (TileState::Question(-1), TileState::Marked(-1), MoveResult::SafeMove),
    ];
    for (before, after, result) in defused {
        let mut map = vec![vec![before]];
        assert_eq!(result, defuse_tile(0, 0, &mut map));
        assert_eq!(after, map[0][0]);
    }
    let marked = [
        (TileState::Mine, TileState::Question(-1), MoveResult::SafeMove),
        (TileState::Marked(2), TileState::Question(2), MoveResult::SafeMove),
        (TileState::Marked(-1), TileState::Question(-1), MoveResult::SafeMove),
        (TileState::HiddenEmpty(2), TileState::Question(2), MoveResult::SafeMove),
        (TileState::VisibleEmpty(2), TileState::VisibleEmpty(2), MoveResult::AlreadyRevealed),
        (TileState::Question(2), TileState::HiddenEmpty(2), MoveResult::SafeMove),
        (TileState::Question(-1), TileState::Mine, MoveResult::SafeMove),
    ];
    for (before, after, result) in marked {
        let mut map = vec![vec![before]];
        assert_eq!(result, mark_tile(0, 0, &mut map));
        assert_eq!(after, map[0][0]);
    }
}

#[test]
fn two_toggles_give_the_tile_back() {
    for tile in [
        TileState::Mine,
        TileState::HiddenEmpty(0),
        TileState::HiddenEmpty(8),
        TileState::Marked(-1),
        TileState::Marked(0),
        TileState::Marked(5),
        TileState::VisibleEmpty(3),
    ] {
        let mut map = vec![vec![tile]];
        defuse_tile(0, 0, &mut map);
        defuse_tile(0, 0, &mut map);
        assert_eq!(tile, map[0][0]);
    }
    for tile in [
        TileState::Mine,
        TileState::HiddenEmpty(0),
        TileState::HiddenEmpty(8),
        TileState::Question(-1),
        TileState::Question(0),
        TileState::Question(5),
    ] {
        let mut map = vec![vec![tile]];
        mark_tile(0, 0, &mut map);
        mark_tile(0, 0, &mut map);
        assert_eq!(tile, map[0][0]);
    }
}

#[test]
fn a_reveal_opens_the_zero_region_and_its_border() {
    let mut map = parse_map(
" |  |  |  | *
 |  |  |  |  
 |  |  |  |  
*|  |  |  |  ");
    fill_neighbours(&mut map);
    assert_eq!(MoveResult::SafeMove, reveal_tile(0, 0, &mut map, false));
    let v = TileState::VisibleEmpty;
    assert_eq!(
        vec![
            vec![v(0), v(0), v(0), v(1), TileState::Mine],
            vec![v(0), v(0), v(0), v(1), v(1)],
            vec![v(1), v(1), v(0), v(0), v(0)],
            vec![TileState::Mine, v(1), v(0), v(0), v(0)],
        ],
        map
    );
}

#[test]
fn a_reveal_goes_on_across_corners() {
    let h = TileState::HiddenEmpty;
    let v = TileState::VisibleEmpty;
    let mut map = vec![vec![h(0), h(3), h(2)], vec![h(3), h(0), h(2)], vec![h(4), h(4), h(4)]];
    assert_eq!(MoveResult::SafeMove, reveal_tile(0, 0, &mut map, false));
    assert_eq!(
        vec![vec![v(0), v(3), v(2)], vec![v(3), v(0), v(2)], vec![v(4), v(4), v(4)]],
        map
    );
    let mut map = vec![vec![h(0), h(1), h(0)]];
    assert_eq!(MoveResult::SafeMove, reveal_tile(0, 0, &mut map, false));
    assert_eq!(vec![vec![v(0), v(1), h(0)]], map);
}

#[test]
fn a_mine_beside_a_tile_with_a_wrong_count_goes_off() {
    let mut map = vec![vec![TileState::HiddenEmpty(0), TileState::Mine]];
    assert_eq!(MoveResult::SafeMove, reveal_tile(0, 0, &mut map, false));
    assert_eq!(vec![vec![TileState::VisibleEmpty(0), TileState::Explosion]], map);
}

#[test]
fn a_reveal_stops_at_counted_tiles() {
    let mut map = parse_map(
" |  | *|  |  
 |  | *|  |  
 |  | *|  |  ");
    fill_neighbours(&mut map);
    assert_eq!(MoveResult::SafeMove, reveal_tile(1, 0, &mut map, false));
    let v = TileState::VisibleEmpty;
    let h = TileState::HiddenEmpty;
    assert_eq!(
        vec![
            vec![v(0), v(2), TileState::Mine, h(2), h(0)],
            vec![v(0), v(3), TileState::Mine, h(3), h(0)],
            vec![v(0), v(2), TileState::Mine, h(2), h(0)],
        ],
        map
    );
    assert_eq!((6, 6), get_progress(&map));
    assert_eq!(MoveResult::SafeMove, reveal_tile(0, 3, &mut map, false));
    assert_eq!(v(2), map[0][3]);
    assert_eq!(h(0), map[0][4]);
}

#[test]
fn a_reveal_passes_over_flags_on_zero_tiles() {
    let h = TileState::HiddenEmpty;
    let v = TileState::VisibleEmpty;
    let mut map = vec![vec![h(0), TileState::Marked(0), TileState::Question(0), h(1), h(0)]];
    assert_eq!(MoveResult::SafeMove, reveal_tile(0, 0, &mut map, false));
    assert_eq!(vec![vec![v(0), v(0), v(0), v(1), h(0)]], map);

    let mut map = vec![vec![h(0), TileState::Marked(-1), h(0)]];
    assert_eq!(MoveResult::SafeMove, reveal_tile(0, 0, &mut map, false));
    assert_eq!(vec![vec![v(0), TileState::Marked(-1), h(0)]], map);

    let mut map = vec![vec![h(0), v(0), h(0)]];
    assert_eq!(MoveResult::SafeMove, reveal_tile(0, 0, &mut map, false));
    assert_eq!(vec![vec![v(0), v(0), h(0)]], map);
}

#[test]
fn the_work_list_opens_what_the_recursion_opens() {
    for seed in 0..40u32 {
        let width = 3 + (seed as usize % 9);
        let height = 2 + (seed as usize % 7);
        let fresh = patterned_map(width, height, seed);
        for row in 0..height {
            for column in 0..width {
                for force in [false, true] {
                    let mut ours = fresh.clone();
                    let mut theirs = fresh.clone();
                    if (row + column + seed as usize) % 3 == 0 {
                        defuse_tile((row + 1) % height, column, &mut ours);
                        defuse_tile((row + 1) % height, column, &mut theirs);
                        mark_tile(row, (column + 1) % width, &mut ours);
                        mark_tile(row, (column + 1) % width, &mut theirs);
                    }
                    let a = reveal_tile(row, column, &mut ours, force);
                    let b = reveal_by_recursion(row, column, &mut theirs, force);
                    assert_eq!(a, b);
                    assert_eq!(ours, theirs);
                }
            }
        }
    }
}

#[test]
fn a_reveal_never_touches_another_mine() {
    for seed in 100..120u32 {
        let fresh = patterned_map(10, 8, seed);
        for row in 0..8 {
            for column in 0..10 {
                let mut map = fresh.clone();
                reveal_tile(row, column, &mut map, false);
                for r in 0..8 {
                    for c in 0..10 {
                        if fresh[r][c] == TileState::Mine && (r, c) != (row, column) {
                            assert_eq!(TileState::Mine, map[r][c]);
                        }
                    }
                }
            }
        }
    }
}

#[test]
fn a_board_without_mines_is_cleared_by_one_reveal() {
    let mut map = vec![vec![TileState::HiddenEmpty(0); 35]; 30];
    fill_neighbours(&mut map);
    assert_eq!((0, 35 * 30), get_progress(&map));
    assert_eq!(MoveResult::SafeMove, reveal_tile(17, 3, &mut map, false));
    assert_eq!((35 * 30, 0), get_progress(&map));
    assert_eq!(vec![vec![TileState::VisibleEmpty(0); 35]; 30], map);
    assert_eq!(35 * 30, tile_count(&map));
}

#[test]
fn progress_counts_visible_and_covered_safe_tiles() {
    let map = vec![
        vec![TileState::Mine, TileState::Explosion, TileState::VisibleEmpty(0)],
        vec![TileState::HiddenEmpty(1), TileState::Marked(2), TileState::Marked(-1)],
        vec![TileState::Question(0), TileState::Question(-1), TileState::VisibleEmpty(8)],
    ];
    assert_eq!((2, 3), get_progress(&map));
    assert_eq!(1, count_defused(&map));
    assert_eq!(9, tile_count(&map));
    assert!(!round_is_won(2, 3));
    assert!(round_is_won(0, 0));
    assert_eq!((0, 0), get_progress(&Vec::new()));
    assert_eq!((0, 0), get_progress(&vec![vec![TileState::Mine; 5]; 5]));
}

#[test]
fn the_best_hint_is_the_lowest_count() {
    let h = TileState::HiddenEmpty;
    assert_eq!(9, best_hint(&Vec::new()));
    assert_eq!(9, best_hint(&vec![vec![TileState::Mine, TileState::VisibleEmpty(0)]]));
    assert_eq!(2, best_hint(&vec![vec![h(3), h(2)], vec![h(5), TileState::Mine]]));
    assert_eq!(0, best_hint(&vec![vec![h(3), h(0)]]));
    assert_eq!(0, best_hint(&vec![vec![h(3), TileState::Marked(0), TileState::Question(0)]]));
    assert_eq!(0, best_hint(&vec![vec![TileState::Marked(0), h(2)]]));
    assert_eq!(0, best_hint(&vec![vec![h(3), TileState::Question(0)]]));
    assert_eq!(9, best_hint(&vec![vec![TileState::Marked(-1), TileState::Question(-1)]]));
    assert_eq!(1, best_hint(&vec![vec![h(3), TileState::Marked(1), TileState::Question(2)]]));
    assert_eq!(2, best_hint(&vec![vec![h(3), TileState::Marked(-1), TileState::Question(2)]]));
}

#[test]
fn hint_candidates_are_the_tiles_with_the_best_count() {
    let h = TileState::HiddenEmpty;
    let map = vec![
        vec![h(1), h(2), TileState::Mine],
        vec![TileState::Marked(1), TileState::Question(1), TileState::VisibleEmpty(1)],
        vec![TileState::Marked(-1), TileState::Explosion, h(1)],
    ];
    assert_eq!(vec![(0, 0), (1, 0), (1, 1), (2, 1), (2, 2)], hint_candidates(&map));
    assert!(hint_candidates(&vec![vec![TileState::Mine, TileState::VisibleEmpty(0)]]).is_empty());
}

#[test]
fn a_hint_uncovers_the_tile_it_comes_to_rest_on() {
    let h = TileState::HiddenEmpty;
    let v = TileState::VisibleEmpty;
    let mut map = vec![vec![TileState::Marked(1), h(1), TileState::Mine]];
    assert_eq!(MoveResult::SafeMove, apply_hint(0, 0, &mut map));
    assert_eq!(vec![vec![v(1), h(1), TileState::Mine]], map);
    assert_eq!(MoveResult::SafeMove, apply_hint(0, 1, &mut map));
    assert_eq!(vec![vec![v(1), v(1), TileState::Mine]], map);
    assert_eq!(MoveResult::MakesNoSense, apply_hint(0, 2, &mut map));
    assert_eq!(MoveResult::MakesNoSense, apply_hint(0, 0, &mut map));
    assert_eq!(vec![vec![v(1), v(1), TileState::Mine]], map);

    let mut map = vec![vec![TileState::Question(0), h(0)], vec![TileState::Explosion, h(0)]];
    assert_eq!(MoveResult::Explosion, apply_hint(1, 0, &mut map));
    assert_eq!(MoveResult::SafeMove, apply_hint(0, 0, &mut map));
    assert_eq!(vec![vec![v(0), v(0)], vec![TileState::Explosion, v(0)]], map);
}

#[test]
fn show_hint_picks_among_the_candidates() {
    let h = TileState::HiddenEmpty;
    let v = TileState::VisibleEmpty;
    for _ in 0..50 {
        let mut map = vec![vec![h(1), TileState::Mine, h(1), h(2)]];
        assert_eq!(MoveResult::SafeMove, show_hint(&mut map));
        assert!(
            map == vec![vec![v(1), TileState::Mine, h(1), h(2)]]
                || map == vec![vec![h(1), TileState::Mine, v(1), h(2)]]
        );
    }
    let mut seen_first = false;
    let mut seen_second = false;
    for _ in 0..400 {
        let mut map = vec![vec![h(1), TileState::Mine, h(1)]];
        show_hint(&mut map);
        seen_first = seen_first || map[0][0] == v(1);
        seen_second = seen_second || map[0][2] == v(1);
    }
    assert!(seen_first && seen_second);
}

#[test]
fn a_hint_uncovers_a_flagged_tile_with_no_mine_around_it() {
    let v = TileState::VisibleEmpty;
    let mut map = vec![vec![TileState::Marked(0), TileState::HiddenEmpty(2)]];
    assert_eq!(vec![(0, 0)], hint_candidates(&map));
    assert_eq!(MoveResult::SafeMove, show_hint(&mut map));
    assert_eq!(vec![vec![v(0), v(2)]], map);

    let mut map = vec![vec![TileState::Question(0), TileState::Mine, TileState::Marked(0)]];
    assert_eq!(vec![(0, 0), (0, 2)], hint_candidates(&map));
    assert_eq!(MoveResult::SafeMove, show_hint(&mut map));
    assert!(map[0][0] == v(0) || map[0][2] == v(0));
}

#[test]
fn the_round_goes_on_as_the_move_decides() {
    let alive = Turn { alive: true, feedback: Feedback::Nothing };
    let dead = Turn { alive: false, feedback: Feedback::Nothing };
    assert_eq!(AfterMove::LayAnew, decide_after_move(true, dead, 5));
    assert_eq!(AfterMove::LayAnew, decide_after_move(true, dead, 0));
    assert_eq!(AfterMove::Lost, decide_after_move(false, dead, 5));
    assert_eq!(AfterMove::Lost, decide_after_move(false, dead, 0));
    assert_eq!(AfterMove::Won, decide_after_move(true, alive, 0));
    assert_eq!(AfterMove::Won, decide_after_move(false, alive, 0));
    assert_eq!(AfterMove::GoOn, decide_after_move(true, alive, 1));
    assert_eq!(AfterMove::GoOn, decide_after_move(false, alive, 7));
    let unheard = Turn { alive: true, feedback: Feedback::NotUnderstood };
    assert_eq!(AfterMove::GoOn, decide_after_move(true, unheard, 3));
}

#[test]
fn the_numbers_of_a_round_depend_on_its_end() {
    let map = vec![
        vec![TileState::VisibleEmpty(1), TileState::Marked(-1), TileState::Mine],
        vec![TileState::VisibleEmpty(1), TileState::Marked(1), TileState::Question(-1)],
    ];
    assert_eq!(
        RoundNumbers { defused: 1, revealed: 2, exploded: false },
        round_numbers(&map, RoundEnd::Left)
    );
    assert_eq!(
        RoundNumbers { defused: 1, revealed: 2, exploded: true },
        round_numbers(&map, RoundEnd::Lost)
    );
    assert_eq!(
        RoundNumbers { defused: 4, revealed: 2, exploded: false },
        round_numbers(&map, RoundEnd::Won)
    );
    assert_eq!(
        RoundNumbers { defused: 0, revealed: 0, exploded: false },
        round_numbers(&Vec::new(), RoundEnd::Won)
    );
}

#[test]
fn show_hint_ends_on_a_board_with_nothing_to_uncover() {
    let mut won = vec![vec![TileState::VisibleEmpty(1), TileState::Mine]];
    assert_eq!(MoveResult::MakesNoSense, show_hint(&mut won));
    assert_eq!(vec![vec![TileState::VisibleEmpty(1), TileState::Mine]], won);
    let mut empty: Vec<Vec<TileState>> = Vec::new();
    assert_eq!(MoveResult::MakesNoSense, show_hint(&mut empty));
}

#[test]
fn moves_are_carried_out_and_answered() {
    let h = TileState::HiddenEmpty;
    let v = TileState::VisibleEmpty;
    let quiet = Turn { alive: true, feedback: Feedback::Nothing };
    let mut map = vec![vec![h(1), TileState::Mine], vec![h(1), h(1)]];

    assert_eq!(
        Turn { alive: true, feedback: Feedback::NotUnderstood },
        process_input("what?", &mut map)
    );
    assert_eq!(
        Turn { alive: true, feedback: Feedback::NoSuchTile },
        process_input("C1", &mut map)
    );
    assert_eq!(
        Turn { alive: true, feedback: Feedback::NoSuchTile },
        process_input("def A3", &mut map)
    );
    assert_eq!(
        Turn { alive: true, feedback: Feedback::NoSuchTile },
        process_input("mark iv255", &mut map)
    );
    assert_eq!(quiet, process_input("a1\n", &mut map));
    assert_eq!(v(1), map[0][0]);
    assert_eq!(
        Turn { alive: true, feedback: Feedback::AlreadyRevealed },
        process_input("A1\n", &mut map)
    );
    assert_eq!(
        Turn { alive: true, feedback: Feedback::AlreadyRevealed },
        process_input("def A1\n", &mut map)
    );
    assert_eq!(
        Turn { alive: true, feedback: Feedback::AlreadyRevealed },
        process_input("mark A1\n", &mut map)
    );
    assert_eq!(quiet, process_input("def A2\n", &mut map));
    assert_eq!(TileState::Marked(-1), map[0][1]);
    assert_eq!(
        Turn { alive: true, feedback: Feedback::NotUnderstood },
        process_input("A2\n", &mut map)
    );
    assert_eq!(quiet, process_input("mark B1\n", &mut map));
    assert_eq!(TileState::Question(1), map[1][0]);
    assert_eq!(quiet, process_input("hint\n", &mut map));
    assert_eq!(quiet, process_input("hint\n", &mut map));
    assert_eq!(vec![vec![v(1), TileState::Marked(-1)], vec![v(1), v(1)]], map);
    assert_eq!(quiet, process_input("def A2\n", &mut map));
    assert_eq!(
        Turn { alive: false, feedback: Feedback::Nothing },
        process_input("A2\n", &mut map)
    );
    assert_eq!(TileState::Explosion, map[0][1]);

    let mut flagged = vec![vec![TileState::Question(-1)]];
    assert_eq!(
        Turn { alive: false, feedback: Feedback::Nothing },
        apply_move(MoveType::Reveal { row: 0, column: 0 }, &mut flagged)
    );
    let mut nothing: Vec<Vec<TileState>> = Vec::new();
    assert_eq!(
        Turn { alive: true, feedback: Feedback::NoSuchTile },
        apply_move(MoveType::Reveal { row: 0, column: 0 }, &mut nothing)
    );
}
