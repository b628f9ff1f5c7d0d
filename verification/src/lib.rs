pub mod chance;
pub mod commands;
pub mod coordinates;
pub mod engine;
pub mod grid;
pub mod hint;
pub mod laws;
pub mod map_draw;
pub mod map_generator;
pub mod moves;
pub mod play;
pub mod progress;
pub mod stats;
pub mod text;
pub mod tile;

pub use crate::commands::{
    about, choose_size, classify_command, credits, help, join_tokens,
    map_extra, map_large, map_medium, map_small, restart, start_again_answer, stat, want_to_quit,
    Command, SizeChoice,
};
pub use crate::coordinates::{
    add_row_number, get_column_number, get_row_number, parse_index, InputError,
};
pub use crate::engine::{defuse_tile, mark_tile, reveal_tile};
pub use crate::hint::{apply_hint, best_hint, hint_candidates, show_hint};
pub use crate::map_draw::{
    add_first_line, generate_line, number_of_spaces, render_map, StyledText, TextColor,
};
pub use crate::map_generator::{
    add_one, count_neigbour_mines, fill_neighbours, generate_map, tile_from_roll,
};
pub use crate::moves::{translate_move, MoveType};
pub use crate::play::{apply_move, decide_after_move, process_input, AfterMove, Feedback, Turn};
pub use crate::progress::{
    count_defused, get_progress, round_is_won, round_numbers, tile_count, RoundEnd, RoundNumbers,
};
pub use crate::stats::{add_round, fresh_stats, stats_or_fresh, try_add_round, Stats};
pub use crate::tile::{MoveResult, TileState};
