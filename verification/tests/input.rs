use minesweeper::commands::{
    hint, normalize, HELP_COMMANDS, MAP_SIZE, QUIT_COMMANDS, RESTART_COMMANDS,
};
use minesweeper::coordinates::{parse_u8, row_from_uppercase};
use minesweeper::moves::is_coordinate;
use minesweeper::text::{letters_of, numbers_of, skip_chars, to_lowercase, to_uppercase, trim};
use minesweeper::{
    about, add_row_number, choose_size, classify_command, credits, get_column_number,
    get_row_number, help, join_tokens, map_extra, map_large, map_medium, map_small, parse_index,
    restart, start_again_answer, stat, translate_move, want_to_quit, Command, InputError,
    MoveType, SizeChoice,
};

#[test]
fn join_tokens_test() {
    assert_eq!(join_tokens([]), "");
    assert_eq!(join_tokens(["General"]), "'General'");
    assert_eq!(join_tokens(["General", "Kenobi"]), "'General', or 'Kenobi'");
    assert_eq!(join_tokens(QUIT_COMMANDS), "'q', 'quit', or 'exit'");
}

#[test]
fn join_tokens_of_four_words() {
    assert_eq!(join_tokens(MAP_SIZE), "'s', 'm', 'l', or 'xl'");
    assert_eq!(join_tokens(RESTART_COMMANDS), "'restart'");
    assert_eq!(join_tokens(HELP_COMMANDS), "'help', 'how', 'how to', '?', or 'usage'");
}

#[test]
fn translate_move_test() {
    assert_eq!(MoveType::Reveal { row: 0, column: 0 }, translate_move("A1"));
    assert_eq!(MoveType::Reveal { row: 0, column: 0 }, translate_move("A1\n"));
    assert_eq!(MoveType::Defuse { row: 1, column: 1 }, translate_move("def B2"));
    assert_eq!(MoveType::Defuse { row: 6, column: 4 }, translate_move("def 5g"));
    assert_eq!(MoveType::Mark { row: 6, column: 1 }, translate_move("mark 2g"));
    assert_eq!(MoveType::Mark { row: 2, column: 13 }, translate_move("mark   c14   "));
    assert_eq!(MoveType::Unknown, translate_move("help"));
}

#[test]
fn parse_index_test() {
    assert_eq!(Ok((0, 0)), parse_index("A1"));
    assert_eq!(Err(InputError::InvalidInput), parse_index("A0"));

    assert_eq!(Ok((1, 0)), parse_index("B1"));
    assert_eq!(Ok((1, 0)), parse_index("1b"));
}

#[test]
fn add_row_number_test() {
    assert_eq!("A", add_row_number(0));
    assert_eq!("E", add_row_number(4));
    assert_eq!("Z", add_row_number(25));
    assert_eq!("AA", add_row_number(26));
    assert_eq!("BA", add_row_number(52));
    assert_eq!("IV", add_row_number(255));
}

#[test]
fn get_row_number_test() {
    assert_eq!(Ok(0), get_row_number("A"));
    assert_eq!(Ok(0), get_row_number("a"));
    assert_eq!(Ok(1), get_row_number("B"));
    assert_eq!(Ok(8), get_row_number("I"));
    assert_eq!(Ok(26), get_row_number("AA"));
    assert_eq!(Ok(52), get_row_number("BA"));
    assert_eq!(Ok(52), get_row_number("Ba"));
    assert_eq!(Ok(52), get_row_number("bA"));
    assert_eq!(Ok(52), get_row_number("ba"));
    assert_eq!(Ok(255), get_row_number("IV"));
    assert_eq!(Ok(255), get_row_number("iv"));
}

#[test]
fn get_row_number_test_invalid() {
    assert_eq!(Err(InputError::InvalidInput), get_row_number(""));
    assert_eq!(Err(InputError::InvalidInput), get_row_number("7"));
    assert_eq!(Err(InputError::InvalidInput), get_row_number("A7c"));
}

#[test]
fn column_number_test() {
    assert_eq!(Ok(0), get_column_number("1"));
    assert_eq!(Ok(13), get_column_number("14"));
}

#[test]
fn row_names_beyond_the_last_row_are_refused() {
    assert_eq!(Err(InputError::InvalidInput), get_row_number("IW"));
    assert_eq!(Err(InputError::InvalidInput), get_row_number("JA"));
    assert_eq!(Err(InputError::InvalidInput), get_row_number("ZZ"));
    assert_eq!(Err(InputError::InvalidInput), get_row_number("ABC"));
    assert_eq!(Err(InputError::InvalidInput), get_row_number("A1"));
    assert_eq!(Err(InputError::InvalidInput), get_row_number("\u{e9}"));
    assert_eq!(Ok(233), get_row_number("HZ"));
    assert_eq!(Ok(234), get_row_number("IA"));
}

#[test]
fn row_from_uppercase_reads_upper_case_words() {
    assert_eq!(Ok(0), row_from_uppercase(""));
    assert_eq!(Ok(25), row_from_uppercase("Z"));
    assert_eq!(Ok(27), row_from_uppercase("AB"));
    assert_eq!(Err(InputError::InvalidInput), row_from_uppercase("ab"));
    assert_eq!(Err(InputError::InvalidInput), row_from_uppercase("AAA"));
    assert_eq!(Err(InputError::InvalidInput), row_from_uppercase("A B"));
}

#[test]
fn every_row_name_reads_back_as_its_row() {
    let mut row: u8 = 0;
    loop {
        assert_eq!(Ok(row), get_row_number(add_row_number(row).as_str()));
        assert_eq!(Ok(row), get_row_number(add_row_number(row).to_lowercase().as_str()));
        if row == 255 {
            break;
        }
        row += 1;
    }
}

#[test]
fn column_numbers_start_at_one() {
    assert_eq!(Err(InputError::InvalidInput), get_column_number("0"));
    assert_eq!(Err(InputError::InvalidInput), get_column_number(""));
    assert_eq!(Err(InputError::InvalidInput), get_column_number("256"));
    assert_eq!(Err(InputError::InvalidInput), get_column_number("1a"));
    assert_eq!(Err(InputError::InvalidInput), get_column_number(" 1"));
    assert_eq!(Err(InputError::InvalidInput), get_column_number("-1"));
    assert_eq!(Ok(254), get_column_number("255"));
    assert_eq!(Ok(6), get_column_number("007"));
    assert_eq!(Ok(4), get_column_number("+5"));
}

#[test]
fn parse_u8_agrees_with_the_standard_parser() {
    let samples = [
        "", "0", "1", "9", "10", "99", "100", "255", "256", "300", "999", "1000", "00000255",
        "+", "+0", "+255", "+256", "++1", "-1", "-0", "1+", "1 ", " 1", "1_0", "a", "12a", "\u{663}",
        "2555", "25 5", "0x10",
    ];
    for sample in samples {
        assert_eq!(sample.parse::<u8>().ok(), parse_u8(sample));
    }
}

#[test]
fn positions_are_read_in_either_order() {
    assert_eq!(MoveType::Reveal { row: 6, column: 4 }, translate_move("5g"));
    assert_eq!(MoveType::Reveal { row: 6, column: 4 }, translate_move("  G5  "));
    assert_eq!(MoveType::Reveal { row: 28, column: 27 }, translate_move("28AC"));
    assert_eq!(MoveType::Unknown, translate_move("A0"));
    assert_eq!(MoveType::Unknown, translate_move("A 1"));
    assert_eq!(MoveType::Unknown, translate_move("A1B"));
    assert_eq!(MoveType::Unknown, translate_move("1A1"));
    assert_eq!(MoveType::Unknown, translate_move("A"));
    assert_eq!(MoveType::Unknown, translate_move("1"));
    assert_eq!(MoveType::Unknown, translate_move(""));
    assert_eq!(MoveType::Unknown, translate_move("ABC1"));
    assert_eq!(MoveType::Unknown, translate_move("A256"));
}

#[test]
fn defuse_and_mark_take_what_follows_them() {
    assert_eq!(MoveType::Defuse { row: 0, column: 0 }, translate_move("def A1\n"));
    assert_eq!(MoveType::Defuse { row: 1, column: 1 }, translate_move("def B-2"));
    assert_eq!(MoveType::Mark { row: 2, column: 13 }, translate_move("mark c14"));
    assert_eq!(MoveType::Unknown, translate_move("def "));
    assert_eq!(MoveType::Unknown, translate_move("def  \n"));
    assert_eq!(MoveType::Unknown, translate_move("mark "));
    assert_eq!(MoveType::Unknown, translate_move("mark A"));
    assert_eq!(MoveType::Unknown, translate_move("def A0"));
    assert_eq!(MoveType::Unknown, translate_move(" def A1"));
    assert_eq!(MoveType::Unknown, translate_move("DEF A1"));
    assert_eq!(MoveType::Unknown, translate_move("defA1"));
}

#[test]
fn a_hint_is_asked_for_by_its_word() {
    assert_eq!(MoveType::Hint, translate_move("hint"));
    assert_eq!(MoveType::Hint, translate_move("  HiNt\n"));
    assert!(hint("Hint "));
    assert!(!hint("hints"));
}

#[test]
fn coordinate_tokens_are_digits_and_letters_only() {
    assert!(is_coordinate("A1"));
    assert!(is_coordinate("1A"));
    assert!(is_coordinate("abc123"));
    assert!(is_coordinate("123abc"));
    assert!(!is_coordinate(""));
    assert!(!is_coordinate("A"));
    assert!(!is_coordinate("1"));
    assert!(!is_coordinate("A1A"));
    assert!(!is_coordinate("1A1"));
    assert!(!is_coordinate("A1\n"));
    assert!(!is_coordinate(" A1"));
    assert!(!is_coordinate("A-1"));
    assert!(!is_coordinate("\u{e9}1"));
    assert!(!is_coordinate("A\u{663}"));
}

#[test]
fn command_words_are_trimmed_and_lowered() {
    assert!(want_to_quit("q"));
    assert!(want_to_quit("QUIT"));
    assert!(want_to_quit("  Exit \n"));
    assert!(!want_to_quit("quit now"));
    assert!(!want_to_quit(""));
    assert!(help("?"));
    assert!(help("How To"));
    assert!(help("usage\n"));
    assert!(!help("helpme"));
    assert!(stat("stat"));
    assert!(stat("STATS"));
    assert!(credits("credit"));
    assert!(credits("Credits"));
    assert!(about("about"));
    assert!(restart(" restart "));
    assert!(map_small("s"));
    assert!(map_small("Small"));
    assert!(map_medium("m"));
    assert!(map_medium("MEDIUM"));
    assert!(map_large("l"));
    assert!(map_large("large"));
    assert!(map_extra("xl"));
    assert!(map_extra("XXL"));
    assert!(map_extra("extra"));
    assert!(map_extra("Extra Large"));
    assert!(!map_extra("extralarge"));
    assert!(!map_small("m"));
}

#[test]
fn normalize_gives_the_word_of_a_line() {
    assert_eq!("quit", normalize(" \t QUIT \r\n"));
    assert_eq!("how to", normalize("How To"));
    assert_eq!("", normalize("   "));
    assert_eq!("\u{e9}t\u{e9}", normalize("\u{a0}\u{c9}T\u{c9}\u{3000}"));
}

#[test]
fn text_helpers_follow_the_standard_library() {
    let samples = [
        "", " ", "a", " a", "a ", "  a b  ", "\n\tA1\r\n", "\u{a0}x\u{2003}", "\u{85}\u{1680}",
        "x\u{200b}", "\u{feff}x", "Stra\u{df}e", "\u{130}", "\u{3a3}\u{391}\u{3a3}", "1\u{663}2",
        "\u{2160}V", "a1!B2?",
    ];
    for sample in samples {
        assert_eq!(sample.trim(), trim(sample));
        assert_eq!(sample.to_lowercase(), to_lowercase(sample));
        assert_eq!(sample.to_uppercase(), to_uppercase(sample));
        let letters: String = sample.chars().filter(|c| c.is_alphabetic()).collect();
        let numbers: String = sample.chars().filter(|c| c.is_numeric()).collect();
        assert_eq!(letters, letters_of(sample));
        assert_eq!(numbers, numbers_of(sample));
    }
    assert_eq!("B2", skip_chars("def B2", 4));
    assert_eq!("", skip_chars("def", 4));
    assert_eq!("", skip_chars("def ", 4));
    assert_eq!("\u{e9}", skip_chars("d\u{e9}f \u{e9}", 4));
}

#[test]
fn board_sizes_are_chosen_by_word() {
    assert_eq!(SizeChoice::Quit, choose_size("q\n"));
    assert_eq!(SizeChoice::Help, choose_size("help\n"));
    assert_eq!(SizeChoice::Credits, choose_size("credits\n"));
    assert_eq!(SizeChoice::About, choose_size("about\n"));
    assert_eq!(SizeChoice::Size(6, 5), choose_size("S\n"));
    assert_eq!(SizeChoice::Size(10, 8), choose_size("medium\n"));
    assert_eq!(SizeChoice::Size(15, 13), choose_size(" l \n"));
    assert_eq!(SizeChoice::Size(35, 30), choose_size("Extra Large\n"));
    assert_eq!(SizeChoice::Unrecognized, choose_size("huge\n"));
    assert_eq!(SizeChoice::Unrecognized, choose_size("\n"));
}

#[test]
fn start_again_waits_for_yes_or_no() {
    assert_eq!(Some(true), start_again_answer("y\n"));
    assert_eq!(Some(true), start_again_answer("YES"));
    assert_eq!(Some(true), start_again_answer(" yeah "));
    assert_eq!(Some(false), start_again_answer("n"));
    assert_eq!(Some(false), start_again_answer("Nope\n"));
    assert_eq!(Some(false), start_again_answer("nah"));
    assert_eq!(Some(false), start_again_answer("quit"));
    assert_eq!(None, start_again_answer(""));
    assert_eq!(None, start_again_answer("maybe"));
}

#[test]
fn lines_in_a_round_are_commands_or_moves() {
    assert_eq!(Command::Quit, classify_command("exit\n"));
    assert_eq!(Command::Help, classify_command("?\n"));
    assert_eq!(Command::Stats, classify_command("stats\n"));
    assert_eq!(Command::Credits, classify_command("credit\n"));
    assert_eq!(Command::About, classify_command("About\n"));
    assert_eq!(Command::Restart, classify_command("restart\n"));
    assert_eq!(Command::Move, classify_command("A1\n"));
    assert_eq!(Command::Move, classify_command("hint\n"));
    assert_eq!(Command::Move, classify_command("\n"));
}

#[test]
fn white_space_is_what_trim_takes_away() {
    for code in 0..=0x10FFFFu32 {
        if let Some(c) = char::from_u32(code) {
            let listed = (0x09..=0x0D).contains(&code)
                || code == 0x20
                || code == 0x85
                || code == 0xA0
                || code == 0x1680
                || (0x2000..=0x200A).contains(&code)
                || code == 0x2028
                || code == 0x2029
                || code == 0x202F
                || code == 0x205F
                || code == 0x3000;
            assert_eq!(listed, c.is_whitespace());
            let mut text = String::from("x");
            text.push(c);
            assert_eq!(if listed { 1 } else { 2 }, trim(&text).chars().count());
        }
    }
}

#[test]
fn ascii_letters_and_digits_are_what_they_seem() {
    for code in 0..128u8 {
        let c = code as char;
        let text = c.to_string();
        assert_eq!(c.is_ascii_alphabetic(), !letters_of(&text).is_empty());
        assert_eq!(c.is_ascii_digit(), !numbers_of(&text).is_empty());
        assert_eq!(c.to_ascii_lowercase().to_string(), to_lowercase(&text));
        assert_eq!(c.to_ascii_uppercase().to_string(), to_uppercase(&text));
    }
    let all: String = (0..128u8).map(|code| code as char).collect();
    assert_eq!(all.to_ascii_lowercase(), to_lowercase(&all));
    assert_eq!(all.to_ascii_uppercase(), to_uppercase(&all));
}
