//! What a line of input asks to do on the board.

use regex::Regex;
use vstd::prelude::*;
use crate::commands::{hint, names_one_of, HINT_COMMANDS};
use crate::coordinates::{parse_index, parsed_index};
use crate::text::{
    after_first, chars_of, is_ascii_digit, is_ascii_letter, is_prefix, skip_chars, starts_with,
    trim, trimmed,
};

verus! {

/// A move as the player typed it.
#[derive(Clone, Copy, PartialEq, Eq, Structural, Debug)]
pub enum MoveType {
    Unknown,
    Hint,
    Reveal { row: u8, column: u8 },
    Defuse { row: u8, column: u8 },
    Mark { row: u8, column: u8 },
}

/// The regular expression that a position on its own must match: digits
/// then letters, or letters then digits, and nothing else.
pub const COORDINATE_PATTERN: &'static str = "^[0-9]+[a-zA-Z]+$|^[a-zA-Z]+[0-9]+$";

/// The first `k` characters are digits and the rest are letters, with at
/// least one of each.
pub open spec fn digits_then_letters(s: Seq<char>, k: int) -> bool {
    &&& 0 < k < s.len()
    &&& forall|i: int| 0 <= i < k ==> is_ascii_digit(#[trigger] s[i])
    &&& forall|i: int| k <= i < s.len() ==> is_ascii_letter(#[trigger] s[i])
}

/// The first `k` characters are letters and the rest are digits, with at
/// least one of each.
pub open spec fn letters_then_digits(s: Seq<char>, k: int) -> bool {
    &&& 0 < k < s.len()
    &&& forall|i: int| 0 <= i < k ==> is_ascii_letter(#[trigger] s[i])
    &&& forall|i: int| k <= i < s.len() ==> is_ascii_digit(#[trigger] s[i])
}

/// The text splits at `k` into digits and letters, in either order.
pub open spec fn splits_as_coordinate(s: Seq<char>, k: int) -> bool {
    digits_then_letters(s, k) || letters_then_digits(s, k)
}

/// The text is a position on its own: `12ab` or `ab12`.
pub open spec fn is_coordinate_token(s: Seq<char>) -> bool {
    exists|k: int| #[trigger] splits_as_coordinate(s, k)
}

/// Compiles the pattern with `regex::Regex::new` and asks
/// `regex::Regex::is_match` whether the text matches.
///
/// Believed, not proved, and claimed of `COORDINATE_PATTERN` only: by the
/// syntax of the regex crate, `^` and `$` stand for the two ends of the
/// text, `[0-9]` for an ASCII digit, `[a-zA-Z]` for an ASCII letter, `+` for
/// one or more and `|` for either side. The pattern is a valid one, so
/// compiling it does not fail.
#[verifier::external_body]
pub(crate) fn regex_is_match(pattern: &str, text: &str) -> (r: bool)
    requires
        pattern@ == COORDINATE_PATTERN@,
    ensures
        r == is_coordinate_token(text@),
{
    Regex::new(pattern).unwrap().is_match(text)
}

/// Tells whether a text is a position on its own.
pub fn is_coordinate(text: &str) -> (r: bool)
    ensures
        r == is_coordinate_token(text@),
{
    regex_is_match(COORDINATE_PATTERN, text)
}

/// The move that a position gives, or `Unknown` without one.
pub open spec fn reveal_at(index: Result<(u8, u8), crate::coordinates::InputError>) -> MoveType {
    match index {
        Ok((row, column)) => MoveType::Reveal { row, column },
        Err(_) => MoveType::Unknown,
    }
}

/// The defusing that a position gives, or `Unknown` without one.
pub open spec fn defuse_at(index: Result<(u8, u8), crate::coordinates::InputError>) -> MoveType {
    match index {
        Ok((row, column)) => MoveType::Defuse { row, column },
        Err(_) => MoveType::Unknown,
    }
}

/// The marking that a position gives, or `Unknown` without one.
pub open spec fn mark_at(index: Result<(u8, u8), crate::coordinates::InputError>) -> MoveType {
    match index {
        Ok((row, column)) => MoveType::Mark { row, column },
        Err(_) => MoveType::Unknown,
    }
}

/// The move that a line asks for.
///
/// A line that begins with `def ` or `mark ` names the tile in what
/// follows; a word for a hint asks for one; a position on its own asks
/// to reveal that tile. Anything else is not understood.
pub open spec fn move_of(input: Seq<char>) -> MoveType {
    if is_prefix("def "@, input) {
        defuse_at(parsed_index(after_first(trimmed(input), 4)))
    } else if is_prefix("mark "@, input) {
        mark_at(parsed_index(after_first(trimmed(input), 5)))
    } else if names_one_of(input, HINT_COMMANDS@) {
        MoveType::Hint
    } else if is_coordinate_token(trimmed(input)) {
        reveal_at(parsed_index(input))
    } else {
        MoveType::Unknown
    }
}

/// Reads the move that a line asks for.
pub fn translate_move(input: &str) -> (m: MoveType)
    ensures
        m == move_of(input@),
{
    let chars = chars_of(input);
    if starts_with(chars.as_slice(), "def ") {
        match parse_index(skip_chars(trim(input), 4)) {
            Ok((row, column)) => MoveType::Defuse { row, column },
            Err(_) => MoveType::Unknown,
        }
    } else if starts_with(chars.as_slice(), "mark ") {
        match parse_index(skip_chars(trim(input), 5)) {
            Ok((row, column)) => MoveType::Mark { row, column },
            Err(_) => MoveType::Unknown,
        }
    } else if hint(input) {
        MoveType::Hint
    } else if is_coordinate(trim(input)) {
        match parse_index(input) {
            Ok((row, column)) => MoveType::Reveal { row, column },
            Err(_) => MoveType::Unknown,
        }
    } else {
        MoveType::Unknown
    }
}

} // verus!
