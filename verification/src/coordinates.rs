//! Rows are named by letters, columns by numbers: reading and writing them.

use vstd::prelude::*;
use crate::text::{
    ascii_upper, chars_of, is_ascii_digit, is_ascii_letter, is_ascii_text, kept, alphabetic,
    lemma_utf8_length_bounds, letters_of, numbers_of, numeric, string_push, to_uppercase,
    upper_ascii, uppercase, utf8_length, utf8_longer_than, utf8_width,
};

verus! {

/// Why a text names no row or column.
#[derive(Clone, Copy, PartialEq, Eq, Structural, Debug)]
pub enum InputError {
    InvalidInput,
}

/// The letters of the alphabet that rows are counted in.
pub const MAX_ASCII_CHARACTERS: u8 = 26;

/// The code of the letter `A`.
pub const FIRST_ASCII_CHARACTERS: u8 = 65;

/// The place of a letter in the alphabet, from 0 for `A` or `a`.
pub open spec fn letter_value(c: char) -> int {
    ascii_upper(c) as int - 65
}

/// The letter at a place in the alphabet, from `A` for 0.
pub open spec fn letter_at(place: int) -> char {
    ((place + 65) as u8) as char
}

/// The number that a word of letters stands for: `A` to `Z` are 0 to 25,
/// `AA` follows `Z`.
pub open spec fn letters_value(word: Seq<char>) -> int
    decreases word.len(),
{
    if word.len() == 0 {
        0
    } else if word.len() == 1 {
        letter_value(word[0])
    } else {
        (1 + letters_value(word.drop_last())) * 26 + letter_value(word.last())
    }
}

/// Every character is one of `a` to `z` or `A` to `Z`.
pub open spec fn all_ascii_letters(word: Seq<char>) -> bool {
    forall|i: int| 0 <= i < word.len() ==> is_ascii_letter(#[trigger] word[i])
}

/// Every character is one of `0` to `9`.
pub open spec fn all_ascii_digits(word: Seq<char>) -> bool {
    forall|i: int| 0 <= i < word.len() ==> is_ascii_digit(#[trigger] word[i])
}

/// A word of two bytes that comes after `IV`, the name of the last row.
pub open spec fn beyond_last_row(word: Seq<char>) -> bool {
    utf8_length(word) == 2 && (word[0] > 'I' || (word[0] == 'I' && word[1] > 'V'))
}

/// The row that a word in upper case names.
pub open spec fn row_of_uppercase(word: Seq<char>) -> Result<u8, InputError> {
    if beyond_last_row(word) || !all_ascii_letters(word) || letters_value(word) > 255 {
        Err(InputError::InvalidInput)
    } else {
        Ok(letters_value(word) as u8)
    }
}

/// The row that a word names: one or two bytes of letters, in either case.
pub open spec fn row_number(word: Seq<char>) -> Result<u8, InputError> {
    if word.len() == 0 || utf8_length(word) > 2 {
        Err(InputError::InvalidInput)
    } else {
        row_of_uppercase(uppercase(word))
    }
}

/// The name of a row: `A` to `Z` for the first 26, then two letters.
pub open spec fn row_label(row: int) -> Seq<char>
    decreases row,
{
    if row < 26 {
        seq![letter_at(row)]
    } else {
        row_label(row / 26 - 1).push(letter_at(row % 26))
    }
}

/// The value of a digit.
pub open spec fn digit_value(c: char) -> int {
    c as int - 48
}

/// The number that a word of digits stands for.
pub open spec fn decimal_value(digits: Seq<char>) -> int
    decreases digits.len(),
{
    if digits.len() == 0 {
        0
    } else {
        decimal_value(digits.drop_last()) * 10 + digit_value(digits.last())
    }
}

/// The text without a plus sign at its start.
pub open spec fn unsigned_part(text: Seq<char>) -> Seq<char> {
    if text.len() > 0 && text[0] == '+' {
        text.drop_first()
    } else {
        text
    }
}

/// The number up to 255 that a text stands for: digits, with or without a
/// plus sign before them.
pub open spec fn parsed_u8(text: Seq<char>) -> Option<u8> {
    let digits = unsigned_part(text);
    if digits.len() > 0 && all_ascii_digits(digits) && decimal_value(digits) <= 255 {
        Some(decimal_value(digits) as u8)
    } else {
        None
    }
}

/// The column that a text names: columns are counted from 1.
pub open spec fn column_number(text: Seq<char>) -> Result<u8, InputError> {
    match parsed_u8(text) {
        Some(n) => if n > 0 {
            Ok((n - 1) as u8)
        } else {
            Err(InputError::InvalidInput)
        },
        None => Err(InputError::InvalidInput),
    }
}

/// The row and the column that a text names: its letters name the row, its
/// numbers the column, whatever else stands between them.
pub open spec fn parsed_index(text: Seq<char>) -> Result<(u8, u8), InputError> {
    match (row_number(kept(text, alphabetic())), column_number(kept(text, numeric()))) {
        (Ok(row), Ok(column)) => Ok((row, column)),
        _ => Err(InputError::InvalidInput),
    }
}

proof fn lemma_letters_value_step(word: Seq<char>, i: int)
    requires
        0 <= i < word.len(),
    ensures
        letters_value(word.take(i + 1)) == if i == 0 {
            letter_value(word[0])
        } else {
            (1 + letters_value(word.take(i))) * 26 + letter_value(word[i])
        },
{
    assert(word.take(i + 1).drop_last() =~= word.take(i));
    assert(word.take(i + 1).last() == word[i]);
    assert(word.take(i + 1)[0] == word[0]);
}

/// A word of letters stands for no less than any of its beginnings.
proof fn lemma_letters_value_grows(word: Seq<char>, i: int)
    requires
        0 <= i <= word.len(),
        all_ascii_letters(word),
    ensures
        0 <= letters_value(word.take(i)) <= letters_value(word),
    decreases word.len() - i,
{
    if i < word.len() {
        lemma_letters_value_step(word, i);
        lemma_letters_value_grows(word, i + 1);
        assert(is_ascii_letter(word[i]));
        if i > 0 {
            lemma_letters_value_nonnegative(word.take(i));
        }
    } else {
        assert(word.take(i) =~= word);
        lemma_letters_value_nonnegative(word);
    }
}

proof fn lemma_letters_value_nonnegative(word: Seq<char>)
    requires
        all_ascii_letters(word),
    ensures
        0 <= letters_value(word),
    decreases word.len(),
{
    if word.len() == 1 {
        assert(is_ascii_letter(word[0]));
    } else if word.len() > 1 {
        let front = word.drop_last();
        assert forall|i: int| 0 <= i < front.len() implies is_ascii_letter(#[trigger] front[i]) by {
            assert(front[i] == word[i]);
        }
        lemma_letters_value_nonnegative(front);
        assert(is_ascii_letter(word[word.len() - 1]));
        assert((1 + letters_value(front)) * 26 >= 0) by (nonlinear_arith)
            requires
                letters_value(front) >= 0,
        ;
    }
}

/// A text of two bytes is two characters of one byte or one of two.
proof fn lemma_two_bytes(word: Seq<char>)
    requires
        utf8_length(word) == 2,
    ensures
        word.len() == 1 || word.len() == 2,
        word.len() == 1 ==> utf8_width(word[0]) == 2,
        word.len() == 2 ==> utf8_width(word[0]) == 1 && utf8_width(word[1]) == 1,
{
    lemma_utf8_length_bounds(word);
    if word.len() == 1 {
        assert(utf8_length(word.drop_last()) == 0);
    } else if word.len() == 2 {
        let front = word.drop_last();
        assert(utf8_length(front.drop_last()) == 0);
        assert(front.last() == word[0]);
        assert(utf8_length(front) == utf8_width(word[0]));
        assert(word.last() == word[1]);
    }
}

/// Reads a row from a word that is already in upper case. `IV`, row 255,
/// is the last there is.
pub fn row_from_uppercase(word: &str) -> (row: Result<u8, InputError>)
    ensures
        row == row_of_uppercase(word@),
{
    let chars = chars_of(word);
    let letters = chars.as_slice();
    if utf8_longer_than(letters, 1) && !utf8_longer_than(letters, 2) {
        proof {
            lemma_two_bytes(word@);
        }
        if letters[0] > 'I' {
            return Err(InputError::InvalidInput);
        } else if letters[0] == 'I' && letters[1] > 'V' {
            return Err(InputError::InvalidInput);
        }
    }
    let mut sum: u32 = 0;
    let mut i: usize = 0;
    while i < letters.len()
        invariant
            i <= letters.len(),
            letters@ == word@,
            !beyond_last_row(word@),
            forall|k: int| 0 <= k < i ==> is_ascii_letter(#[trigger] word@[k]),
            sum == letters_value(word@.take(i as int)),
            sum <= 255,
        decreases letters.len() - i,
    {
        let ch = letters[i];
        if !(('a' <= ch && ch <= 'z') || ('A' <= ch && ch <= 'Z')) {
            return Err(InputError::InvalidInput);
        }
        let upper: u8 = if 'a' <= ch && ch <= 'z' {
            (ch as u8) - 32
        } else {
            ch as u8
        };
        let value: u32 = (upper - FIRST_ASCII_CHARACTERS) as u32;
        proof {
            lemma_letters_value_step(word@, i as int);
            assert(value == letter_value(ch));
        }
        let next: u32 = if i == 0 {
            value
        } else {
            (1 + sum) * 26 + value
        };
        if next > 255 {
            proof {
                if all_ascii_letters(word@) {
                    lemma_letters_value_grows(word@, i + 1);
                }
            }
            return Err(InputError::InvalidInput);
        }
        sum = next;
        i += 1;
    }
    assert(word@.take(i as int) =~= word@);
    Ok(sum as u8)
}

/// Reads the name of a row: one or two letters, in either case, from `A`
/// for row 0 to `IV` for row 255.
pub fn get_row_number(input: &str) -> (row: Result<u8, InputError>)
    ensures
        row == row_number(input@),
{
    let chars = chars_of(input);
    if chars.len() == 0 || utf8_longer_than(chars.as_slice(), 2) {
        return Err(InputError::InvalidInput);
    }
    let upper = to_uppercase(input);
    row_from_uppercase(upper.as_str())
}

proof fn lemma_decimal_value_step(digits: Seq<char>, i: int)
    requires
        0 <= i < digits.len(),
    ensures
        decimal_value(digits.take(i + 1)) == decimal_value(digits.take(i)) * 10 + digit_value(
            digits[i],
        ),
{
    assert(digits.take(i + 1).drop_last() =~= digits.take(i));
    assert(digits.take(i + 1).last() == digits[i]);
}

/// A word of digits stands for no less than any of its beginnings.
proof fn lemma_decimal_value_grows(digits: Seq<char>, i: int)
    requires
        0 <= i <= digits.len(),
        all_ascii_digits(digits),
    ensures
        0 <= decimal_value(digits.take(i)) <= decimal_value(digits),
    decreases digits.len() - i,
{
    if i < digits.len() {
        lemma_decimal_value_step(digits, i);
        lemma_decimal_value_grows(digits, i + 1);
        assert(is_ascii_digit(digits[i]));
        lemma_decimal_value_nonnegative(digits.take(i), digits, i);
    } else {
        assert(digits.take(i) =~= digits);
        lemma_decimal_value_nonnegative(digits, digits, i);
    }
}

proof fn lemma_decimal_value_nonnegative(front: Seq<char>, digits: Seq<char>, i: int)
    requires
        0 <= i <= digits.len(),
        front == digits.take(i),
        all_ascii_digits(digits),
    ensures
        0 <= decimal_value(front),
    decreases i,
{
    if i > 0 {
        assert(front.drop_last() =~= digits.take(i - 1));
        lemma_decimal_value_nonnegative(front.drop_last(), digits, i - 1);
        assert(front.last() == digits[i - 1]);
        assert(is_ascii_digit(digits[i - 1]));
    }
}

/// Reads a number up to 255: decimal digits, with or without a plus sign
/// before them, and nothing else.
pub fn parse_u8(input: &str) -> (value: Option<u8>)
    ensures
        value == parsed_u8(input@),
{
    let chars = chars_of(input);
    let n = chars.len();
    let start: usize = if n > 0 && chars[0] == '+' {
        1
    } else {
        0
    };
    let ghost digits = unsigned_part(input@);
    assert(digits =~= input@.skip(start as int));
    if start == n {
        return None;
    }
    let mut sum: u32 = 0;
    let mut i: usize = start;
    while i < n
        invariant
            start <= i <= n,
            n == chars@.len(),
            chars@ == input@,
            digits == input@.skip(start as int),
            digits == unsigned_part(input@),
            forall|k: int| 0 <= k < i - start ==> is_ascii_digit(#[trigger] digits[k]),
            sum == decimal_value(digits.take(i - start)),
            sum <= 255,
        decreases n - i,
    {
        let ch = chars[i];
        assert(digits[i - start] == ch);
        if !('0' <= ch && ch <= '9') {
            return None;
        }
        let value: u32 = ((ch as u8) - 48) as u32;
        proof {
            lemma_decimal_value_step(digits, i - start);
        }
        let next: u32 = sum * 10 + value;
        if next > 255 {
            proof {
                if all_ascii_digits(digits) {
                    lemma_decimal_value_grows(digits, i - start + 1);
                }
            }
            return None;
        }
        sum = next;
        i += 1;
    }
    assert(digits.take(i - start) =~= digits);
    Some(sum as u8)
}

/// Reads the number of a column. Columns are counted from 1, so `1` gives
/// column 0 and `0` names no column.
pub fn get_column_number(input: &str) -> (column: Result<u8, InputError>)
    ensures
        column == column_number(input@),
{
    match parse_u8(input) {
        Some(num) => {
            if num > 0 {
                Ok(num - 1)
            } else {
                Err(InputError::InvalidInput)
            }
        },
        None => Err(InputError::InvalidInput),
    }
}

/// Reads a row and a column from one text, such as `A1` or `28bc`: the
/// letters name the row, the numbers the column.
pub fn parse_index(input: &str) -> (index: Result<(u8, u8), InputError>)
    ensures
        index == parsed_index(input@),
{
    let letters = letters_of(input);
    let numbers = numbers_of(input);
    let row = get_row_number(letters.as_str());
    let column = get_column_number(numbers.as_str());
    match (row, column) {
        (Ok(row), Ok(column)) => Ok((row, column)),
        _ => Err(InputError::InvalidInput),
    }
}

/// Writes the name of a row: `A` for row 0, `Z` for row 25, `AA` for row
/// 26, up to `IV` for row 255.
pub fn add_row_number(row: u8) -> (ret: String)
    ensures
        ret@ == row_label(row as int),
    decreases row,
{
    let mut ret = String::new();
    if row >= MAX_ASCII_CHARACTERS {
        ret = add_row_number(row / MAX_ASCII_CHARACTERS - 1);
    }
    let ascii_char = (row % MAX_ASCII_CHARACTERS) + FIRST_ASCII_CHARACTERS;
    string_push(&mut ret, ascii_char as char);
    proof {
        if row < 26 {
            assert(ret@ =~= seq![letter_at(row as int)]);
        }
    }
    ret
}

/// The name of a row has one or two letters between `A` and `Z`.
pub proof fn lemma_row_label_shape(row: u8)
    ensures
        row < 26 ==> row_label(row as int) == seq![letter_at(row as int)],
        row >= 26 ==> row_label(row as int) == seq![
            letter_at(row / 26 - 1),
            letter_at(row as int % 26),
        ],
{
    if row >= 26 {
        let first = row as int / 26 - 1;
        assert(0 <= first < 26);
        assert(row_label(first) == seq![letter_at(first)]);
        assert(row_label(row as int) =~= seq![letter_at(first), letter_at(row as int % 26)]);
    }
}

/// Reading the name of a row gives the row back: `get_row_number` undoes
/// `add_row_number` for every row from 0 to 255.
pub proof fn lemma_row_label_round_trip(row: u8)
    ensures
        row_number(row_label(row as int)) == Ok::<u8, InputError>(row),
{
    lemma_row_label_shape(row);
    let label = row_label(row as int);
    assert forall|i: int| 0 <= i < label.len() implies 'A' <= #[trigger] label[i] && label[i]
        <= 'Z' by {}
    assert(is_ascii_text(label)) by {
        assert forall|i: int| 0 <= i < label.len() implies crate::text::is_ascii_char(
            #[trigger] label[i],
        ) by {
            assert('A' <= label[i] && label[i] <= 'Z');
        }
    }
    lemma_utf8_length_bounds(label);
    assert(upper_ascii(label) =~= label) by {
        assert forall|i: int| 0 <= i < label.len() implies upper_ascii(label)[i] == label[i] by {
            assert('A' <= label[i] && label[i] <= 'Z');
        }
    }
    assert(uppercase(label) == label);
    assert(all_ascii_letters(label)) by {
        assert forall|i: int| 0 <= i < label.len() implies is_ascii_letter(#[trigger] label[i]) by {
            assert('A' <= label[i] && label[i] <= 'Z');
        }
    }
    if row >= 26 {
        let first = row as int / 26 - 1;
        let second = row as int % 26;
        assert(label.drop_last() =~= seq![letter_at(first)]);
        assert(letters_value(label.drop_last()) == first);
        assert(letters_value(label) == (1 + first) * 26 + second);
        assert(letters_value(label) == row);
    } else {
        assert(letters_value(label) == row);
    }
}

} // verus!
