//! The words the game listens for, and what a line of input asks for.

use vstd::prelude::*;
use vstd::string::StringExecFns;
use crate::text::{chars_of, lowercase, text_is, to_lowercase, trim, trimmed};

verus! {

/// Words for leaving the game.
pub const QUIT_COMMANDS: [&'static str; 3] = ["q", "quit", "exit"];

/// Words for the credits.
pub const CREDITS_COMMANDS: [&'static str; 2] = ["credits", "credit"];

/// Words for what the game is built from.
pub const ABOUT_COMMANDS: [&'static str; 1] = ["about"];

/// Words for the help.
pub const HELP_COMMANDS: [&'static str; 5] = ["help", "how", "how to", "?", "usage"];

/// Words for the statistics.
pub const STAT_COMMANDS: [&'static str; 2] = ["stat", "stats"];

/// Words for a new round.
pub const RESTART_COMMANDS: [&'static str; 1] = ["restart"];

/// Words for a hint.
pub const HINT_COMMANDS: [&'static str; 1] = ["hint"];

/// The short names of the board sizes, as the player is told them.
pub const MAP_SIZE: [&'static str; 4] = ["s", "m", "l", "xl"];

/// Words for the small board.
pub const MAP_SIZE_SMALL: [&'static str; 2] = ["s", "small"];

/// Words for the medium board.
pub const MAP_SIZE_MED: [&'static str; 2] = ["m", "medium"];

/// Words for the large board.
pub const MAP_SIZE_LARGE: [&'static str; 2] = ["l", "large"];

/// Words for the extra large board.
pub const MAP_SIZE_EX: [&'static str; 4] = ["xl", "xxl", "extra", "extra large"];

/// Words for no.
pub const POSSIBLE_INPUTS_NO: [&'static str; 4] = ["n", "no", "nah", "nope"];

/// Words for yes.
pub const POSSIBLE_INPUTS_YES: [&'static str; 3] = ["y", "yes", "yeah"];

/// The texts of a list of words.
pub open spec fn word_texts(words: Seq<&'static str>) -> Seq<Seq<char>> {
    Seq::new(words.len(), |i: int| words[i]@)
}

/// The word that a line of input stands for: without the white space
/// around it, in lower case.
pub open spec fn command_word(input: Seq<char>) -> Seq<char> {
    lowercase(trimmed(input))
}

/// The line, trimmed and in lower case, is one of the words.
pub open spec fn names_one_of(input: Seq<char>, words: Seq<&'static str>) -> bool {
    word_texts(words).contains(command_word(input))
}

/// Returns the word that a line of input stands for.
pub fn normalize(input: &str) -> (word: String)
    ensures
        word@ == command_word(input@),
{
    to_lowercase(trim(input))
}

/// Tells whether a text is one of the words of a list.
pub fn is_listed<const L: usize>(text: &[char], words: [&'static str; L]) -> (r: bool)
    ensures
        r == word_texts(words@).contains(text@),
{
    let ghost texts = word_texts(words@);
    let mut i: usize = 0;
    while i < L
        invariant
            i <= L,
            texts == word_texts(words@),
            forall|k: int| 0 <= k < i ==> texts[k] != text@,
        decreases L - i,
    {
        if text_is(text, words[i]) {
            assert(texts[i as int] == text@);
            return true;
        }
        i += 1;
    }
    false
}

/// Tells whether a line of input, trimmed and in lower case, is one of the
/// words of a list.
pub fn names<const L: usize>(input: &str, words: [&'static str; L]) -> (r: bool)
    ensures
        r == names_one_of(input@, words@),
{
    let word = normalize(input);
    let chars = chars_of(word.as_str());
    is_listed(chars.as_slice(), words)
}

/// The line asks to leave the game.
pub fn want_to_quit(input: &str) -> (r: bool)
    ensures
        r == names_one_of(input@, QUIT_COMMANDS@),
{
    names(input, QUIT_COMMANDS)
}

/// The line asks for help.
pub fn help(input: &str) -> (r: bool)
    ensures
        r == names_one_of(input@, HELP_COMMANDS@),
{
    names(input, HELP_COMMANDS)
}

/// The line asks for the statistics.
pub fn stat(input: &str) -> (r: bool)
    ensures
        r == names_one_of(input@, STAT_COMMANDS@),
{
    names(input, STAT_COMMANDS)
}

/// The line asks for the small board.
pub fn map_small(input: &str) -> (r: bool)
    ensures
        r == names_one_of(input@, MAP_SIZE_SMALL@),
{
    names(input, MAP_SIZE_SMALL)
}

/// The line asks for the medium board.
pub fn map_medium(input: &str) -> (r: bool)
    ensures
        r == names_one_of(input@, MAP_SIZE_MED@),
{
    names(input, MAP_SIZE_MED)
}

/// The line asks for the large board.
pub fn map_large(input: &str) -> (r: bool)
    ensures
        r == names_one_of(input@, MAP_SIZE_LARGE@),
{
    names(input, MAP_SIZE_LARGE)
}

/// The line asks for the extra large board.
pub fn map_extra(input: &str) -> (r: bool)
    ensures
        r == names_one_of(input@, MAP_SIZE_EX@),
{
    names(input, MAP_SIZE_EX)
}

/// The line asks for the credits.
pub fn credits(input: &str) -> (r: bool)
    ensures
        r == names_one_of(input@, CREDITS_COMMANDS@),
{
    names(input, CREDITS_COMMANDS)
}

/// The line asks what the game is built from.
pub fn about(input: &str) -> (r: bool)
    ensures
        r == names_one_of(input@, ABOUT_COMMANDS@),
{
    names(input, ABOUT_COMMANDS)
}

/// The line asks for a new round.
pub fn restart(input: &str) -> (r: bool)
    ensures
        r == names_one_of(input@, RESTART_COMMANDS@),
{
    names(input, RESTART_COMMANDS)
}

/// The line asks for a hint.
pub fn hint(input: &str) -> (r: bool)
    ensures
        r == names_one_of(input@, HINT_COMMANDS@),
{
    names(input, HINT_COMMANDS)
}

/// A word between single quotes.
pub open spec fn quoted(word: Seq<char>) -> Seq<char> {
    "'"@ + word + "'"@
}

/// What stands before word `i` of `count` words in a list: nothing before
/// the first, ", or " before the last, ", " before the others.
pub open spec fn separator(i: int, count: int) -> Seq<char> {
    if i <= 0 {
        Seq::empty()
    } else if i == count - 1 {
        ", or "@
    } else {
        ", "@
    }
}

/// The first `n` words of a list, each quoted, with their separators.
pub open spec fn joined_upto(words: Seq<&'static str>, n: int) -> Seq<char>
    decreases n,
{
    if n <= 0 {
        Seq::empty()
    } else {
        joined_upto(words, n - 1) + separator(n - 1, words.len() as int) + quoted(words[n - 1]@)
    }
}

/// The words of a list as a phrase: `'a', 'b', or 'c'`.
pub open spec fn joined(words: Seq<&'static str>) -> Seq<char> {
    joined_upto(words, words.len() as int)
}

/// Writes a list of words as a phrase: each word in single quotes, commas
/// between them, and "or" before the last.
pub fn join_tokens<const L: usize>(array: [&'static str; L]) -> (ret: String)
    ensures
        ret@ == joined(array@),
{
    let mut ret = String::new();
    let mut i: usize = 0;
    while i < L
        invariant
            i <= L,
            array@.len() == L,
            ret@ == joined_upto(array@, i as int),
        decreases L - i,
    {
        let ghost before = ret@;
        if i > 0 {
            if i == L - 1 {
                ret.append(", or ");
            } else {
                ret.append(", ");
            }
        }
        assert(ret@ == before + separator(i as int, L as int));
        ret.append("'");
        ret.append(array[i]);
        ret.append("'");
        assert(ret@ =~= before + separator(i as int, L as int) + quoted(array@[i as int]@));
        i += 1;
    }
    ret
}

/// What the player asks for when the game wants a board size.
#[derive(Clone, Copy, PartialEq, Eq, Structural, Debug)]
pub enum SizeChoice {
    Quit,
    Help,
    Credits,
    About,
    /// A board of so many columns and so many rows.
    Size(u8, u8),
    Unrecognized,
}

/// What a line means when the game wants a board size. The line is
/// trimmed and put in lower case, then held against the lists in turn.
pub open spec fn size_choice(input: Seq<char>) -> SizeChoice {
    let word = command_word(input);
    if names_one_of(word, QUIT_COMMANDS@) {
        SizeChoice::Quit
    } else if names_one_of(word, HELP_COMMANDS@) {
        SizeChoice::Help
    } else if names_one_of(word, CREDITS_COMMANDS@) {
        SizeChoice::Credits
    } else if names_one_of(word, ABOUT_COMMANDS@) {
        SizeChoice::About
    } else if names_one_of(word, MAP_SIZE_SMALL@) {
        SizeChoice::Size(6, 5)
    } else if names_one_of(word, MAP_SIZE_MED@) {
        SizeChoice::Size(10, 8)
    } else if names_one_of(word, MAP_SIZE_LARGE@) {
        SizeChoice::Size(15, 13)
    } else if names_one_of(word, MAP_SIZE_EX@) {
        SizeChoice::Size(35, 30)
    } else {
        SizeChoice::Unrecognized
    }
}

/// Reads an answer to the question for a board size.
pub fn choose_size(input: &str) -> (choice: SizeChoice)
    ensures
        choice == size_choice(input@),
{
    let word = normalize(input);
    let word = word.as_str();
    if want_to_quit(word) {
        SizeChoice::Quit
    } else if help(word) {
        SizeChoice::Help
    } else if credits(word) {
        SizeChoice::Credits
    } else if about(word) {
        SizeChoice::About
    } else if map_small(word) {
        SizeChoice::Size(6, 5)
    } else if map_medium(word) {
        SizeChoice::Size(10, 8)
    } else if map_large(word) {
        SizeChoice::Size(15, 13)
    } else if map_extra(word) {
        SizeChoice::Size(35, 30)
    } else {
        SizeChoice::Unrecognized
    }
}

/// What an answer to "start again?" means: yes, no, or no answer at all.
/// A word for leaving the game counts as no.
pub open spec fn again_answer(input: Seq<char>) -> Option<bool> {
    if names_one_of(input, QUIT_COMMANDS@) || names_one_of(input, POSSIBLE_INPUTS_NO@)
        || names_one_of(input, POSSIBLE_INPUTS_YES@) {
        Some(names_one_of(input, POSSIBLE_INPUTS_YES@))
    } else {
        None
    }
}

/// Reads an answer to "start again?". `None` asks for the question to be
/// put once more.
pub fn start_again_answer(input: &str) -> (answer: Option<bool>)
    ensures
        answer == again_answer(input@),
{
    if want_to_quit(input) || names(input, POSSIBLE_INPUTS_NO) || names(input, POSSIBLE_INPUTS_YES) {
        Some(names(input, POSSIBLE_INPUTS_YES))
    } else {
        None
    }
}

/// What a line means while a round is played.
#[derive(Clone, Copy, PartialEq, Eq, Structural, Debug)]
pub enum Command {
    Quit,
    Help,
    Stats,
    Credits,
    About,
    Restart,
    /// Anything else is taken for a move on the board.
    Move,
}

/// What a line means while a round is played: the lists are tried in turn.
pub open spec fn command_of(input: Seq<char>) -> Command {
    if names_one_of(input, QUIT_COMMANDS@) {
        Command::Quit
    } else if names_one_of(input, HELP_COMMANDS@) {
        Command::Help
    } else if names_one_of(input, STAT_COMMANDS@) {
        Command::Stats
    } else if names_one_of(input, CREDITS_COMMANDS@) {
        Command::Credits
    } else if names_one_of(input, ABOUT_COMMANDS@) {
        Command::About
    } else if names_one_of(input, RESTART_COMMANDS@) {
        Command::Restart
    } else {
        Command::Move
    }
}

/// Reads a line that the player typed while a round is played.
pub fn classify_command(input: &str) -> (command: Command)
    ensures
        command == command_of(input@),
{
    if want_to_quit(input) {
        Command::Quit
    } else if help(input) {
        Command::Help
    } else if stat(input) {
        Command::Stats
    } else if credits(input) {
        Command::Credits
    } else if about(input) {
        Command::About
    } else if restart(input) {
        Command::Restart
    } else {
        Command::Move
    }
}

} // verus!
