//! Drawing the board as pieces of text, each with its colour.
//!
//! Nothing is printed here: the pieces are returned in the order in which
//! they are to be written.

use vstd::prelude::*;
use vstd::string::StringExecFns;
use crate::coordinates::{add_row_number, row_label};
use crate::grid::board;
use crate::text::string_push;
use crate::tile::TileState;

verus! {

/// The colour of a piece of text.
#[derive(Clone, Copy, PartialEq, Eq, Structural, Debug)]
pub enum TextColor {
    Plain,
    Blue,
    Green,
    Yellow,
    Red,
    Magenta,
    Cyan,
    DarkYellow,
    DarkRed,
}

/// A piece of text and its colour.
#[derive(Clone, Debug)]
pub struct StyledText {
    pub text: String,
    pub color: TextColor,
}

/// A piece of text and its colour, in contracts.
pub struct Styled {
    pub text: Seq<char>,
    pub color: TextColor,
}

impl View for StyledText {
    type V = Styled;

    open spec fn view(&self) -> Styled {
        Styled { text: self.text@, color: self.color }
    }
}

/// What a list of pieces shows.
pub open spec fn styled(pieces: Seq<StyledText>) -> Seq<Styled> {
    Seq::new(pieces.len(), |i: int| pieces[i]@)
}

/// A piece without colour.
pub open spec fn plain(text: Seq<char>) -> Styled {
    Styled { text, color: TextColor::Plain }
}

/// The number of digits of a number from 1 to 255, less one.
pub open spec fn extra_digits(n: int) -> int {
    if n < 10 {
        0
    } else if n < 100 {
        1
    } else {
        2
    }
}

/// The character of a digit.
pub open spec fn digit_char(d: int) -> char {
    ((d + 48) as u8) as char
}

/// A number from 0 to 255 in decimal digits.
pub open spec fn decimal_text(n: int) -> Seq<char> {
    if n < 10 {
        seq![digit_char(n)]
    } else if n < 100 {
        seq![digit_char(n / 10), digit_char(n % 10)]
    } else {
        seq![digit_char(n / 100), digit_char((n / 10) % 10), digit_char(n % 10)]
    }
}

/// So many spaces.
pub open spec fn blanks(count: int) -> Seq<char> {
    Seq::new(count as nat, |i: int| ' ')
}

/// The label of column `n`, counted from 1, on a board of `width` columns:
/// the number, then spaces up to the width of the longest label and one
/// more.
pub open spec fn column_label(n: int, width: int) -> Seq<char> {
    decimal_text(n) + blanks(extra_digits(width) + 1 - extra_digits(n))
}

/// The first line up to column `n`.
pub open spec fn header_upto(n: int, width: int) -> Seq<char>
    decreases n,
{
    if n <= 0 {
        seq![' ']
    } else {
        header_upto(n - 1, width) + column_label(n, width)
    }
}

/// The first line of the drawing: the numbers of the columns from 1.
/// A board without columns has an empty first line.
pub open spec fn header_line(width: int) -> Seq<char> {
    if width == 0 {
        Seq::empty()
    } else {
        header_upto(width, width)
    }
}

/// The colour of a count on an uncovered tile.
pub open spec fn count_color(n: u8) -> TextColor {
    if n == 1 {
        TextColor::Blue
    } else if n == 2 {
        TextColor::Green
    } else if n == 3 {
        TextColor::Yellow
    } else if n == 4 {
        TextColor::Red
    } else if n == 5 {
        TextColor::Magenta
    } else if n == 6 {
        TextColor::Cyan
    } else if n == 7 {
        TextColor::DarkYellow
    } else if n == 8 {
        TextColor::DarkRed
    } else {
        TextColor::Plain
    }
}

/// What stands for a tile, as no piece or one.
///
/// While a round is played `mine_char` is a space: mines look like covered
/// tiles, a defuser is a dot, a suspicion a question mark, and the counts
/// are coloured. Once the round is over `mine_char` shows the mines, also
/// under their flags, and a defuser on a safe tile is an `M`.
pub open spec fn tile_pieces(tile: TileState, mine_char: char, show_revealed: bool) -> Seq<Styled> {
    match tile {
        TileState::Mine => seq![plain(seq![mine_char])],
        TileState::Explosion => seq![plain(seq![mine_char])],
        TileState::Marked(n) => if mine_char == ' ' {
            seq![plain(seq!['.'])]
        } else if n < 0 {
            seq![plain(seq![mine_char])]
        } else {
            seq![plain(seq!['M'])]
        },
        TileState::HiddenEmpty(_) => seq![plain(seq![' '])],
        TileState::VisibleEmpty(n) => if !show_revealed {
            seq![plain(seq![' '])]
        } else if n == 0 || mine_char != ' ' {
            seq![plain(decimal_text(n as int))]
        } else if n <= 8 {
            seq![Styled { text: decimal_text(n as int), color: count_color(n) }]
        } else {
            Seq::empty()
        },
        TileState::Question(n) => if mine_char == ' ' {
            seq![plain(seq!['?'])]
        } else if n < 0 {
            seq![plain(seq![mine_char])]
        } else {
            seq![plain(seq!['?'])]
        },
    }
}

/// What follows each tile of a line, and opens the line: a bar and the
/// spaces that keep the columns under their labels.
pub open spec fn fence(width: int) -> Seq<Styled> {
    seq![plain(seq!['|']), plain(blanks(extra_digits(width)))]
}

/// The line of a row up to tile `k`.
pub open spec fn line_upto(
    row: Seq<TileState>,
    k: int,
    mine_char: char,
    show_revealed: bool,
) -> Seq<Styled>
    decreases k,
{
    if k <= 0 {
        fence(row.len() as int)
    } else {
        line_upto(row, k - 1, mine_char, show_revealed) + tile_pieces(
            row[k - 1],
            mine_char,
            show_revealed,
        ) + fence(row.len() as int)
    }
}

/// The line of a row.
pub open spec fn line_pieces(row: Seq<TileState>, mine_char: char, show_revealed: bool) -> Seq<
    Styled,
> {
    line_upto(row, row.len() as int, mine_char, show_revealed)
}

/// What ends the line of row `i`: a space, the name of the row, a line
/// break.
pub open spec fn line_end(i: int) -> Seq<Styled> {
    seq![plain(seq![' ']), plain(row_label(i)), plain(seq!['\n'])]
}

/// The drawing up to row `k`.
pub open spec fn drawing_upto(
    b: Seq<Seq<TileState>>,
    k: int,
    mine_char: char,
    show_revealed: bool,
) -> Seq<Styled>
    decreases k,
{
    if k <= 0 {
        seq![plain(header_line(b[0].len() as int)), plain(seq!['\n'])]
    } else {
        drawing_upto(b, k - 1, mine_char, show_revealed) + line_pieces(
            b[k - 1],
            mine_char,
            show_revealed,
        ) + line_end(k - 1)
    }
}

/// The drawing of a board: the first line, then the rows.
pub open spec fn drawing(b: Seq<Seq<TileState>>, mine_char: char, show_revealed: bool) -> Seq<
    Styled,
> {
    drawing_upto(b, b.len() as int, mine_char, show_revealed)
}

/// Returns the number of digits of `width`, less one.
pub fn number_of_spaces(width: u8) -> (log: u8)
    requires
        width > 0,
    ensures
        log == extra_digits(width as int),
{
    if width < 10 {
        0
    } else if width < 100 {
        1
    } else {
        2
    }
}

/// Writes a number in decimal digits.
pub fn number_text(n: u8) -> (text: String)
    ensures
        text@ == decimal_text(n as int),
{
    let mut text = String::new();
    if n >= 100 {
        string_push(&mut text, (n / 100 + 48) as char);
    }
    if n >= 10 {
        string_push(&mut text, ((n / 10) % 10 + 48) as char);
    }
    string_push(&mut text, (n % 10 + 48) as char);
    assert(text@ =~= decimal_text(n as int));
    text
}

/// Writes so many spaces.
pub fn spaces(count: u8) -> (text: String)
    ensures
        text@ == blanks(count as int),
{
    let mut text = String::new();
    let mut i: u8 = 0;
    while i < count
        invariant
            i <= count,
            text@ == blanks(i as int),
        decreases count - i,
    {
        string_push(&mut text, ' ');
        assert(text@ =~= blanks(i + 1));
        i += 1;
    }
    text
}

/// Writes the first line of the drawing, with the numbers of the columns.
/// The line is empty for a board without columns.
pub fn add_first_line(width: u8) -> (line: String)
    ensures
        line@ == header_line(width as int),
{
    let mut line = String::new();
    if width == 0 {
        return line;
    }
    let longest = number_of_spaces(width) + 1;
    string_push(&mut line, ' ');
    assert(line@ =~= header_upto(0, width as int));
    let mut number: u8 = 0;
    while number < width
        invariant
            number <= width,
            width > 0,
            longest == extra_digits(width as int) + 1,
            line@ == header_upto(number as int, width as int),
        decreases width - number,
    {
        let ghost before = line@;
        let label = number_text(number + 1);
        line.append(label.as_str());
        let digits = number_of_spaces(number + 1);
        let gap = spaces(longest - digits);
        line.append(gap.as_str());
        assert(line@ =~= before + column_label(number + 1, width as int));
        number += 1;
    }
    line
}

/// Makes a piece without colour.
fn plain_piece(text: String) -> (piece: StyledText)
    ensures
        piece@ == plain(text@),
{
    StyledText { text, color: TextColor::Plain }
}

/// Makes a piece of one character, without colour.
fn char_piece(c: char) -> (piece: StyledText)
    ensures
        piece@ == plain(seq![c]),
{
    let mut text = String::new();
    string_push(&mut text, c);
    assert(text@ =~= seq![c]);
    StyledText { text, color: TextColor::Plain }
}

/// Chooses the colour of a count.
pub fn color_of_count(n: u8) -> (color: TextColor)
    ensures
        color == count_color(n),
{
    if n == 1 {
        TextColor::Blue
    } else if n == 2 {
        TextColor::Green
    } else if n == 3 {
        TextColor::Yellow
    } else if n == 4 {
        TextColor::Red
    } else if n == 5 {
        TextColor::Magenta
    } else if n == 6 {
        TextColor::Cyan
    } else if n == 7 {
        TextColor::DarkYellow
    } else if n == 8 {
        TextColor::DarkRed
    } else {
        TextColor::Plain
    }
}

proof fn lemma_styled_push(pieces: Seq<StyledText>, piece: StyledText)
    ensures
        styled(pieces.push(piece)) == styled(pieces) + seq![piece@],
{
    assert(styled(pieces.push(piece)) =~= styled(pieces) + seq![piece@]);
}

/// Adds a piece to a list.
fn push_piece(pieces: &mut Vec<StyledText>, piece: StyledText)
    ensures
        styled(final(pieces)@) == styled(old(pieces)@) + seq![piece@],
{
    proof {
        lemma_styled_push(pieces@, piece);
    }
    pieces.push(piece);
}

/// Adds what stands for one tile to a list of pieces.
fn push_tile(
    pieces: &mut Vec<StyledText>,
    tile: TileState,
    mine_char: char,
    show_revealed: bool,
)
    ensures
        styled(final(pieces)@) == styled(old(pieces)@) + tile_pieces(tile, mine_char, show_revealed),
{
    let ghost before = styled(pieces@);
    match tile {
        TileState::Mine => push_piece(pieces, char_piece(mine_char)),
        TileState::Explosion => push_piece(pieces, char_piece(mine_char)),
        TileState::Marked(num) => {
            if mine_char == ' ' {
                push_piece(pieces, char_piece('.'))
            } else if num < 0 {
                push_piece(pieces, char_piece(mine_char))
            } else {
                push_piece(pieces, char_piece('M'))
            }
        },
        TileState::HiddenEmpty(_) => push_piece(pieces, char_piece(' ')),
        TileState::VisibleEmpty(num) => {
            if show_revealed {
                if num == 0 || mine_char != ' ' {
                    push_piece(pieces, plain_piece(number_text(num)))
                } else if num <= 8 {
                    push_piece(
                        pieces,
                        StyledText { text: number_text(num), color: color_of_count(num) },
                    )
                } else {
                    assert(before =~= before + Seq::<Styled>::empty());
                }
            } else {
                push_piece(pieces, char_piece(' '))
            }
        },
        TileState::Question(num) => {
            if mine_char == ' ' {
                push_piece(pieces, char_piece('?'))
            } else if num < 0 {
                push_piece(pieces, char_piece(mine_char))
            } else {
                push_piece(pieces, char_piece('?'))
            }
        },
    }
}

/// Adds a bar and the spaces after it to a list of pieces.
fn push_fence(pieces: &mut Vec<StyledText>, gap: u8, Ghost(width): Ghost<int>)
    requires
        gap == extra_digits(width),
    ensures
        styled(final(pieces)@) == styled(old(pieces)@) + fence(width),
{
    let ghost before = styled(pieces@);
    push_piece(pieces, char_piece('|'));
    push_piece(pieces, plain_piece(spaces(gap)));
    assert(styled(pieces@) =~= before + fence(width));
}

/// Draws one row: a bar, then each tile followed by a bar.
pub fn generate_line(mine_line: &Vec<TileState>, mine_char: char, show_revealed: bool) -> (line:
    Vec<StyledText>)
    requires
        0 < mine_line.len() <= 255,
    ensures
        styled(line@) == line_pieces(mine_line@, mine_char, show_revealed),
{
    let mut styled_line: Vec<StyledText> = Vec::new();
    let gap = number_of_spaces(mine_line.len() as u8);
    let ghost width = mine_line.len() as int;
    push_fence(&mut styled_line, gap, Ghost(width));
    assert(styled(styled_line@) =~= line_upto(mine_line@, 0, mine_char, show_revealed));
    let mut i: usize = 0;
    while i < mine_line.len()
        invariant
            i <= mine_line.len(),
            width == mine_line.len(),
            gap == extra_digits(width),
            styled(styled_line@) == line_upto(mine_line@, i as int, mine_char, show_revealed),
        decreases mine_line.len() - i,
    {
        let ghost before = styled(styled_line@);
        push_tile(&mut styled_line, mine_line[i], mine_char, show_revealed);
        push_fence(&mut styled_line, gap, Ghost(width));
        assert(styled(styled_line@) =~= before + tile_pieces(
            mine_line@[i as int],
            mine_char,
            show_revealed,
        ) + fence(width));
        i += 1;
    }
    styled_line
}

/// Adds the pieces of one list to another.
fn push_all(pieces: &mut Vec<StyledText>, more: Vec<StyledText>)
    ensures
        styled(final(pieces)@) == styled(old(pieces)@) + styled(more@),
{
    let ghost before = styled(pieces@);
    let mut more = more;
    let ghost added = more@;
    pieces.append(&mut more);
    assert(styled(pieces@) =~= before + styled(added));
}

/// Draws the board: the first line with the numbers of the columns, then
/// each row with its name at the end.
pub fn render_map(mine_map: &Vec<Vec<TileState>>, mine_char: char, show_revealed: bool) -> (map:
    Vec<StyledText>)
    requires
        0 < mine_map.len() <= 255,
        forall|i: int| 0 <= i < mine_map.len() ==> 0 < (#[trigger] mine_map[i]).len() <= 255,
    ensures
        styled(map@) == drawing(board(mine_map), mine_char, show_revealed),
{
    let ghost b = board(mine_map);
    let mut map: Vec<StyledText> = Vec::new();
    push_piece(&mut map, plain_piece(add_first_line(mine_map[0].len() as u8)));
    push_piece(&mut map, char_piece('\n'));
    assert(styled(map@) =~= drawing_upto(b, 0, mine_char, show_revealed));
    let mut row: u8 = 0;
    while (row as usize) < mine_map.len()
        invariant
            row <= mine_map.len() <= 255,
            b == board(mine_map),
            forall|i: int| 0 <= i < mine_map.len() ==> 0 < (#[trigger] mine_map[i]).len() <= 255,
            styled(map@) == drawing_upto(b, row as int, mine_char, show_revealed),
        decreases mine_map.len() - row,
    {
        let ghost before = styled(map@);
        push_all(&mut map, generate_line(&mine_map[row as usize], mine_char, show_revealed));
        push_piece(&mut map, char_piece(' '));
        push_piece(&mut map, plain_piece(add_row_number(row)));
        push_piece(&mut map, char_piece('\n'));
        assert(styled(map@) =~= before + line_pieces(b[row as int], mine_char, show_revealed)
            + line_end(row as int));
        row += 1;
    }
    map
}

} // verus!
