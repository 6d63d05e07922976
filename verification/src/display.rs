use crate::board::{Board, Grid};
use crate::piece::{AnyPiece, Piece, PieceType};
use crate::rules::two_players_only;
use crate::tile::Tile;
use vstd::prelude::*;

verus! {

/// The greatest number of columns whose files all have a letter: the letter
/// of a column is the character that many codes after `A`, and the codes of
/// characters end, for the first time, before `0xD800`.
pub const MAX_FILES: usize = 0xD800 - 0x41;

/// The character of a digit.
pub open spec fn digit_char(digit: int) -> char {
    (0x30 + digit) as char
}

/// A number in decimal digits, without leading zeros.
pub open spec fn decimal(number: nat) -> Seq<char>
    decreases number,
{
    if number < 10 {
        seq![digit_char(number as int)]
    } else {
        decimal(number / 10).push(digit_char((number % 10) as int))
    }
}

/// That many spaces.
pub open spec fn spaces(count: nat) -> Seq<char> {
    Seq::new(count, |i: int| ' ')
}

/// The letter of a column: `A` for the first, and for each next column the
/// character with the next code.
pub open spec fn file_letter(col: int) -> char {
    (0x41 + col) as char
}

/// The letters of the first `columns` columns, two spaces before each.
pub open spec fn file_names(columns: nat) -> Seq<char>
    decreases columns,
{
    if columns == 0 {
        Seq::empty()
    } else {
        file_names((columns - 1) as nat) + seq![' ', ' ', file_letter(columns - 1)]
    }
}

/// The line that names the columns.
pub open spec fn file_line(columns: nat, padding: nat) -> Seq<char> {
    spaces(padding) + file_names(columns) + seq!['\n']
}

/// The character that shows what a tile holds: a space for nothing, `r` and
/// `R` for a man and a king of player 1, `b` and `B` for those of player 2.
pub open spec fn piece_char(piece: Option<AnyPiece>) -> char {
    match piece {
        None => ' ',
        Some(p) => match (p.kind(), p.owner() == 1) {
            (PieceType::Man, true) => 'r',
            (PieceType::King, true) => 'R',
            (PieceType::Man, false) => 'b',
            (PieceType::King, false) => 'B',
        },
    }
}

/// The tiles of the first `columns` columns of a row, each between square
/// brackets.
pub open spec fn tiles_text(grid: Grid, row: int, columns: nat) -> Seq<char>
    decreases columns,
{
    if columns == 0 {
        Seq::empty()
    } else {
        tiles_text(grid, row, (columns - 1) as nat) + seq![
            '[',
            piece_char(grid.at(row, columns - 1)),
            ']',
        ]
    }
}

/// The number of a rank, moved to the right to fill `padding` characters,
/// and a space.
pub open spec fn rank_label(rank: nat, padding: nat) -> Seq<char> {
    spaces((padding - decimal(rank).len()) as nat) + decimal(rank) + seq![' ']
}

/// The line of a row: the number of its rank, its tiles, and the number
/// again.
pub open spec fn rank_line(grid: Grid, row: int, padding: nat) -> Seq<char> {
    rank_label((row + 1) as nat, padding) + tiles_text(grid, row, grid.columns) + seq![' ']
        + decimal((row + 1) as nat) + seq!['\n']
}

/// The lines of the first `rows` rows, the highest row first.
pub open spec fn rank_lines(grid: Grid, rows: nat, padding: nat) -> Seq<char>
    decreases rows,
{
    if rows == 0 {
        Seq::empty()
    } else {
        rank_line(grid, rows - 1, padding) + rank_lines(grid, (rows - 1) as nat, padding)
    }
}

/// The board as text: the line of the column names, the rows from the
/// highest to the lowest, and the line of the column names again.
pub open spec fn board_text(grid: Grid) -> Seq<char> {
    file_line(grid.columns, decimal(grid.columns).len()) + rank_lines(
        grid,
        grid.rows,
        decimal(grid.rows).len(),
    ) + file_line(grid.columns, decimal(grid.columns).len())
}

/// A greater number has no fewer digits.
pub proof fn lemma_decimal_len(smaller: nat, greater: nat)
    requires
        smaller <= greater,
    ensures
        1 <= decimal(smaller).len() <= decimal(greater).len(),
    decreases greater,
{
    if greater >= 10 {
        if smaller >= 10 {
            lemma_decimal_len(smaller / 10, greater / 10);
        } else {
            lemma_decimal_len(0, greater / 10);
        }
    }
}

// the number of decimal digits of a number
fn decimal_width(number: usize) -> (width: usize)
    ensures
        width == decimal(number as nat).len(),
        1 <= width <= number + 1,
    decreases number,
{
    if number < 10 {
        1
    } else {
        let shorter: usize = decimal_width(number / 10);
        shorter + 1
    }
}

// appends a number in decimal digits
fn print_decimal(writer: &mut String, number: usize)
    ensures
        final(writer)@ == old(writer)@ + decimal(number as nat),
    decreases number,
{
    if number >= 10 {
        print_decimal(writer, number / 10);
    }
    let digit: u8 = (number % 10) as u8;
    let ch: char = (0x30u8 + digit) as char;
    writer.push(ch);
    proof {
        assert(ch == digit_char((number % 10) as int));
        assert(writer@ =~= old(writer)@ + decimal(number as nat));
    }
}

// appends that many spaces
fn print_spaces(writer: &mut String, count: usize)
    ensures
        final(writer)@ == old(writer)@ + spaces(count as nat),
{
    let mut i: usize = 0;
    while i < count
        invariant
            i <= count,
            writer@ == old(writer)@ + spaces(i as nat),
        decreases count - i,
    {
        writer.push(' ');
        proof {
            assert(writer@ =~= old(writer)@ + spaces((i + 1) as nat));
        }
        i += 1;
    }
}

fn print_justified_file(writer: &mut String, columns: usize, padding: usize)
    requires
        columns <= MAX_FILES,
    ensures
        final(writer)@ == old(writer)@ + file_line(columns as nat, padding as nat),
{
    print_spaces(writer, padding);

    let initial_file: u32 = 0x41;
    let mut c: usize = 0;
    while c < columns
        invariant
            c <= columns,
            columns <= MAX_FILES,
            initial_file == 0x41,
            writer@ == old(writer)@ + spaces(padding as nat) + file_names(c as nat),
        decreases columns - c,
    {
        let file = char::from_u32(initial_file + c as u32).unwrap();
        writer.push(' ');
        writer.push(' ');
        writer.push(file);
        proof {
            assert(file == file_letter(c as int));
            assert(writer@ =~= old(writer)@ + spaces(padding as nat) + file_names((c + 1) as nat));
        }
        c += 1;
    }

    writer.push('\n');
    proof {
        assert(writer@ =~= old(writer)@ + file_line(columns as nat, padding as nat));
    }
}

fn print_justified_rank(writer: &mut String, rank: usize, padding: usize)
    requires
        decimal(rank as nat).len() <= padding,
    ensures
        final(writer)@ == old(writer)@ + rank_label(rank as nat, padding as nat),
{
    let width: usize = decimal_width(rank);

    print_spaces(writer, padding - width);
    print_decimal(writer, rank);
    writer.push(' ');
    proof {
        assert(writer@ =~= old(writer)@ + rank_label(rank as nat, padding as nat));
    }
}

/// Appends the board as text to what the writer holds: a line that names
/// the columns, then the rows from the highest to the lowest, each with the
/// number of its rank before and after its tiles, then the line of the
/// column names again.
pub fn print_board(writer: &mut String, board: &Board)
    requires
        board.wf(),
        board@.columns <= MAX_FILES,
        two_players_only(board@),
    ensures
        final(writer)@ == old(writer)@ + board_text(board@),
{
    let number_rows: usize = board.number_rows();
    let number_columns: usize = board.number_columns();
    let file_padding: usize = decimal_width(number_columns);
    let rank_padding: usize = decimal_width(number_rows);
    let ghost grid = board@;
    let ghost start = writer@;

    print_justified_file(writer, number_columns, file_padding);
    let ghost head = writer@;

    let mut r: usize = number_rows;
    while r > 0
        invariant
            r <= number_rows,
            board.wf(),
            grid == board@,
            number_rows == grid.rows,
            number_columns == grid.columns,
            rank_padding == decimal(grid.rows).len(),
            two_players_only(grid),
            head + rank_lines(grid, grid.rows, rank_padding as nat) == writer@ + rank_lines(
                grid,
                r as nat,
                rank_padding as nat,
            ),
        decreases r,
    {
        r -= 1;
        let ghost before = writer@;
        proof {
            lemma_decimal_len((r + 1) as nat, number_rows as nat);
        }
        print_justified_rank(writer, r + 1, rank_padding);
        let ghost labelled = writer@;
        let mut c: usize = 0;
        while c < number_columns
            invariant
                r < number_rows,
                c <= number_columns,
                board.wf(),
                grid == board@,
                number_rows == grid.rows,
                number_columns == grid.columns,
                two_players_only(grid),
                writer@ == labelled + tiles_text(grid, r as int, c as nat),
            decreases number_columns - c,
        {
            let tile = board.get_tile(r, c);
            let piece_char: char = match tile.get_piece() {
                None => ' ',
                Some(piece) => match (piece.get_type(), piece.get_player_id()) {
                    (PieceType::Man, 1) => 'r',
                    (PieceType::King, 1) => 'R',
                    (PieceType::Man, _) => 'b',
                    (PieceType::King, _) => 'B',
                },
            };

            writer.push('[');
            writer.push(piece_char);
            writer.push(']');
            proof {
                assert(writer@ =~= labelled + tiles_text(grid, r as int, (c + 1) as nat));
            }
            c += 1;
        }
        writer.push(' ');
        print_decimal(writer, r + 1);
        writer.push('\n');
        proof {
            assert(writer@ =~= before + rank_line(grid, r as int, rank_padding as nat));
            assert(writer@ + rank_lines(grid, r as nat, rank_padding as nat) =~= before + rank_lines(
                grid,
                (r + 1) as nat,
                rank_padding as nat,
            ));
        }
    }

    print_justified_file(writer, number_columns, file_padding);
    proof {
        assert(rank_lines(grid, 0, rank_padding as nat) =~= Seq::<char>::empty());
        assert(writer@ =~= start + board_text(grid));
    }
}

/// The colour under which a player is shown.
#[derive(Clone, Copy, Debug, PartialEq, Eq, Structural)]
pub enum PlayerColor {
    Red,
    Black,
}

/// The colour of a player: red for player 1, black for player 2.
pub fn player_id_to_color(player_id: u32) -> (color: PlayerColor)
    requires
        player_id == 1 || player_id == 2,
    ensures
        color == if player_id == 1 {
            PlayerColor::Red
        } else {
            PlayerColor::Black
        },
{
    match player_id {
        1 => PlayerColor::Red,
        _ => PlayerColor::Black,
    }
}

/// The name of a colour.
pub fn player_color_to_name(color: PlayerColor) -> (name: &'static str)
    ensures
        name@ == match color {
            PlayerColor::Red => "Red"@,
            PlayerColor::Black => "Black"@,
        },
{
    match color {
        PlayerColor::Red => "Red",
        PlayerColor::Black => "Black",
    }
}

} // verus!
