//! Conversions between a flat square index, a (row, column) pair and the
//! letter-and-rank notation that players type.

use vstd::prelude::*;

verus! {

/// The flat index of the square at `row`, `col`; row 0 is White's back rank.
pub open spec fn square_of(row: int, col: int) -> int {
    row * 8 + col
}

/// The (row, column) pair of the flat index `s`.
pub open spec fn row_col_of(s: int) -> (int, int) {
    (s / 8, s % 8)
}

/// The file letter of column `col`, or a blank for a column off the board.
pub open spec fn file_letter(col: int) -> char {
    if col == 0 {
        'a'
    } else if col == 1 {
        'b'
    } else if col == 2 {
        'c'
    } else if col == 3 {
        'd'
    } else if col == 4 {
        'e'
    } else if col == 5 {
        'f'
    } else if col == 6 {
        'g'
    } else if col == 7 {
        'h'
    } else {
        ' '
    }
}

/// The column a file letter names, if it names one.
pub open spec fn column_of_letter(ch: char) -> Option<int> {
    if 'a' <= ch && ch <= 'h' {
        Some(ch as int - 'a' as int)
    } else {
        None
    }
}

/// The (row, column) pair that `text` names, if it starts with a file letter
/// followed by a rank digit from 1 to 8.
pub open spec fn square_named(text: Seq<char>) -> Option<(int, int)> {
    if text.len() >= 2 && column_of_letter(text[0]) is Some && '1' <= text[1] && text[1] <= '8' {
        Some((text[1] as int - '1' as int, column_of_letter(text[0])->0))
    } else {
        None
    }
}

pub fn square_to_row_column(square: u32) -> (r: (u32, u32))
    ensures
        (r.0 as int, r.1 as int) == row_col_of(square as int),
{
    (square / 8, square % 8)
}

pub fn row_column_to_square(rc: (u32, u32)) -> (r: u32)
    requires
        square_of(rc.0 as int, rc.1 as int) <= u32::MAX,
    ensures
        r as int == square_of(rc.0 as int, rc.1 as int),
{
    rc.0 * 8 + rc.1
}

/// The letter and rank number under which a player reads the square.
pub fn convert_row_column_to_output(row: u32, column: u32) -> (r: (char, u32))
    requires
        row < u32::MAX,
    ensures
        r.0 == file_letter(column as int),
        r.1 == row + 1,
{
    let letter = match column {
        0 => 'a',
        1 => 'b',
        2 => 'c',
        3 => 'd',
        4 => 'e',
        5 => 'f',
        6 => 'g',
        7 => 'h',
        _ => ' ',
    };
    (letter, row + 1)
}

/// Reads a square written as a file letter and a rank digit ("e4"); any
/// text after those two characters is ignored. A square off the board is
/// rejected, never clamped.
pub fn parse_square(text: &Vec<char>) -> (r: Option<(u32, u32)>)
    ensures
        r matches Some(rc) ==> square_named(text@) == Some((rc.0 as int, rc.1 as int)),
        r is None <==> square_named(text@) is None,
{
    if text.len() < 2 {
        return None;
    }
    let letter = text[0];
    let digit = text[1];
    if 'a' <= letter && letter <= 'h' && '1' <= digit && digit <= '8' {
        Some(((digit as u32) - ('1' as u32), (letter as u32) - ('a' as u32)))
    } else {
        None
    }
}

/// Every on-board (row, column) pair and its flat index convert into each
/// other without loss.
pub proof fn lemma_square_bijection(row: int, col: int, s: int)
    requires
        0 <= row < 8,
        0 <= col < 8,
        0 <= s,
    ensures
        row_col_of(square_of(row, col)) == (row, col),
        square_of(row_col_of(s).0, row_col_of(s).1) == s,
{
    assert((row * 8 + col) / 8 == row && (row * 8 + col) % 8 == col) by (nonlinear_arith)
        requires
            0 <= row < 8,
            0 <= col < 8,
    ;
    assert((s / 8) * 8 + s % 8 == s) by (nonlinear_arith)
        requires
            0 <= s,
    ;
}

} // verus!
