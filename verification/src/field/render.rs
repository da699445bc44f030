//! The board as text: what the player sees during a game, and the board with
//! everything uncovered.

use vstd::prelude::*;
use vstd::string::StringExecFns;
use crate::field::grid::{coords_of, spec_size};
use crate::field::model::{flag_total, FieldView};
use crate::field::tile::Tile;
use crate::field::Field;

verus! {

/// The character for a single decimal digit.
pub open spec fn digit(d: nat) -> char {
    if d == 0 {
        '0'
    } else if d == 1 {
        '1'
    } else if d == 2 {
        '2'
    } else if d == 3 {
        '3'
    } else if d == 4 {
        '4'
    } else if d == 5 {
        '5'
    } else if d == 6 {
        '6'
    } else if d == 7 {
        '7'
    } else if d == 8 {
        '8'
    } else {
        '9'
    }
}

/// The decimal digits of `n`, without leading zeros.
pub open spec fn decimal(n: nat) -> Seq<char>
    decreases n,
{
    if n < 10 {
        seq![digit(n)]
    } else {
        decimal(n / 10).push(digit(n % 10))
    }
}

/// Calls `itoa::Buffer::format`, which writes an integer as a decimal string,
/// on a fresh `itoa::Buffer`. That the string holds the decimal digits of `n`
/// is taken from the crate's documentation, not proved.
#[verifier::external_body]
pub(crate) fn decimal_text(n: u16) -> (text: String)
    ensures
        text@ == decimal(n as nat),
{
    itoa::Buffer::new().format(n).to_string()
}

/// What the player sees of a cell: `F` for a flag, `?` for the "unknown"
/// marker, a blank for a hidden cell, and for a disclosed cell `M` if it is a
/// mine and its count if not.
pub open spec fn symbol(t: Tile) -> Seq<char> {
    if t.flag {
        "F"@
    } else if t.unknown {
        "?"@
    } else if t.revealed {
        uncovered_symbol(t)
    } else {
        " "@
    }
}

/// What a cell holds: `M` for a mine, else its count.
pub open spec fn uncovered_symbol(t: Tile) -> Seq<char> {
    if t.is_mine {
        "M"@
    } else {
        decimal(t.value as nat)
    }
}

/// The column numbers above the first `n` columns: each number, counted
/// from one, after a blank and before a bar.
pub open spec fn column_numbers(n: nat) -> Seq<char>
    decreases n,
{
    if n == 0 {
        Seq::empty()
    } else {
        column_numbers((n - 1) as nat) + " "@ + decimal(n) + "|"@
    }
}

/// What follows the last cell of a row in the player's view: a line break,
/// and, unless it was the last row, the number of the next row and a bar.
pub open spec fn row_end(board: FieldView, i: int) -> Seq<char> {
    if i % (board.limit.x as int) == board.limit.x - 1 {
        if i / (board.limit.x as int) + 1 < board.limit.y {
            "\n"@ + decimal((i / (board.limit.x as int) + 2) as nat) + "|"@
        } else {
            "\n"@
        }
    } else {
        Seq::empty()
    }
}

/// The player's view of the first `n` cells in storage order: each cell's
/// symbol in square brackets, rows ended as `row_end` says.
pub open spec fn cells_text(board: FieldView, n: nat) -> Seq<char>
    decreases n,
{
    if n == 0 {
        Seq::empty()
    } else {
        cells_text(board, (n - 1) as nat) + "["@ + symbol(board.tiles[n - 1]) + "]"@ + row_end(
            board,
            n - 1,
        )
    }
}

/// The first `n` cells in storage order with everything uncovered: each
/// cell's content in square brackets, and a line break after each row.
pub open spec fn uncovered_text(board: FieldView, n: nat) -> Seq<char>
    decreases n,
{
    if n == 0 {
        Seq::empty()
    } else {
        uncovered_text(board, (n - 1) as nat) + "["@ + uncovered_symbol(board.tiles[n - 1]) + "]"@
            + if (n - 1) % (board.limit.x as int) == board.limit.x - 1 {
            "\n"@
        } else {
            Seq::empty()
        }
    }
}

/// The player's view of a board: a line with the number of flags set and the
/// number of mines, a line with the column numbers, and the rows, each after
/// its number.
pub open spec fn board_text(board: FieldView) -> Seq<char> {
    "Mines: "@ + decimal(flag_total(board.tiles)) + "/"@ + decimal(board.num_mines as nat) + "\n"@
        + "  "@ + column_numbers(board.limit.x as nat) + "\n1|"@ + cells_text(
        board,
        board.tiles.len(),
    )
}

/// Appends a cell as the player sees it, in square brackets.
fn append_cell(text: &mut String, cell: &Tile)
    ensures
        final(text)@ == old(text)@ + "["@ + symbol(*cell) + "]"@,
{
    text.append("[");
    if cell.flag {
        text.append("F");
    } else if cell.unknown {
        text.append("?");
    } else if cell.revealed {
        if cell.is_mine {
            text.append("M");
        } else {
            text.append(decimal_text(cell.value as u16).as_str());
        }
    } else {
        text.append(" ");
    }
    text.append("]");
}

/// Appends what a cell holds, in square brackets.
fn append_uncovered_cell(text: &mut String, cell: &Tile)
    ensures
        final(text)@ == old(text)@ + "["@ + uncovered_symbol(*cell) + "]"@,
{
    text.append("[");
    if !cell.is_mine {
        text.append(decimal_text(cell.value as u16).as_str());
    } else {
        text.append("M");
    }
    text.append("]");
}

impl Field {
    /// The board as the player sees it during a game.
    pub fn to_text(&self) -> (text: String)
        requires
            self.wf(),
        ensures
            text@ == board_text(self@),
    {
        let mut text = String::new();
        text.append("Mines: ");
        text.append(decimal_text(self.num_flags()).as_str());
        text.append("/");
        text.append(decimal_text(self.num_mines).as_str());
        text.append("\n");
        text.append("  ");
        let ghost head = text@;
        assert(head =~= "Mines: "@ + decimal(flag_total(self@.tiles)) + "/"@ + decimal(
            self@.num_mines as nat,
        ) + "\n"@ + "  "@);
        let mut i: u8 = 0;
        while i < self.limit.x
            invariant
                i <= self.limit.x,
                text@ == head + column_numbers(i as nat),
            decreases self.limit.x - i,
        {
            text.append(" ");
            text.append(decimal_text(i as u16 + 1).as_str());
            text.append("|");
            i += 1;
            assert(text@ =~= head + column_numbers(i as nat));
        }
        text.append("\n1|");
        let ghost top = text@;
        assert(top =~= head + column_numbers(self@.limit.x as nat) + "\n1|"@);
        let mut k: usize = 0;
        while k < self.field.len()
            invariant
                k <= self.field.len(),
                self.field@.len() == spec_size(self.limit),
                text@ == top + cells_text(self@, k as nat),
            decreases self.field.len() - k,
        {
            let ghost so_far = text@;
            append_cell(&mut text, &self.field[k]);
            let coords = coords_of(k, &self.limit);
            proof {
                vstd::arithmetic::div_mod::lemma_fundamental_div_mod_converse(
                    k as int,
                    self.limit.x as int,
                    coords.y as int,
                    coords.x as int,
                );
            }
            let ghost cell_done = text@;
            if coords.x == self.limit.x - 1 {
                text.append("\n");
                if coords.y < self.limit.y - 1 {
                    text.append(decimal_text(coords.y as u16 + 2).as_str());
                    text.append("|");
                }
            }
            assert(text@ =~= cell_done + row_end(self@, k as int));
            k += 1;
            assert(text@ =~= top + cells_text(self@, k as nat));
        }
        text
    }

    /// The board with every cell uncovered, whatever the player has
    /// disclosed or marked.
    pub fn revealed_text(&self) -> (text: String)
        requires
            self.wf(),
        ensures
            text@ == uncovered_text(self@, self@.tiles.len()),
    {
        let mut text = String::new();
        let mut k: usize = 0;
        while k < self.field.len()
            invariant
                k <= self.field.len(),
                self.field@.len() == spec_size(self.limit),
                text@ == uncovered_text(self@, k as nat),
            decreases self.field.len() - k,
        {
            append_uncovered_cell(&mut text, &self.field[k]);
            let coords = coords_of(k, &self.limit);
            proof {
                vstd::arithmetic::div_mod::lemma_fundamental_div_mod_converse(
                    k as int,
                    self.limit.x as int,
                    coords.y as int,
                    coords.x as int,
                );
            }
            if coords.x == self.limit.x - 1 {
                text.append("\n");
            }
            k += 1;
            assert(text@ =~= uncovered_text(self@, k as nat));
        }
        text
    }
}

} // verus!
