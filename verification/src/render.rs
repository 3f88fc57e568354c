//! The board as text: four lines of four cells, each cell four characters
//! wide.

use vstd::prelude::*;
use vstd::string::*;
use crate::board::{Board, Cell};
use crate::text::{decimal_text, push_decimal};

verus! {

/// The text of one cell: the tile's number between blanks, set to the right
/// in a width of three and followed by one blank, or four blanks for the
/// empty cell.
pub open spec fn cell_text(cell: Cell) -> Seq<char> {
    match cell {
        Some(value) => if value <= 9 {
            "  "@ + decimal_text(value as nat) + " "@
        } else {
            " "@ + decimal_text(value as nat) + " "@
        },
        None => "    "@,
    }
}

/// The text of the first `count` cells, with a line end after every fourth.
pub open spec fn cells_text(cells: Seq<Cell>, count: nat) -> Seq<char>
    decreases count,
{
    if count == 0 {
        Seq::<char>::empty()
    } else {
        let before = cells_text(cells, (count - 1) as nat) + cell_text(cells[count - 1]);
        if count % 4 == 0 {
            before + "\n"@
        } else {
            before
        }
    }
}

/// The text of a whole board.
pub open spec fn map_text(cells: Seq<Cell>) -> Seq<char> {
    cells_text(cells, cells.len())
}

/// The empty cell and every tile below 100 take four characters, so the
/// columns of a board line up.
pub proof fn lemma_cell_width(cell: Cell)
    requires
        cell matches Some(value) ==> value < 100,
    ensures
        cell_text(cell).len() == 4,
{
    reveal_strlit("  ");
    reveal_strlit(" ");
    reveal_strlit("    ");
    if let Some(value) = cell {
        if value > 9 {
            assert(decimal_text((value / 10) as nat).len() == 1);
        }
    }
}

/// The text of the first `count` cells holds four characters for each cell
/// and a line end for every four cells, where no tile is above 99.
pub proof fn lemma_map_width(cells: Seq<Cell>, count: nat)
    requires
        count <= cells.len(),
        forall|i: int|
            0 <= i < cells.len() ==> (#[trigger] cells[i] matches Some(value) ==> value < 100),
    ensures
        cells_text(cells, count).len() == 4 * count + count / 4,
    decreases count,
{
    reveal_strlit("\n");
    if count > 0 {
        lemma_map_width(cells, (count - 1) as nat);
        lemma_cell_width(cells[count - 1]);
    }
}

/// Appends the text of one cell.
pub fn push_cell(out: &mut String, cell: Cell)
    ensures
        final(out)@ == old(out)@ + cell_text(cell),
{
    match cell {
        Some(value) => {
            if value <= 9 {
                out.append("  ");
            } else {
                out.append(" ");
            }
            push_decimal(out, value);
            out.append(" ");
        },
        None => {
            out.append("    ");
        },
    }
}

/// Writes the board as text, ready to be shown.
pub fn render_map(board: &Board) -> (text: String)
    ensures
        text@ == map_text(board@),
{
    let cells = board.cells();
    let mut text = String::new();
    let mut i: usize = 0;
    while i < cells.len()
        invariant
            i <= cells.len(),
            text@ == cells_text(cells@, i as nat),
        decreases cells.len() - i,
    {
        push_cell(&mut text, cells[i]);
        i = i + 1;
        if i % 4 == 0 {
            text.append("\n");
        }
    }
    text
}

} // verus!
