//! The board: sixteen slots that hold the tiles 1 to 15 and one empty slot.

use vstd::prelude::*;
use crate::grid::{adjacent, col_of, is_adjacent, lemma_row_ends_apart};

verus! {

/// What a slot holds: a tile by its number, or nothing.
pub type Cell = Option<usize>;

/// The solved order: tiles 1 to 15 in slots 0 to 14, slot 15 empty.
pub open spec fn solved_cells() -> Seq<Cell> {
    Seq::new(
        16,
        |i: int|
            if i < 15 {
                Some((i + 1) as usize)
            } else {
                None
            },
    )
}

/// The cells are those of the solved order in some order: each tile of 1 to 15
/// once, one empty slot, and nothing else.
pub open spec fn is_arrangement(cells: Seq<Cell>) -> bool {
    cells.to_multiset() == solved_cells().to_multiset()
}

/// The slot that is empty.
pub open spec fn empty_slot(cells: Seq<Cell>) -> int {
    cells.index_of(None::<usize>)
}

/// The slot that holds tile `value`.
pub open spec fn slot_of(cells: Seq<Cell>, value: usize) -> int {
    cells.index_of(Some(value))
}

/// The cells with the contents of slots `a` and `b` exchanged.
pub open spec fn swapped(cells: Seq<Cell>, a: int, b: int) -> Seq<Cell> {
    cells.update(a, cells[b]).update(b, cells[a])
}

/// The solved order holds sixteen cells, no two alike: the empty one and the
/// tiles 1 to 15.
pub proof fn lemma_solved_cells()
    ensures
        solved_cells().len() == 16,
        solved_cells().no_duplicates(),
        forall|c: Cell|
            solved_cells().contains(c) <==> (c matches Some(v) ==> 1 <= v <= 15),
{
    let s = solved_cells();
    assert forall|c: Cell| (c matches Some(v) ==> 1 <= v <= 15) implies s.contains(c) by {
        let at: int = match c {
            Some(v) => v - 1,
            None => 15,
        };
        assert(s[at] == c);
    }
}

/// In an arrangement every tile of 1 to 15 and the empty cell sit in exactly
/// one slot each, and no slot holds anything else.
pub proof fn lemma_arrangement_slots(cells: Seq<Cell>)
    requires
        is_arrangement(cells),
    ensures
        cells.len() == 16,
        cells.no_duplicates(),
        forall|c: Cell| cells.contains(c) <==> (c matches Some(v) ==> 1 <= v <= 15),
        0 <= empty_slot(cells) < 16,
        cells[empty_slot(cells)] is None,
        forall|i: int| 0 <= i < 16 && cells[i] is None ==> i == empty_slot(cells),
        forall|v: usize|
            1 <= v <= 15 ==> 0 <= #[trigger] slot_of(cells, v) < 16 && cells[slot_of(cells, v)]
                == Some(v),
        forall|i: int|
            0 <= i < 16 ==> (#[trigger] cells[i] matches Some(v) ==> i == slot_of(cells, v)),
{
    let s = solved_cells();
    lemma_solved_cells();
    cells.to_multiset_ensures();
    s.to_multiset_ensures();
    s.lemma_multiset_has_no_duplicates();
    cells.lemma_multiset_has_no_duplicates_conv();
    assert forall|c: Cell| cells.contains(c) <==> s.contains(c) by {
        assert(cells.to_multiset().count(c) == s.to_multiset().count(c));
    }
    assert(cells.contains(None::<usize>));
    assert forall|v: usize| 1 <= v <= 15 implies 0 <= #[trigger] slot_of(cells, v) < 16
        && cells[slot_of(cells, v)] == Some(v) by {
        assert(cells.contains(Some(v)));
    }
    assert forall|i: int| 0 <= i < 16 implies (#[trigger] cells[i] matches Some(v) ==> i
        == slot_of(cells, v)) by {
        if let Some(v) = cells[i] {
            assert(cells[slot_of(cells, v)] == Some(v));
        }
    }
}

/// Sixteen cells, no two alike, each the empty cell or a tile of 1 to 15, are
/// an arrangement.
pub proof fn lemma_distinct_cells_arrange(cells: Seq<Cell>)
    requires
        cells.len() == 16,
        cells.no_duplicates(),
        forall|i: int| 0 <= i < 16 ==> (#[trigger] cells[i] matches Some(v) ==> 1 <= v <= 15),
    ensures
        is_arrangement(cells),
{
    broadcast use vstd::seq_lib::seq_to_set_is_finite;

    let s = solved_cells();
    lemma_solved_cells();
    cells.unique_seq_to_set();
    s.unique_seq_to_set();
    assert(cells.to_set().subset_of(s.to_set())) by {
        assert forall|c: Cell| cells.to_set().contains(c) implies s.to_set().contains(c) by {
            let at = cells.index_of(c);
            assert(cells[at] == c);
        }
    }
    vstd::set_lib::lemma_subset_equality(cells.to_set(), s.to_set());
    cells.to_multiset_ensures();
    s.to_multiset_ensures();
    cells.lemma_multiset_has_no_duplicates();
    s.lemma_multiset_has_no_duplicates();
    assert forall|c: Cell| cells.to_multiset().count(c) == s.to_multiset().count(c) by {
        assert(cells.contains(c) == cells.to_set().contains(c));
        assert(s.contains(c) == s.to_set().contains(c));
    }
    assert(cells.to_multiset() =~= s.to_multiset());
}

/// Exchanging two slots of an arrangement gives an arrangement.
pub proof fn lemma_swapped_arrangement(cells: Seq<Cell>, a: int, b: int)
    requires
        is_arrangement(cells),
        0 <= a < 16,
        0 <= b < 16,
    ensures
        is_arrangement(swapped(cells, a, b)),
{
    broadcast use {
        vstd::seq_lib::group_to_multiset_ensures,
        vstd::multiset::group_multiset_axioms,
    };

    lemma_arrangement_slots(cells);
    let first = cells.update(a, cells[b]);
    vstd::seq_lib::to_multiset_update(cells, a, cells[b]);
    vstd::seq_lib::to_multiset_update(first, b, cells[a]);
    assert(swapped(cells, a, b).to_multiset() =~= cells.to_multiset());
}

/// Exchanging the empty slot with slot `to` leaves slot `to` empty.
pub proof fn lemma_swapped_empty(cells: Seq<Cell>, to: int)
    requires
        is_arrangement(cells),
        0 <= to < 16,
    ensures
        empty_slot(swapped(cells, empty_slot(cells), to)) == to,
{
    lemma_arrangement_slots(cells);
    let after = swapped(cells, empty_slot(cells), to);
    lemma_swapped_arrangement(cells, empty_slot(cells), to);
    lemma_arrangement_slots(after);
}

/// Exchanging any two different slots of the solved order gives cells that are
/// not in the solved order.
pub proof fn lemma_transposed_not_solved(a: int, b: int)
    requires
        0 <= a < 16,
        0 <= b < 16,
        a != b,
    ensures
        swapped(solved_cells(), a, b) != solved_cells(),
{
    let s = solved_cells();
}

/// Why a requested move was turned down.
#[derive(Clone, Copy, Debug, PartialEq, Eq)]
pub enum MoveError {
    /// No slot holds the requested tile.
    NotFound,
    /// The requested tile does not lie beside the empty slot.
    Illegal,
}

/// What a request to move tile `value` comes to on the given cells.
pub open spec fn move_verdict(cells: Seq<Cell>, value: usize) -> Result<(), MoveError> {
    if !cells.contains(Some(value)) {
        Err(MoveError::NotFound)
    } else if !adjacent(slot_of(cells, value), empty_slot(cells)) {
        Err(MoveError::Illegal)
    } else {
        Ok(())
    }
}

/// The cells after a request to move tile `value`: the tile and the empty slot
/// exchanged where the move is accepted, the cells as they were where it is
/// not.
pub open spec fn cells_after_move(cells: Seq<Cell>, value: usize) -> Seq<Cell> {
    if move_verdict(cells, value) is Ok {
        swapped(cells, slot_of(cells, value), empty_slot(cells))
    } else {
        cells
    }
}

/// A tile in the last slot of a row is not moved into an empty first slot of
/// the next row, nor a tile there into an empty last slot of the row before,
/// though their indices differ by one.
pub proof fn lemma_row_end_move_rejected(cells: Seq<Cell>, value: usize, last: int)
    requires
        is_arrangement(cells),
        0 <= last < 15,
        col_of(last) == 3,
        (cells[last] is None && cells[last + 1] == Some(value)) || (cells[last + 1] is None
            && cells[last] == Some(value)),
    ensures
        move_verdict(cells, value) == Err::<(), MoveError>(MoveError::Illegal),
        cells_after_move(cells, value) == cells,
{
    lemma_arrangement_slots(cells);
    lemma_row_ends_apart(last);
}

/// A board of the puzzle. Whatever is done to it, it holds an arrangement,
/// and it knows where its empty slot is.
#[derive(Debug)]
pub struct Board {
    cells: [Cell; 16],
    empty: usize,
}

impl View for Board {
    type V = Seq<Cell>;

    closed spec fn view(&self) -> Seq<Cell> {
        self.cells@
    }
}

impl Clone for Board {
    /// A second board with the same cells.
    fn clone(&self) -> (copy: Board)
        ensures
            copy@ == self@,
    {
        proof {
            use_type_invariant(self);
        }
        Board { cells: self.cells, empty: self.empty }
    }
}

impl Board {
    #[verifier::type_invariant]
    spec fn well_formed(self) -> bool {
        &&& is_arrangement(self.cells@)
        &&& self.empty < 16
        &&& self.cells@[self.empty as int] is None
    }

    /// A board in the solved order.
    pub fn new_solved() -> (board: Board)
        ensures
            board@ == solved_cells(),
    {
        let cells: [Cell; 16] = [
            Some(1),
            Some(2),
            Some(3),
            Some(4),
            Some(5),
            Some(6),
            Some(7),
            Some(8),
            Some(9),
            Some(10),
            Some(11),
            Some(12),
            Some(13),
            Some(14),
            Some(15),
            None,
        ];
        assert(cells@ =~= solved_cells());
        Board { cells, empty: 15 }
    }

    /// A board with the given cells, where these are an arrangement: sixteen
    /// cells that hold each tile of 1 to 15 once and one empty slot.
    pub fn from_cells(cells: &Vec<Cell>) -> (made: Option<Board>)
        ensures
            made is Some <==> is_arrangement(cells@),
            made matches Some(board) ==> board@ == cells@,
    {
        if cells.len() != 16 {
            proof {
                if is_arrangement(cells@) {
                    lemma_arrangement_slots(cells@);
                }
            }
            return None;
        }
        let mut kept: [Cell; 16] = [None; 16];
        let mut empty: usize = 16;
        let mut i: usize = 0;
        while i < 16
            invariant
                i <= 16,
                cells@.len() == 16,
                forall|k: int| 0 <= k < i ==> kept@[k] == cells@[k],
                forall|k: int|
                    0 <= k < i ==> (#[trigger] cells@[k] matches Some(v) ==> 1 <= v <= 15),
                forall|j: int, k: int| 0 <= j < k < i ==> cells@[j] != cells@[k],
                empty <= 16,
                empty < 16 ==> empty < i && cells@[empty as int] is None,
                empty == 16 ==> forall|k: int| 0 <= k < i ==> cells@[k] is Some,
            decreases 16 - i,
        {
            let cell = cells[i];
            match cell {
                Some(value) => {
                    if value < 1 || value > 15 {
                        proof {
                            if is_arrangement(cells@) {
                                lemma_arrangement_slots(cells@);
                                assert(cells@.contains(cells@[i as int]));
                            }
                        }
                        return None;
                    }
                },
                None => {
                    empty = i;
                },
            }
            let mut j: usize = 0;
            while j < i
                invariant
                    j <= i < 16,
                    cells@.len() == 16,
                    cell == cells@[i as int],
                    forall|k: int| 0 <= k < j ==> cells@[k] != cell,
                decreases i - j,
            {
                if cells[j] == cell {
                    proof {
                        if is_arrangement(cells@) {
                            lemma_arrangement_slots(cells@);
                        }
                    }
                    return None;
                }
                j = j + 1;
            }
            kept[i] = cell;
            i = i + 1;
        }
        proof {
            assert(kept@ =~= cells@);
            lemma_distinct_cells_arrange(cells@);
            lemma_arrangement_slots(cells@);
            assert(cells@[empty_slot(cells@)] is None);
        }
        Some(Board { cells: kept, empty })
    }

    /// What slot `index` holds.
    pub fn cell(&self, index: usize) -> (cell: Cell)
        requires
            index < 16,
        ensures
            cell == self@[index as int],
    {
        self.cells[index]
    }

    /// The sixteen cells, slot 0 first.
    pub fn cells(&self) -> (cells: Vec<Cell>)
        ensures
            cells@ == self@,
            is_arrangement(cells@),
    {
        proof {
            use_type_invariant(self);
        }
        let mut cells: Vec<Cell> = Vec::new();
        let mut i: usize = 0;
        while i < 16
            invariant
                i <= 16,
                self.cells@.len() == 16,
                cells@ == self.cells@.take(i as int),
            decreases 16 - i,
        {
            cells.push(self.cells[i]);
            i = i + 1;
        }
        cells
    }

    /// The index of the empty slot.
    pub fn locate_empty(&self) -> (index: usize)
        ensures
            index < 16,
            index == empty_slot(self@),
            self@[index as int] is None,
            is_arrangement(self@),
    {
        proof {
            use_type_invariant(self);
            lemma_arrangement_slots(self.cells@);
        }
        self.empty
    }

    /// The slot that holds tile `value`, if any does: the tiles 1 to 15 are
    /// found, no other number is.
    pub fn translate_to_tile(&self, value: usize) -> (found: Option<usize>)
        ensures
            found is Some <==> 1 <= value <= 15,
            found is Some <==> self@.contains(Some(value)),
            found matches Some(index) ==> index == slot_of(self@, value) && index < 16
                && self@[index as int] == Some(value),
    {
        proof {
            use_type_invariant(self);
        }
        let mut i: usize = 0;
        while i < 16
            invariant
                i <= 16,
                is_arrangement(self.cells@),
                self.cells@.len() == 16,
                forall|k: int| 0 <= k < i ==> self.cells@[k] != Some(value),
            decreases 16 - i,
        {
            if self.cells[i] == Some(value) {
                proof {
                    lemma_arrangement_slots(self.cells@);
                    assert(self.cells@.contains(Some(value)));
                }
                return Some(i);
            }
            i = i + 1;
        }
        proof {
            lemma_arrangement_slots(self.cells@);
            assert(!self.cells@.contains(Some(value)));
        }
        None
    }

    /// Exchanges what slots `a` and `b` hold, whether or not they lie side by
    /// side.
    pub fn swap(&mut self, a: usize, b: usize)
        requires
            a < 16,
            b < 16,
        ensures
            final(self)@ == swapped(old(self)@, a as int, b as int),
            is_arrangement(final(self)@),
    {
        proof {
            use_type_invariant(&*self);
            lemma_swapped_arrangement(self.cells@, a as int, b as int);
        }
        let mut cells = self.cells;
        let in_a = cells[a];
        let in_b = cells[b];
        cells[a] = in_b;
        cells[b] = in_a;
        let empty = if self.empty == a {
            b
        } else if self.empty == b {
            a
        } else {
            self.empty
        };
        *self = Board { cells, empty };
    }

    /// Moves tile `value` into the empty slot if the tile is on the board and
    /// lies beside the empty slot; otherwise says why not and changes nothing.
    pub fn move_tile(&mut self, value: usize) -> (verdict: Result<(), MoveError>)
        ensures
            verdict == move_verdict(old(self)@, value),
            final(self)@ == cells_after_move(old(self)@, value),
            is_arrangement(final(self)@),
    {
        proof {
            use_type_invariant(&*self);
            lemma_arrangement_slots(self.cells@);
        }
        match self.translate_to_tile(value) {
            None => Err(MoveError::NotFound),
            Some(index) => {
                let empty = self.locate_empty();
                if is_adjacent(index, empty) {
                    self.swap(index, empty);
                    Ok(())
                } else {
                    Err(MoveError::Illegal)
                }
            },
        }
    }

    /// Tells whether the board is in the solved order.
    pub fn check_win(&self) -> (won: bool)
        ensures
            won == (self@ == solved_cells()),
    {
        let mut i: usize = 0;
        while i < 15
            invariant
                i <= 15,
                self.cells@.len() == 16,
                forall|k: int| 0 <= k < i ==> self.cells@[k] == Some((k + 1) as usize),
            decreases 15 - i,
        {
            if self.cells[i] != Some(i + 1) {
                return false;
            }
            i = i + 1;
        }
        if self.cells[15].is_some() {
            return false;
        }
        assert(self.cells@ =~= solved_cells());
        true
    }
}

} // verus!
