//! The geometry of the four by four grid: which slots lie side by side.

use vstd::prelude::*;

verus! {

/// Row of slot `i`, counted from the top.
pub open spec fn row_of(i: int) -> int {
    i / 4
}

/// Column of slot `i`, counted from the left.
pub open spec fn col_of(i: int) -> int {
    i % 4
}

/// Two slots of the grid lie side by side: same row and neighbouring columns,
/// or same column and neighbouring rows.
pub open spec fn adjacent(i: int, j: int) -> bool {
    &&& 0 <= i < 16
    &&& 0 <= j < 16
    &&& {
        ||| row_of(i) == row_of(j) && (col_of(i) - col_of(j) == 1 || col_of(j) - col_of(i) == 1)
        ||| col_of(i) == col_of(j) && (row_of(i) - row_of(j) == 1 || row_of(j) - row_of(i) == 1)
    }
}

/// The slots beside slot `i`, lowest index first: the one above, the one to
/// the left, the one to the right, the one below, as far as the grid has them.
pub open spec fn neighbor_list(i: usize) -> Seq<usize> {
    let above = if i >= 4 {
        seq![(i - 4) as usize]
    } else {
        Seq::<usize>::empty()
    };
    let left = if i % 4 != 0 {
        seq![(i - 1) as usize]
    } else {
        Seq::<usize>::empty()
    };
    let right = if i % 4 != 3 {
        seq![(i + 1) as usize]
    } else {
        Seq::<usize>::empty()
    };
    let below = if i < 12 {
        seq![(i + 4) as usize]
    } else {
        Seq::<usize>::empty()
    };
    above + left + right + below
}

/// Lists the slots beside `index`, lowest index first.
pub fn neighbors_of(index: usize) -> (list: Vec<usize>)
    requires
        index < 16,
    ensures
        list@ == neighbor_list(index),
{
    let mut list: Vec<usize> = Vec::new();
    if index >= 4 {
        list.push(index - 4);
    }
    if index % 4 != 0 {
        list.push(index - 1);
    }
    if index % 4 != 3 {
        list.push(index + 1);
    }
    if index < 12 {
        list.push(index + 4);
    }
    list
}

/// Tells whether slots `a` and `b` lie side by side on the grid. Indices
/// outside the grid are beside nothing.
pub fn is_adjacent(a: usize, b: usize) -> (beside: bool)
    ensures
        beside == adjacent(a as int, b as int),
{
    if a >= 16 || b >= 16 {
        return false;
    }
    let (low, high) = if a <= b {
        (a, b)
    } else {
        (b, a)
    };
    (high - low == 1 && low % 4 != 3) || high - low == 4
}

/// `neighbor_list` holds exactly the slots that lie beside `i`, each once, in
/// rising order.
pub proof fn lemma_neighbor_list_exact(i: usize)
    requires
        i < 16,
    ensures
        forall|j: usize| neighbor_list(i).contains(j) <==> adjacent(i as int, j as int),
        forall|a: int, b: int|
            0 <= a < b < neighbor_list(i).len() ==> neighbor_list(i)[a] < neighbor_list(i)[b],
{
    let list = neighbor_list(i);
    let above: int = if i >= 4 { 1 } else { 0 };
    let left: int = if i % 4 != 0 { 1 } else { 0 };
    let right: int = if i % 4 != 3 { 1 } else { 0 };
    assert forall|j: usize| adjacent(i as int, j as int) implies list.contains(j) by {
        let at = if j + 4 == i {
            0
        } else if j + 1 == i {
            above
        } else if j == i + 1 {
            above + left
        } else {
            above + left + right
        };
        assert(0 <= at < list.len() && list[at] == j);
    }
}

/// A corner slot has two neighbours, an inner slot four, every other slot
/// three.
pub proof fn lemma_neighbor_count(i: usize)
    requires
        i < 16,
    ensures
        2 <= neighbor_list(i).len() <= 4,
        neighbor_list(i).len() == 2 <==> (i == 0 || i == 3 || i == 12 || i == 15),
        neighbor_list(i).len() == 4 <==> (i == 5 || i == 6 || i == 9 || i == 10),
{
}

/// Lying side by side is mutual, and no slot lies beside itself.
pub proof fn lemma_adjacent_symmetric(i: int, j: int)
    ensures
        adjacent(i, j) == adjacent(j, i),
        !adjacent(i, i),
{
}

/// The last slot of a row and the first slot of the next row follow each
/// other in index and yet do not lie side by side.
pub proof fn lemma_row_ends_apart(i: int)
    requires
        0 <= i < 15,
        col_of(i) == 3,
    ensures
        !adjacent(i, i + 1),
        !adjacent(i + 1, i),
{
}

} // verus!
