//! The shuffle: a random walk of the empty slot over the grid.

use vstd::prelude::*;
use rand::rngs::StdRng;
use crate::board::{empty_slot, is_arrangement, lemma_arrangement_slots, lemma_swapped_arrangement,
    lemma_swapped_empty, swapped, Board, Cell};
use crate::grid::{adjacent, lemma_adjacent_symmetric, lemma_neighbor_count,
    lemma_neighbor_list_exact, neighbor_list, neighbors_of};
use crate::random::{draw_below, entropy_generator, generator_seed, generator_served, seeded_draw,
    seeded_generator};

verus! {

/// Why a shuffle did not take place.
#[derive(Clone, Copy, Debug, PartialEq, Eq)]
pub enum ShuffleError {
    /// No seed was given and the system had no entropy to make one from.
    NoEntropy,
}

/// The neighbour of slot `from` that a draw selects. Where the slot has three
/// neighbours, draw 0 selects the lowest; where it has two or four, draw 0
/// selects the highest.
pub open spec fn slot_for_draw(from: usize, draw: int) -> usize {
    let list = neighbor_list(from);
    if list.len() == 3 {
        list[draw]
    } else {
        list[list.len() - 1 - draw]
    }
}

/// The slot from which step `k` of a trail sets out: the start for the first
/// step, the slot that the step before reached for every other.
pub open spec fn step_origin(start: usize, trail: Seq<usize>, k: int) -> usize {
    if k == 0 {
        start
    } else {
        trail[k - 1]
    }
}

/// Every step of the trail leads to a slot beside the one it sets out from.
pub open spec fn is_walk(start: usize, trail: Seq<usize>) -> bool {
    forall|k: int|
        0 <= k < trail.len() ==> adjacent(
            step_origin(start, trail, k) as int,
            #[trigger] trail[k] as int,
        )
}

/// The cells after the empty slot has been exchanged with each slot of the
/// trail in turn.
pub open spec fn walked(cells: Seq<Cell>, trail: Seq<usize>) -> Seq<Cell>
    decreases trail.len(),
{
    if trail.len() == 0 {
        cells
    } else {
        let before = walked(cells, trail.drop_last());
        swapped(before, empty_slot(before), trail.last() as int)
    }
}

/// For each step of the trail, the number of neighbours among which it chose.
pub open spec fn bounds_along(start: usize, trail: Seq<usize>) -> Seq<i32> {
    Seq::new(trail.len(), |k: int| neighbor_list(step_origin(start, trail, k)).len() as i32)
}

/// The trail of `n` steps from `start` that a generator walks which was made
/// from `seed` and had served the draws `served` before the first step.
pub open spec fn drawn_trail(seed: u64, served: Seq<i32>, start: usize, n: nat) -> Seq<usize>
    decreases n,
{
    if n == 0 {
        Seq::<usize>::empty()
    } else {
        let before = drawn_trail(seed, served, start, (n - 1) as nat);
        let from = step_origin(start, before, n - 1);
        let draw = seeded_draw(
            seed,
            served + bounds_along(start, before),
            neighbor_list(from).len() as i32,
        );
        before.push(slot_for_draw(from, draw as int))
    }
}

/// The trail of `n` steps from `start` that a fresh generator made from
/// `seed` walks.
pub open spec fn seeded_trail(seed: u64, start: usize, n: nat) -> Seq<usize> {
    drawn_trail(seed, Seq::<i32>::empty(), start, n)
}

/// `after` is what `before` becomes when the empty slot walks the `n` steps of
/// `trail`.
pub open spec fn shuffled(before: Seq<Cell>, after: Seq<Cell>, trail: Seq<usize>, n: nat) -> bool {
    &&& trail.len() == n
    &&& is_walk(empty_slot(before) as usize, trail)
    &&& after == walked(before, trail)
}

/// A shuffle of `n` steps whose trail is the one that `seed` gives.
pub open spec fn seeded_shuffle(
    seed: u64,
    before: Seq<Cell>,
    after: Seq<Cell>,
    trail: Seq<usize>,
    n: nat,
) -> bool {
    &&& shuffled(before, after, trail, n)
    &&& trail == seeded_trail(seed, empty_slot(before) as usize, n)
}

/// The neighbour of slot `from` that `draw` selects, or nothing where `from`
/// is no slot or has no neighbour of that number.
pub fn target_of_draw(from: usize, draw: i32) -> (target: Option<usize>)
    ensures
        target is Some <==> from < 16 && 0 <= draw < neighbor_list(from).len(),
        target matches Some(slot) ==> slot == slot_for_draw(from, draw as int) && adjacent(
            from as int,
            slot as int,
        ),
{
    if from >= 16 || draw < 0 {
        return None;
    }
    let list = neighbors_of(from);
    let pick = draw as usize;
    if pick >= list.len() {
        return None;
    }
    proof {
        lemma_neighbor_list_exact(from);
    }
    let slot = if list.len() == 3 {
        list[pick]
    } else {
        list[list.len() - 1 - pick]
    };
    Some(slot)
}

/// Shuffles with a draw from `rng`: exchanges the empty slot of the board with
/// the neighbour that the draw selects, and returns that neighbour's index,
/// which is where the empty slot then is.
pub fn choose_neighbor(rng: &mut StdRng, board: &mut Board) -> (target: usize)
    ensures
        adjacent(empty_slot(old(board)@), target as int),
        final(board)@ == swapped(old(board)@, empty_slot(old(board)@), target as int),
        empty_slot(final(board)@) == target,
        is_arrangement(final(board)@),
        generator_seed(*final(rng)) == generator_seed(*old(rng)),
        generator_served(*final(rng)) == generator_served(*old(rng)).push(
            neighbor_list(empty_slot(old(board)@) as usize).len() as i32,
        ),
        generator_seed(*old(rng)) matches Some(seed) ==> target == slot_for_draw(
            empty_slot(old(board)@) as usize,
            seeded_draw(
                seed,
                generator_served(*old(rng)),
                neighbor_list(empty_slot(old(board)@) as usize).len() as i32,
            ) as int,
        ),
{
    let from = board.locate_empty();
    let list = neighbors_of(from);
    proof {
        lemma_neighbor_count(from);
    }
    let draw = draw_below(rng, list.len() as i32);
    match target_of_draw(from, draw) {
        Some(target) => {
            proof {
                lemma_swapped_empty(board@, target as int);
            }
            board.swap(from, target);
            target
        },
        None => from,
    }
}

/// Shuffles the board with `iterations` draws from `rng`: each draw exchanges
/// the empty slot with one of the slots beside it. Returns the trail of the
/// empty slot, one slot for each step. On a seeded generator the trail is the
/// one that the seed and the draws served so far give.
pub fn shuffle_with(rng: &mut StdRng, iterations: usize, board: &mut Board) -> (trail: Vec<usize>)
    ensures
        shuffled(old(board)@, final(board)@, trail@, iterations as nat),
        is_arrangement(final(board)@),
        generator_seed(*final(rng)) == generator_seed(*old(rng)),
        generator_served(*final(rng)) == generator_served(*old(rng)) + bounds_along(
            empty_slot(old(board)@) as usize,
            trail@,
        ),
        generator_seed(*old(rng)) matches Some(seed) ==> trail@ == drawn_trail(
            seed,
            generator_served(*old(rng)),
            empty_slot(old(board)@) as usize,
            iterations as nat,
        ),
{
    let start = board.locate_empty();
    let ghost cells = board@;
    let ghost served = generator_served(*rng);
    let ghost seed = generator_seed(*rng);
    let mut trail: Vec<usize> = Vec::new();
    let mut done: usize = 0;
    while done < iterations
        invariant
            done <= iterations,
            start == empty_slot(cells),
            start < 16,
            trail@.len() == done,
            is_walk(start, trail@),
            board@ == walked(cells, trail@),
            is_arrangement(board@),
            empty_slot(board@) == step_origin(start, trail@, done as int),
            generator_seed(*rng) == seed,
            generator_served(*rng) == served + bounds_along(start, trail@),
            seed matches Some(s) ==> trail@ == drawn_trail(s, served, start, done as nat),
        decreases iterations - done,
    {
        let ghost before = trail@;
        let target = choose_neighbor(rng, board);
        trail.push(target);
        done = done + 1;
        proof {
            assert(trail@.drop_last() =~= before);
            assert forall|k: int| 0 <= k < trail@.len() implies adjacent(
                step_origin(start, trail@, k) as int,
                #[trigger] trail@[k] as int,
            ) by {
                if k < before.len() {
                    assert(trail@[k] == before[k]);
                }
            }
        }
    }
    trail
}

/// Shuffles the board with the generator that was made, or reports that none
/// was. With a generator the shuffle is that of `shuffle_with`; without one
/// the board stays as it is.
pub fn shuffle_from(
    made: Result<StdRng, rand::Error>,
    iterations: usize,
    board: &mut Board,
) -> (outcome: Result<Vec<usize>, ShuffleError>)
    ensures
        made is Ok <==> outcome is Ok,
        outcome matches Ok(trail) ==> shuffled(
            old(board)@,
            final(board)@,
            trail@,
            iterations as nat,
        ),
        outcome matches Ok(trail) ==> (generator_seed(made->Ok_0) matches Some(seed)
            ==> trail@ == drawn_trail(
            seed,
            generator_served(made->Ok_0),
            empty_slot(old(board)@) as usize,
            iterations as nat,
        )),
        outcome is Err ==> outcome == Err::<Vec<usize>, ShuffleError>(ShuffleError::NoEntropy)
            && final(board)@ == old(board)@,
        is_arrangement(final(board)@),
{
    match made {
        Ok(mut rng) => Ok(shuffle_with(&mut rng, iterations, board)),
        Err(_) => {
            let _ = board.locate_empty();
            Err(ShuffleError::NoEntropy)
        },
    }
}

/// Shuffles the board by `iterations` random slides, with a generator made
/// from `seed` where one is given and from the system's entropy where none is.
/// Returns the trail of the empty slot. With a seed the shuffle always takes
/// place and its trail is `seeded_trail` of the seed; without one the trail is
/// left to chance, and where the system has no entropy the board stays as it
/// is.
pub fn shuffle_map(seed: Option<usize>, iterations: usize, board: &mut Board) -> (outcome:
    Result<Vec<usize>, ShuffleError>)
    ensures
        seed is Some ==> outcome is Ok,
        outcome matches Ok(trail) ==> shuffled(
            old(board)@,
            final(board)@,
            trail@,
            iterations as nat,
        ),
        outcome matches Ok(trail) ==> (seed matches Some(s) ==> seeded_shuffle(
            s as u64,
            old(board)@,
            final(board)@,
            trail@,
            iterations as nat,
        )),
        outcome is Err ==> outcome == Err::<Vec<usize>, ShuffleError>(ShuffleError::NoEntropy)
            && final(board)@ == old(board)@,
        is_arrangement(final(board)@),
{
    let made = match seed {
        Some(s) => Ok(seeded_generator(s as u64)),
        None => entropy_generator(),
    };
    shuffle_from(made, iterations, board)
}

/// A walk of the empty slot takes an arrangement to an arrangement, and ends
/// with the empty slot where the trail ends.
pub proof fn lemma_walked_arrangement(cells: Seq<Cell>, trail: Seq<usize>)
    requires
        is_arrangement(cells),
        forall|k: int| 0 <= k < trail.len() ==> trail[k] < 16,
    ensures
        is_arrangement(walked(cells, trail)),
        trail.len() > 0 ==> empty_slot(walked(cells, trail)) == trail.last(),
    decreases trail.len(),
{
    if trail.len() > 0 {
        let before = walked(cells, trail.drop_last());
        lemma_walked_arrangement(cells, trail.drop_last());
        lemma_arrangement_slots(before);
        lemma_swapped_arrangement(before, empty_slot(before), trail.last() as int);
        lemma_swapped_empty(before, trail.last() as int);
    }
}

/// The way back along a trail: the slots that its steps set out from, the
/// last step's first.
pub open spec fn trail_back(start: usize, trail: Seq<usize>) -> Seq<usize> {
    Seq::new(trail.len(), |k: int| step_origin(start, trail, trail.len() - 1 - k))
}

/// A walk is the exchange for its first step followed by the walk of the
/// rest.
pub proof fn lemma_walked_first(cells: Seq<Cell>, trail: Seq<usize>)
    requires
        trail.len() > 0,
    ensures
        walked(cells, trail) == walked(
            swapped(cells, empty_slot(cells), trail[0] as int),
            trail.drop_first(),
        ),
    decreases trail.len(),
{
    let first = swapped(cells, empty_slot(cells), trail[0] as int);
    let rest = trail.drop_first();
    if trail.len() == 1 {
        assert(walked(cells, trail.drop_last()) == cells);
        assert(walked(first, rest) == first);
    } else {
        lemma_walked_first(cells, trail.drop_last());
        assert(trail.drop_last().drop_first() =~= rest.drop_last());
        assert(walked(cells, trail.drop_last()) == walked(first, rest.drop_last()));
    }
}

/// What a walk of the empty slot has shuffled, the walk back puts right: the
/// way back is a walk too, and it ends in the cells from which the first walk
/// set out.
pub proof fn lemma_walk_back(cells: Seq<Cell>, trail: Seq<usize>)
    requires
        is_arrangement(cells),
        is_walk(empty_slot(cells) as usize, trail),
    ensures
        is_walk(
            empty_slot(walked(cells, trail)) as usize,
            trail_back(empty_slot(cells) as usize, trail),
        ),
        walked(walked(cells, trail), trail_back(empty_slot(cells) as usize, trail)) == cells,
    decreases trail.len(),
{
    lemma_arrangement_slots(cells);
    let start = empty_slot(cells) as usize;
    let back = trail_back(start, trail);
    if trail.len() > 0 {
        let n = trail.len() as int;
        let shorter = trail.drop_last();
        let before = walked(cells, shorter);
        let after = walked(cells, trail);
        let from = step_origin(start, trail, n - 1);
        assert forall|k: int| 0 <= k < trail.len() implies #[trigger] trail[k] < 16 by {
            assert(adjacent(step_origin(start, trail, k) as int, trail[k] as int));
        }
        assert(is_walk(start, shorter)) by {
            assert forall|k: int| 0 <= k < shorter.len() implies adjacent(
                step_origin(start, shorter, k) as int,
                #[trigger] shorter[k] as int,
            ) by {
                assert(shorter[k] == trail[k]);
            }
        }
        lemma_walked_arrangement(cells, shorter);
        lemma_walked_arrangement(cells, trail);
        lemma_arrangement_slots(before);
        assert(swapped(after, trail.last() as int, from as int) =~= before);
        assert(back.drop_first() =~= trail_back(start, shorter));
        lemma_walked_first(after, back);
        lemma_walk_back(cells, shorter);
        assert forall|k: int| 0 <= k < back.len() implies adjacent(
            step_origin(trail.last(), back, k) as int,
            #[trigger] back[k] as int,
        ) by {
            lemma_adjacent_symmetric(
                step_origin(start, trail, n - 1 - k) as int,
                trail[n - 1 - k] as int,
            );
        }
    }
}

/// Two shuffles by the same seed and the same number of steps, from the same
/// cells, walk the same trail and end in the same cells.
pub proof fn lemma_seeded_shuffle_repeats(
    seed: u64,
    n: nat,
    before: Seq<Cell>,
    first: Seq<Cell>,
    first_trail: Seq<usize>,
    second: Seq<Cell>,
    second_trail: Seq<usize>,
)
    requires
        seeded_shuffle(seed, before, first, first_trail, n),
        seeded_shuffle(seed, before, second, second_trail, n),
    ensures
        first_trail == second_trail,
        first == second,
{
}

/// A seeded trail has as many slots as it has steps, and the trail of `m`
/// steps is the beginning of the trail of any greater number of steps by the
/// same seed from the same slot.
pub proof fn lemma_seeded_trail_prefix(seed: u64, start: usize, m: nat, n: nat)
    requires
        m <= n,
    ensures
        seeded_trail(seed, start, n).len() == n,
        seeded_trail(seed, start, n).take(m as int) == seeded_trail(seed, start, m),
{
    lemma_drawn_trail_prefix(seed, Seq::<i32>::empty(), start, m, n);
}

/// The same of a generator that has served draws before.
proof fn lemma_drawn_trail_prefix(seed: u64, served: Seq<i32>, start: usize, m: nat, n: nat)
    requires
        m <= n,
    ensures
        drawn_trail(seed, served, start, n).len() == n,
        drawn_trail(seed, served, start, n).take(m as int) == drawn_trail(seed, served, start, m),
    decreases n,
{
    if n > 0 {
        if m < n {
            lemma_drawn_trail_prefix(seed, served, start, m, (n - 1) as nat);
        } else {
            lemma_drawn_trail_prefix(seed, served, start, (n - 1) as nat, (n - 1) as nat);
        }
    }
}

} // verus!
