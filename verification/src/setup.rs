//! The settings of a game: an optional seed and an optional number of
//! shuffling moves, read from a list of arguments.

use vstd::prelude::*;
use vstd::string::*;
use crate::text::{chars_of, number_of, parse_number, same_chars, trim, trimmed};

verus! {

/// The number of shuffling moves where none is asked for.
pub const DEFAULT_ITERATIONS: usize = 10;

/// Nothing is awaited after this argument.
pub const AWAIT_NOTHING: usize = 0;

/// The argument after `--seed` is awaited as the seed.
pub const AWAIT_SEED: usize = 1;

/// The argument after `--iterations` is awaited as the number of moves.
pub const AWAIT_ITERATIONS: usize = 2;

/// What `match_key` answers: the pointer of the key that the argument is, 0
/// where it is neither.
pub open spec fn key_pointer(
    arg: Seq<char>,
    key1: Seq<char>,
    ptr1: usize,
    key2: Seq<char>,
    ptr2: usize,
) -> usize {
    if arg == key1 {
        ptr1
    } else if arg == key2 {
        ptr2
    } else {
        0
    }
}

/// What is awaited after an argument: the seed after `--seed`, the number of
/// moves after `--iterations`, blanks around either left aside, and nothing
/// after anything else.
pub open spec fn awaited_after(arg: Seq<char>) -> usize {
    key_pointer(trimmed(arg), "--seed"@, AWAIT_SEED, "--iterations"@, AWAIT_ITERATIONS)
}

/// The seed and the number of moves that a list of arguments asks for. An
/// argument counts as the seed where the argument before it is `--seed` and
/// it denotes a number, and as the number of moves where the argument before
/// it is `--iterations` and it denotes a number above 0. Where several
/// count, the last one holds.
pub open spec fn settings_of(args: Seq<Seq<char>>) -> (Option<usize>, Option<usize>)
    decreases args.len(),
{
    if args.len() == 0 {
        (None, None)
    } else {
        let earlier = settings_of(args.drop_last());
        let awaited = if args.len() == 1 {
            AWAIT_NOTHING
        } else {
            awaited_after(args[args.len() - 2])
        };
        let number = number_of(args.last());
        if awaited == AWAIT_SEED && number is Some {
            (number, earlier.1)
        } else if awaited == AWAIT_ITERATIONS && number is Some && number->0 > 0 {
            (earlier.0, number)
        } else {
            earlier
        }
    }
}

/// The texts of a list of arguments.
pub open spec fn texts_of(args: Seq<String>) -> Seq<Seq<char>> {
    Seq::new(args.len(), |i: int| args[i]@)
}

/// Tells which of two keys an argument is: answers `ptr1` for the first,
/// `ptr2` for the second, 0 for neither.
pub fn match_key(arg: &Vec<char>, key1: &str, ptr1: usize, key2: &str, ptr2: usize) -> (pointer:
    usize)
    ensures
        pointer == key_pointer(arg@, key1@, ptr1, key2@, ptr2),
{
    if same_chars(arg, &chars_of(key1)) {
        ptr1
    } else if same_chars(arg, &chars_of(key2)) {
        ptr2
    } else {
        0
    }
}

/// Reads the seed and the number of shuffling moves from a list of arguments:
/// the number after `--seed` and the number above 0 after `--iterations`.
/// What does not denote such a number is passed over, and so is every other
/// argument.
pub fn process_args(args: &Vec<String>) -> (settings: (Option<usize>, Option<usize>))
    ensures
        settings == settings_of(texts_of(args@)),
{
    let ghost texts = texts_of(args@);
    let mut seed: Option<usize> = None;
    let mut iterations: Option<usize> = None;
    let mut awaited: usize = AWAIT_NOTHING;
    let mut i: usize = 0;
    while i < args.len()
        invariant
            i <= args.len(),
            texts == texts_of(args@),
            (seed, iterations) == settings_of(texts.take(i as int)),
            awaited == if i == 0 {
                AWAIT_NOTHING
            } else {
                awaited_after(texts[i - 1])
            },
        decreases args.len() - i,
    {
        let chars = chars_of(args[i].as_str());
        proof {
            assert(texts.take(i + 1).drop_last() =~= texts.take(i as int));
        }
        if awaited == AWAIT_SEED {
            match parse_number(&chars) {
                Some(number) => {
                    seed = Some(number);
                },
                None => {},
            }
        } else if awaited == AWAIT_ITERATIONS {
            match parse_number(&chars) {
                Some(number) => {
                    if number > 0 {
                        iterations = Some(number);
                    }
                },
                None => {},
            }
        }
        awaited = match_key(&trim(&chars), "--seed", AWAIT_SEED, "--iterations", AWAIT_ITERATIONS);
        i = i + 1;
    }
    assert(texts.take(args.len() as int) =~= texts);
    (seed, iterations)
}

/// The number of shuffling moves to make: the number asked for, or
/// `DEFAULT_ITERATIONS` where none is.
pub fn iterations_or_default(iterations: Option<usize>) -> (count: usize)
    ensures
        count == match iterations {
            Some(n) => n,
            None => DEFAULT_ITERATIONS,
        },
{
    match iterations {
        Some(n) => n,
        None => DEFAULT_ITERATIONS,
    }
}

} // verus!
