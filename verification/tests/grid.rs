use slider::grid::{is_adjacent, neighbors_of};

const SLOTS: usize = 16;
const SIDE: usize = 4;

fn by_geometry(index: usize) -> Vec<usize> {
    let mut list: Vec<usize> = Vec::new();
    for other in 0..SLOTS {
        let rows: usize = (index / SIDE).abs_diff(other / SIDE);
        let cols: usize = (index % SIDE).abs_diff(other % SIDE);
        if rows + cols == 1 {
            list.push(other);
        }
    }
    list
}

#[test]
fn neighbors_of_every_slot_match_the_grid() {
    for index in 0..SLOTS {
        assert_eq!(neighbors_of(index), by_geometry(index), "slot {}", index);
    }
}

#[test]
fn neighbors_of_each_slot_written_out() {
    assert_eq!(neighbors_of(0), vec![1, 4]);
    assert_eq!(neighbors_of(1), vec![0, 2, 5]);
    assert_eq!(neighbors_of(2), vec![1, 3, 6]);
    assert_eq!(neighbors_of(3), vec![2, 7]);
    assert_eq!(neighbors_of(4), vec![0, 5, 8]);
    assert_eq!(neighbors_of(5), vec![1, 4, 6, 9]);
    assert_eq!(neighbors_of(6), vec![2, 5, 7, 10]);
    assert_eq!(neighbors_of(7), vec![3, 6, 11]);
    assert_eq!(neighbors_of(8), vec![4, 9, 12]);
    assert_eq!(neighbors_of(9), vec![5, 8, 10, 13]);
    assert_eq!(neighbors_of(10), vec![6, 9, 11, 14]);
    assert_eq!(neighbors_of(11), vec![7, 10, 15]);
    assert_eq!(neighbors_of(12), vec![8, 13]);
    assert_eq!(neighbors_of(13), vec![9, 12, 14]);
    assert_eq!(neighbors_of(14), vec![10, 13, 15]);
    assert_eq!(neighbors_of(15), vec![11, 14]);
}

#[test]
fn corners_have_two_neighbors_edges_three_inner_slots_four() {
    for index in 0..SLOTS {
        let expected: usize = match index {
            0 | 3 | 12 | 15 => 2,
            5 | 6 | 9 | 10 => 4,
            _ => 3,
        };
        assert_eq!(neighbors_of(index).len(), expected, "slot {}", index);
    }
}

#[test]
fn is_adjacent_agrees_with_neighbors_of() {
    for a in 0..SLOTS {
        let list = neighbors_of(a);
        for b in 0..SLOTS {
            assert_eq!(is_adjacent(a, b), list.contains(&b), "slots {} and {}", a, b);
            assert_eq!(is_adjacent(a, b), is_adjacent(b, a));
        }
        assert!(!is_adjacent(a, a));
    }
}

#[test]
fn row_ends_are_not_adjacent_to_the_next_row() {
    assert!(!is_adjacent(3, 4));
    assert!(!is_adjacent(4, 3));
    assert!(!is_adjacent(7, 8));
    assert!(!is_adjacent(8, 7));
    assert!(!is_adjacent(11, 12));
    assert!(!is_adjacent(12, 11));
}

#[test]
fn is_adjacent_rejects_indices_off_the_grid() {
    assert!(!is_adjacent(15, 16));
    assert!(!is_adjacent(16, 15));
    assert!(!is_adjacent(12, 16));
    assert!(!is_adjacent(19, 15));
    assert!(!is_adjacent(usize::MAX, 0));
    assert!(!is_adjacent(0, usize::MAX));
}
