use slider::board::{Board, Cell, MoveError};
use slider::grid::is_adjacent;

const SLOTS: usize = 16;

fn solved() -> Vec<Cell> {
    let mut cells: Vec<Cell> = Vec::new();
    for value in 1..16 {
        cells.push(Some(value));
    }
    cells.push(None);
    cells
}

fn sorted(cells: &[Cell]) -> Vec<Cell> {
    let mut copy: Vec<Cell> = cells.to_vec();
    copy.sort();
    copy
}

#[test]
fn new_solved_holds_one_to_fifteen_then_empty() {
    let board = Board::new_solved();
    assert_eq!(
        board.cells(),
        vec![
            Some(1),
            Some(2),
            Some(3),
            Some(4),
            Some(5),
            Some(6),
            Some(7),
            Some(8),
            Some(9),
            Some(10),
            Some(11),
            Some(12),
            Some(13),
            Some(14),
            Some(15),
            None
        ]
    );
    assert_eq!(board.locate_empty(), 15);
    for index in 0..15 {
        assert_eq!(board.cell(index), Some(index + 1));
    }
    assert_eq!(board.cell(15), None);
}

#[test]
fn swap_exchanges_two_slots_and_nothing_else() {
    let mut board = Board::new_solved();
    board.swap(2, 9);
    let mut expected = solved();
    expected.swap(2, 9);
    assert_eq!(board.cells(), expected);
    assert_eq!(board.cell(2), Some(10));
    assert_eq!(board.cell(9), Some(3));
    assert_eq!(board.locate_empty(), 15);
}

#[test]
fn swap_follows_the_empty_slot() {
    let mut board = Board::new_solved();
    board.swap(15, 0);
    assert_eq!(board.locate_empty(), 0);
    assert_eq!(board.cell(0), None);
    assert_eq!(board.cell(15), Some(1));
    board.swap(7, 0);
    assert_eq!(board.locate_empty(), 7);
    assert_eq!(board.cell(0), Some(8));
    board.swap(7, 7);
    assert_eq!(board.locate_empty(), 7);
    board.swap(3, 4);
    assert_eq!(board.locate_empty(), 7);
}

#[test]
fn swap_of_a_slot_with_itself_changes_nothing() {
    let mut board = Board::new_solved();
    board.swap(5, 5);
    assert_eq!(board.cells(), solved());
    board.swap(15, 15);
    assert_eq!(board.cells(), solved());
    assert_eq!(board.locate_empty(), 15);
}

#[test]
fn locate_empty_agrees_with_a_scan() {
    let mut board = Board::new_solved();
    let steps: [(usize, usize); 6] = [(15, 3), (3, 8), (1, 2), (8, 0), (0, 12), (12, 12)];
    for (a, b) in steps {
        board.swap(a, b);
        let cells = board.cells();
        let scanned: Vec<usize> = (0..SLOTS).filter(|i| cells[*i].is_none()).collect();
        assert_eq!(scanned, vec![board.locate_empty()]);
    }
}

#[test]
fn translate_to_tile_finds_every_tile_and_nothing_else() {
    let mut board = Board::new_solved();
    board.swap(0, 15);
    board.swap(4, 11);
    let cells = board.cells();
    for value in 1..16 {
        let at = board.translate_to_tile(value).expect("tile on the board");
        assert_eq!(cells[at], Some(value));
    }
    assert_eq!(board.translate_to_tile(0), None);
    assert_eq!(board.translate_to_tile(16), None);
    assert_eq!(board.translate_to_tile(99), None);
    assert_eq!(board.translate_to_tile(usize::MAX), None);
    assert_eq!(board.translate_to_tile(1), Some(15));
    assert_eq!(board.translate_to_tile(12), Some(4));
    assert_eq!(board.translate_to_tile(5), Some(11));
}

#[test]
fn move_tile_slides_a_tile_beside_the_empty_slot() {
    let mut board = Board::new_solved();
    assert_eq!(board.move_tile(12), Ok(()));
    assert_eq!(board.locate_empty(), 11);
    assert_eq!(board.cell(15), Some(12));
    assert_eq!(board.move_tile(11), Ok(()));
    assert_eq!(board.locate_empty(), 10);
    assert_eq!(board.cell(11), Some(11));
    assert_eq!(board.move_tile(15), Ok(()));
    assert_eq!(board.locate_empty(), 14);
    assert_eq!(board.cell(10), Some(15));
    assert_eq!(board.move_tile(14), Ok(()));
    assert_eq!(board.locate_empty(), 13);
    let mut expected = solved();
    expected.swap(15, 11);
    expected.swap(11, 10);
    expected.swap(10, 14);
    expected.swap(14, 13);
    assert_eq!(board.cells(), expected);
}

#[test]
fn move_tile_turns_down_a_tile_that_is_not_on_the_board() {
    let mut board = Board::new_solved();
    board.swap(15, 10);
    let before = board.cells();
    for value in [0usize, 16, 17, 99, 1000, usize::MAX] {
        assert_eq!(board.move_tile(value), Err(MoveError::NotFound));
        assert_eq!(board.cells(), before);
        assert_eq!(board.locate_empty(), 10);
    }
}

#[test]
fn move_tile_turns_down_a_tile_away_from_the_empty_slot() {
    let mut board = Board::new_solved();
    let before = board.cells();
    for value in 1..16 {
        let verdict = board.move_tile(value);
        if value == 12 || value == 15 {
            assert_eq!(verdict, Ok(()));
            let at = board.locate_empty();
            board.swap(at, 15);
        } else {
            assert_eq!(verdict, Err(MoveError::Illegal));
        }
        assert_eq!(board.cells(), before);
    }
}

#[test]
fn move_tile_turns_down_moves_across_a_row_end() {
    for (last, first) in [(3usize, 4usize), (7, 8), (11, 12)] {
        let mut board = Board::new_solved();
        board.swap(15, last);
        let tile = board.cell(first).expect("a tile");
        let before = board.cells();
        assert_eq!(board.move_tile(tile), Err(MoveError::Illegal));
        assert_eq!(board.cells(), before);

        let mut board = Board::new_solved();
        board.swap(15, first);
        let tile = board.cell(last).expect("a tile");
        let before = board.cells();
        assert_eq!(board.move_tile(tile), Err(MoveError::Illegal));
        assert_eq!(board.cells(), before);
    }
}

#[test]
fn move_tile_accepts_exactly_the_neighbors_of_the_empty_slot() {
    for empty in 0..SLOTS {
        for slot in 0..SLOTS {
            if slot == empty {
                continue;
            }
            let mut board = Board::new_solved();
            board.swap(15, empty);
            let tile = board.cell(slot).expect("a tile");
            let mut expected = board.cells();
            let verdict = board.move_tile(tile);
            if is_adjacent(slot, empty) {
                assert_eq!(verdict, Ok(()));
                expected.swap(slot, empty);
                assert_eq!(board.locate_empty(), slot);
            } else {
                assert_eq!(verdict, Err(MoveError::Illegal));
                assert_eq!(board.locate_empty(), empty);
            }
            assert_eq!(board.cells(), expected);
        }
    }
}

#[test]
fn check_win_holds_for_the_solved_board() {
    assert!(Board::new_solved().check_win());
}

#[test]
fn check_win_fails_for_every_single_transposition() {
    for a in 0..SLOTS {
        for b in (a + 1)..SLOTS {
            let mut board = Board::new_solved();
            board.swap(a, b);
            assert!(!board.check_win(), "slots {} and {} exchanged", a, b);
            board.swap(a, b);
            assert!(board.check_win());
        }
    }
}

#[test]
fn check_win_does_not_change_the_board() {
    let mut board = Board::new_solved();
    board.swap(14, 15);
    let before = board.cells();
    assert!(!board.check_win());
    assert_eq!(board.cells(), before);
    assert_eq!(board.move_tile(15), Ok(()));
    assert!(board.check_win());
    assert_eq!(board.cells(), solved());
}

#[test]
fn every_operation_keeps_each_tile_once() {
    let mut board = Board::new_solved();
    let all = sorted(&solved());
    let swaps: [(usize, usize); 8] = [(0, 15), (3, 4), (7, 8), (15, 15), (1, 14), (9, 2), (0, 5), (6, 6)];
    for (a, b) in swaps {
        board.swap(a, b);
        assert_eq!(sorted(&board.cells()), all);
    }
    for value in 0..20 {
        let _ = board.move_tile(value);
        assert_eq!(sorted(&board.cells()), all);
    }
}

#[test]
fn clone_gives_an_equal_and_separate_board() {
    let mut board = Board::new_solved();
    board.swap(4, 15);
    let copy = board.clone();
    board.swap(0, 1);
    assert_eq!(copy.locate_empty(), 4);
    assert_eq!(copy.cell(0), Some(1));
    assert_eq!(board.cell(0), Some(2));
}

#[test]
fn from_cells_takes_every_order_of_the_cells() {
    let board = Board::from_cells(&solved()).expect("the solved order");
    assert!(board.check_win());
    assert_eq!(board.locate_empty(), 15);
    let mut cells = solved();
    cells.reverse();
    let board = Board::from_cells(&cells).expect("an arrangement");
    assert_eq!(board.cells(), cells);
    assert_eq!(board.locate_empty(), 0);
    assert!(!board.check_win());
    cells.swap(0, 9);
    let board = Board::from_cells(&cells).expect("an arrangement");
    assert_eq!(board.cells(), cells);
    assert_eq!(board.locate_empty(), 9);
    assert_eq!(board.translate_to_tile(7), Some(0));
    assert_eq!(board.translate_to_tile(6), Some(10));
}

#[test]
fn from_cells_turns_down_a_wrong_number_of_cells() {
    assert!(Board::from_cells(&Vec::new()).is_none());
    let mut cells = solved();
    cells.pop();
    assert!(Board::from_cells(&cells).is_none());
    let mut cells = solved();
    cells.push(Some(16));
    assert!(Board::from_cells(&cells).is_none());
    let mut cells = solved();
    cells.push(None);
    assert!(Board::from_cells(&cells).is_none());
}

#[test]
fn from_cells_turns_down_a_tile_that_is_none_of_the_fifteen() {
    for value in [0usize, 16, 99, usize::MAX] {
        for slot in [0usize, 7, 15] {
            let mut cells = solved();
            cells[slot] = Some(value);
            assert!(Board::from_cells(&cells).is_none(), "tile {} in slot {}", value, slot);
        }
    }
}

#[test]
fn from_cells_turns_down_a_tile_that_comes_twice() {
    let mut cells = solved();
    cells[3] = Some(9);
    assert!(Board::from_cells(&cells).is_none());
    let mut cells = solved();
    cells[15] = Some(1);
    assert!(Board::from_cells(&cells).is_none());
    let mut cells = solved();
    cells[14] = Some(14);
    assert!(Board::from_cells(&cells).is_none());
}

#[test]
fn from_cells_turns_down_no_empty_slot_and_two_of_them() {
    let mut cells = solved();
    cells[15] = Some(15);
    cells[14] = Some(14);
    assert!(Board::from_cells(&cells).is_none());
    let mut cells = solved();
    cells[15] = Some(16);
    assert!(Board::from_cells(&cells).is_none());
    let mut cells = solved();
    cells[4] = None;
    assert!(Board::from_cells(&cells).is_none());
    let cells: Vec<Cell> = vec![None; 16];
    assert!(Board::from_cells(&cells).is_none());
}

#[test]
fn from_cells_gives_back_what_cells_gave() {
    let mut board = Board::new_solved();
    for (a, b) in [(0usize, 15usize), (3, 12), (5, 10), (1, 14), (15, 2)] {
        board.swap(a, b);
        let copy = Board::from_cells(&board.cells()).expect("an arrangement");
        assert_eq!(copy.cells(), board.cells());
        assert_eq!(copy.locate_empty(), board.locate_empty());
    }
}

#[test]
fn check_win_fails_with_a_hole_elsewhere() {
    let mut cells = solved();
    cells.swap(15, 6);
    let board = Board::from_cells(&cells).expect("an arrangement");
    assert!(!board.check_win());
    let mut cells = solved();
    cells.swap(15, 14);
    let board = Board::from_cells(&cells).expect("an arrangement");
    assert!(!board.check_win());
}
