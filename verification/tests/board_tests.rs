use minesweeper::cells::{CellType, Status};
use minesweeper::game_play::Board;

fn numbers(b: &Board) -> Vec<Option<i32>> {
    b.board.iter().map(|c| c.number_value()).collect()
}

fn revealed(b: &Board) -> Vec<bool> {
    b.board.iter().map(|c| c.is_revealed()).collect()
}

#[test]
fn new_game_is_empty_and_hidden() {
    let b = Board::new_game((2, 3));
    assert_eq!(b.size, (2, 3));
    assert_eq!(b.board.len(), 6);
    assert!(!b.game_over);
    for c in &b.board {
        assert_eq!(c.cell_type, CellType::Number(0));
        assert_eq!(c.status, Status::Hidden);
    }
}

#[test]
fn index_conversions() {
    let b = Board::new_game((3, 4));
    assert_eq!(b.rc_to_index_checked(2, 3), Some(11));
    assert_eq!(b.rc_to_index_checked(1, 0), Some(4));
    assert_eq!(b.rc_to_index_checked(3, 0), None);
    assert_eq!(b.rc_to_index_checked(0, 4), None);
    assert_eq!(b.index_to_rc(11), (2, 3));
    assert_eq!(b.index_to_rc(5), (1, 1));
    for r in 0..3 {
        for c in 0..4 {
            let i = b.rc_to_index_checked(r, c).unwrap();
            assert_eq!(b.index_to_rc(i), (r, c));
        }
    }
}

#[test]
fn neighbors_of_corner_edge_and_middle() {
    let b = Board::new_game((3, 3));
    assert_eq!(b.neighbors_indices(0), vec![1, 3, 4]);
    assert_eq!(b.neighbors_indices(1), vec![0, 2, 3, 4, 5]);
    assert_eq!(b.neighbors_indices(4), vec![0, 1, 2, 3, 5, 6, 7, 8]);
    assert_eq!(b.neighbors_indices(8), vec![4, 5, 7]);
}

#[test]
fn neighbors_past_the_last_row() {
    let b = Board::new_game((3, 3));
    assert_eq!(b.neighbors_indices(9), vec![6, 7]);
    assert_eq!(b.neighbors_indices(12), Vec::<usize>::new());
}

#[test]
fn neighbors_on_a_single_row() {
    let b = Board::new_game((1, 4));
    assert_eq!(b.neighbors_indices(0), vec![1]);
    assert_eq!(b.neighbors_indices(2), vec![1, 3]);
}

#[test]
fn from_bomb_coords_counts_neighbors() {
    let b = Board::from_bomb_coords((3, 3), &[(0, 0)]);
    assert_eq!(
        numbers(&b),
        vec![None, Some(1), Some(0), Some(1), Some(1), Some(0), Some(0), Some(0), Some(0)]
    );
    assert!(!b.game_over);
    assert!(b.board.iter().all(|c| c.status == Status::Hidden));
}

#[test]
fn from_bomb_coords_ignores_outside_and_repeats() {
    let b = Board::from_bomb_coords((2, 2), &[(5, 0), (0, 7), (1, 1), (1, 1)]);
    assert_eq!(numbers(&b), vec![Some(1), Some(1), Some(1), None]);
}

#[test]
fn from_bomb_coords_full_board() {
    let b = Board::from_bomb_coords((2, 2), &[(0, 0), (0, 1), (1, 0), (1, 1)]);
    assert!(b.board.iter().all(|c| c.is_bomb()));
    assert!(b.check_win());
}

#[test]
fn from_bomb_coords_eight_around() {
    let coords = [(0, 0), (0, 1), (0, 2), (1, 0), (1, 2), (2, 0), (2, 1), (2, 2)];
    let b = Board::from_bomb_coords((3, 3), &coords);
    assert_eq!(b.board[4].number_value(), Some(8));
}

#[test]
fn reveal_out_of_bounds() {
    let mut b = Board::from_bomb_coords((2, 2), &[(0, 0)]);
    assert_eq!(b.reveal_index(4), Err(String::from("OUT_OF_BOUNDS")));
    assert_eq!(b.reveal_rc(2, 0), Err(String::from("OUT_OF_BOUNDS")));
    assert_eq!(b.reveal_rc(0, 2), Err(String::from("OUT_OF_BOUNDS")));
    assert_eq!(revealed(&b), vec![false; 4]);
}

#[test]
fn reveal_number_only_that_cell() {
    let mut b = Board::from_bomb_coords((3, 3), &[(0, 0)]);
    assert_eq!(b.reveal_index(4), Ok(1));
    assert_eq!(revealed(&b), vec![false, false, false, false, true, false, false, false, false]);
    assert!(!b.game_over);
}

#[test]
fn reveal_bomb_ends_game() {
    let mut b = Board::from_bomb_coords((3, 3), &[(0, 0)]);
    assert_eq!(b.reveal_rc(0, 0), Err(String::from("BOMB")));
    assert!(b.game_over);
    assert!(b.board[0].is_revealed());
    assert_eq!(b.reveal_index(0), Err(String::from("BOMB")));
}

#[test]
fn reveal_flagged_cell_is_refused() {
    let mut b = Board::from_bomb_coords((3, 3), &[(0, 0)]);
    assert_eq!(b.cycle_flag(0), Ok(()));
    assert_eq!(b.reveal_index(0), Err(String::from("FLAGGED")));
    assert!(!b.game_over);
    assert!(b.board[0].is_flagged());
}

#[test]
fn reveal_zero_floods_region() {
    let mut b = Board::from_bomb_coords((3, 3), &[(0, 0)]);
    assert_eq!(b.reveal_index(8), Ok(0));
    assert_eq!(revealed(&b), vec![false, true, true, true, true, true, true, true, true]);
    assert!(!b.game_over);
    assert!(b.check_win());
}

#[test]
fn flood_stops_at_numbers_and_flags() {
    // Column 2 holds bombs; columns 0..1 hold zeroes and ones.
    let mut b = Board::from_bomb_coords((3, 4), &[(0, 3), (1, 3), (2, 3)]);
    assert_eq!(b.cycle_flag(4), Ok(()));
    assert_eq!(b.reveal_index(0), Ok(0));
    assert_eq!(
        revealed(&b),
        vec![true, true, true, false, false, true, true, false, true, true, true, false]
    );
    assert!(b.board[4].is_flagged());
    assert!(!b.check_win());
}

#[test]
fn flood_on_empty_row_opens_everything() {
    let mut b = Board::from_bomb_coords((1, 5), &[]);
    assert_eq!(b.reveal_index(2), Ok(0));
    assert_eq!(revealed(&b), vec![true; 5]);
}

#[test]
fn question_mark_does_not_block_reveal() {
    let mut b = Board::from_bomb_coords((1, 3), &[(0, 2)]);
    b.cycle_flag(0).unwrap();
    b.cycle_flag(0).unwrap();
    assert!(b.board[0].is_question());
    assert_eq!(b.reveal_index(0), Ok(0));
    assert_eq!(revealed(&b), vec![true, true, false]);
}

#[test]
fn chord_with_matching_flags_opens_neighbors() {
    let mut b = Board::from_bomb_coords((3, 3), &[(0, 0)]);
    assert_eq!(b.reveal_index(4), Ok(1));
    assert_eq!(b.cycle_flag(0), Ok(()));
    assert_eq!(b.count_flagged_neighbors(4), 1);
    assert_eq!(b.reveal_index(4), Ok(1));
    assert_eq!(revealed(&b), vec![false, true, true, true, true, true, true, true, true]);
    assert!(!b.game_over);
    assert!(b.check_win());
}

#[test]
fn chord_with_wrong_flag_hits_bomb() {
    let mut b = Board::from_bomb_coords((3, 3), &[(0, 0)]);
    assert_eq!(b.reveal_index(4), Ok(1));
    assert_eq!(b.cycle_flag(1), Ok(()));
    assert_eq!(b.reveal_index(4), Ok(1));
    assert!(b.game_over);
    assert!(b.board[0].is_revealed());
    assert!(b.board[1].is_flagged());
}

#[test]
fn no_chord_when_flags_do_not_match() {
    let mut b = Board::from_bomb_coords((3, 3), &[(0, 0)]);
    assert_eq!(b.reveal_index(4), Ok(1));
    assert_eq!(b.count_flagged_neighbors(4), 0);
    assert_eq!(b.reveal_index(4), Ok(1));
    assert_eq!(revealed(&b), vec![false, false, false, false, true, false, false, false, false]);
}

#[test]
fn cycle_flag_results() {
    let mut b = Board::from_bomb_coords((2, 2), &[(0, 0)]);
    assert_eq!(b.cycle_flag(9), Err(String::from("OUT_OF_BOUNDS")));
    assert_eq!(b.cycle_flag_rc(0, 5), Err(String::from("OUT_OF_BOUNDS")));
    assert_eq!(b.cycle_flag_rc(1, 1), Ok(()));
    assert_eq!(b.board[3].status, Status::Flag);
    assert_eq!(b.cycle_flag(3), Ok(()));
    assert_eq!(b.board[3].status, Status::Question);
    assert_eq!(b.cycle_flag(3), Ok(()));
    assert_eq!(b.board[3].status, Status::Hidden);
    assert_eq!(b.reveal_index(3), Ok(1));
    assert_eq!(b.cycle_flag(3), Err(String::from("REVEALED")));
    assert_eq!(b.board[3].status, Status::Revealed);
}

#[test]
fn check_win_requires_all_safe_cells() {
    let mut b = Board::from_bomb_coords((1, 3), &[(0, 0)]);
    assert!(!b.check_win());
    assert_eq!(b.reveal_index(1), Ok(1));
    assert!(!b.check_win());
    assert_eq!(b.reveal_index(2), Ok(0));
    assert!(b.check_win());
}

#[test]
fn random_coords_are_distinct_and_on_board() {
    for &(rows, cols, n) in &[(9usize, 9usize, 10usize), (2, 3, 6), (4, 1, 0), (1, 1, 1)] {
        let coords = Board::random_bomb_coords((rows, cols), n);
        assert_eq!(coords.len(), n);
        for (i, a) in coords.iter().enumerate() {
            assert!(a.0 < rows && a.1 < cols);
            for b in coords.iter().skip(i + 1) {
                assert_ne!(a, b);
            }
        }
        let board = Board::from_bomb_coords((rows, cols), &coords);
        assert_eq!(board.board.iter().filter(|c| c.is_bomb()).count(), n);
    }
}
