use minesweeper::cells::Status;
use minesweeper::game_play::Board;

#[test]
fn three_mark_cycles_restore_board() {
    let mut b = Board::from_bomb_coords((2, 2), &[(1, 0)]);
    let before: Vec<Status> = b.board.iter().map(|c| c.status).collect();
    for _ in 0..3 {
        b.cycle_flag(2).unwrap();
    }
    let after: Vec<Status> = b.board.iter().map(|c| c.status).collect();
    assert_eq!(before, after);
}

#[test]
fn flags_survive_flood_and_chord() {
    let mut b = Board::from_bomb_coords((3, 3), &[(2, 2)]);
    b.cycle_flag(1).unwrap();
    assert_eq!(b.reveal_index(0), Ok(0));
    assert!(b.board[1].is_flagged());
    assert_eq!(b.reveal_index(3), Ok(0));
    assert!(b.board[1].is_flagged());
}

#[test]
fn reveal_never_hides_or_changes_numbers() {
    let mut b = Board::from_bomb_coords((3, 3), &[(0, 0), (2, 2)]);
    let types: Vec<_> = b.board.iter().map(|c| c.cell_type).collect();
    b.reveal_index(2).unwrap();
    let shown: Vec<bool> = b.board.iter().map(|c| c.is_revealed()).collect();
    b.reveal_index(4).unwrap();
    b.reveal_index(6).unwrap();
    for (i, c) in b.board.iter().enumerate() {
        assert_eq!(c.cell_type, types[i]);
        assert!(!shown[i] || c.is_revealed());
    }
}

#[test]
fn safe_reveals_never_end_game() {
    let mut b = Board::from_bomb_coords((4, 4), &[(0, 3), (3, 0)]);
    for i in 0..16 {
        if !b.board[i].is_bomb() && !b.board[i].is_revealed() {
            assert!(b.reveal_index(i).is_ok());
            assert!(!b.game_over);
        }
    }
    assert!(b.board.iter().filter(|c| c.is_bomb()).all(|c| !c.is_revealed()));
    assert!(b.check_win());
}

#[test]
fn game_over_exactly_when_bomb_shows() {
    let mut b = Board::from_bomb_coords((3, 3), &[(1, 1)]);
    let shows = |b: &Board| b.board.iter().any(|c| c.is_bomb() && c.is_revealed());
    assert_eq!(b.game_over, shows(&b));
    b.reveal_index(0).unwrap();
    assert_eq!(b.game_over, shows(&b));
    b.cycle_flag(2).unwrap();
    assert_eq!(b.game_over, shows(&b));
    assert_eq!(b.reveal_index(4), Err(String::from("BOMB")));
    assert!(b.game_over);
    assert_eq!(b.game_over, shows(&b));
    b.reveal_index(0).unwrap();
    assert!(b.game_over);
}

#[test]
fn won_game_stays_won() {
    let mut b = Board::from_bomb_coords((2, 2), &[(0, 0)]);
    for i in 1..4 {
        b.reveal_index(i).unwrap();
    }
    assert!(b.check_win());
    b.cycle_flag(0).unwrap();
    assert!(b.check_win());
    assert_eq!(b.reveal_index(0), Err(String::from("FLAGGED")));
    assert_eq!(b.reveal_index(3), Ok(1));
    assert_eq!(b.cycle_flag(2), Err(String::from("REVEALED")));
    assert!(b.check_win());
}

#[test]
fn board_depends_only_on_listed_cells() {
    let a = Board::from_bomb_coords((3, 4), &[(0, 1), (2, 3), (1, 1)]);
    let b = Board::from_bomb_coords((3, 4), &[(1, 1), (9, 9), (0, 1), (2, 3), (0, 1), (0, 7)]);
    assert_eq!(a.size, b.size);
    assert_eq!(a.game_over, b.game_over);
    for i in 0..12 {
        assert_eq!(a.board[i].cell_type, b.board[i].cell_type);
        assert_eq!(a.board[i].status, b.board[i].status);
    }
}

#[test]
fn shown_bomb_keeps_game_over() {
    let mut b = Board::from_bomb_coords((3, 3), &[(0, 0), (2, 2)]);
    assert_eq!(b.reveal_index(0), Err(String::from("BOMB")));
    assert!(b.game_over);
    b.reveal_index(4).unwrap();
    b.reveal_index(4).unwrap();
    assert!(b.game_over);
}
