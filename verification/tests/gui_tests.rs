use minesweeper::cells::Cell;
use minesweeper::cli_game::board_text_lines;
use minesweeper::game_play::Board;
use minesweeper::gui_game::{gui_label, gui_status, gui_step, GuiAnswer, GuiEvent, GuiStatus};

#[test]
fn gui_new_game_checks_configuration() {
    let mut b = Board::from_bomb_coords((2, 2), &[(0, 0)]);
    for (rows, cols, n) in [(0usize, 3usize, 1usize), (3, 0, 1), (2, 2, 5), (usize::MAX, 2, 1)] {
        assert_eq!(gui_step(&mut b, GuiEvent::NewGame { rows, cols, num_bombs: n }), GuiAnswer::InvalidConfiguration);
        assert_eq!(b.size, (2, 2));
        assert!(b.board[0].is_bomb());
    }
    assert_eq!(gui_step(&mut b, GuiEvent::NewGame { rows: 4, cols: 5, num_bombs: 7 }), GuiAnswer::Redraw);
    assert_eq!(b.size, (4, 5));
    assert_eq!(b.board.len(), 20);
    assert_eq!(b.board.iter().filter(|c| c.is_bomb()).count(), 7);
    assert!(!b.game_over);
    assert!(b.board.iter().all(|c| !c.is_revealed()));
}

#[test]
fn gui_clicks_and_end() {
    let mut b = Board::from_bomb_coords((2, 2), &[(0, 0)]);
    assert_eq!(gui_status(&b, 1), GuiStatus::Playing(2, 2, 1));
    assert_eq!(gui_step(&mut b, GuiEvent::RightClick(0, 0)), GuiAnswer::Redraw);
    assert!(b.board[0].is_flagged());
    assert_eq!(gui_step(&mut b, GuiEvent::LeftClick(0, 0)), GuiAnswer::Redraw);
    assert!(!b.board[0].is_revealed());
    assert_eq!(gui_step(&mut b, GuiEvent::LeftClick(5, 5)), GuiAnswer::Redraw);
    for (r, c) in [(0, 1), (1, 0), (1, 1)] {
        assert_eq!(gui_step(&mut b, GuiEvent::LeftClick(r, c)), GuiAnswer::Redraw);
    }
    assert_eq!(gui_status(&b, 1), GuiStatus::Won);
    assert_eq!(gui_step(&mut b, GuiEvent::RightClick(0, 0)), GuiAnswer::Ignored);
    assert!(b.board[0].is_flagged());
    let mut lost = Board::from_bomb_coords((1, 2), &[(0, 1)]);
    gui_step(&mut lost, GuiEvent::LeftClick(0, 1));
    assert_eq!(gui_status(&lost, 1), GuiStatus::Lost);
    assert_eq!(gui_step(&mut lost, GuiEvent::LeftClick(0, 0)), GuiAnswer::Ignored);
    assert!(!lost.board[0].is_revealed());
}

#[test]
fn gui_labels() {
    let mut c = Cell::new_number(0);
    assert_eq!(gui_label(&c), ".");
    c.cycle_status();
    assert_eq!(gui_label(&c), "F");
    c.cycle_status();
    assert_eq!(gui_label(&c), "?");
    c.reveal_cell();
    assert_eq!(gui_label(&c), " ");
    for n in [1, 8, 12, 2147483647, -5, i32::MIN] {
        let mut d = Cell::new_number(n);
        d.reveal_cell();
        assert_eq!(gui_label(&d), n.to_string());
    }
    let mut b = Cell::new_bomb();
    b.reveal_cell();
    assert_eq!(gui_label(&b), "B");
}

#[test]
fn printed_board_layout() {
    let mut b = Board::from_bomb_coords((2, 3), &[(0, 0)]);
    b.reveal_index(2).unwrap();
    b.cycle_flag(0).unwrap();
    let lines = board_text_lines(&b);
    assert_eq!(lines, vec!["  | 0 1 2", "---------", "0 | F 1  ", "1 | . 1  "]);
    let big = Board::from_bomb_coords((11, 12), &[]);
    let lines = board_text_lines(&big);
    assert_eq!(lines.len(), 13);
    assert!(lines[0].starts_with("   | 00 01 02"));
    assert!(lines[0].ends_with(" 11"));
    assert_eq!(lines[1].len(), 4 + 3 * 12);
    assert!(lines[2].starts_with("00 |"));
    assert_eq!(lines[2].len(), 4 + 3 * 12);
    assert!(lines[12].starts_with("10 |"));
}
