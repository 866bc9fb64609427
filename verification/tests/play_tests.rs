use minesweeper::cli_game::{cli_step, finished, parse_command, Command, Reply};
use minesweeper::game_play::Board;
use minesweeper::text::{parse_usize, text_is};
use minesweeper::tui_game::{tui_step, TuiAction, TuiKey, TuiState};

fn words(line: &str) -> Vec<String> {
    line.split_whitespace().map(String::from).collect()
}

#[test]
fn draws_pick_from_swap_removed_list() {
    assert_eq!(Board::coords_from_draws((2, 3), &[0, 0, 0]), vec![(0, 0), (1, 2), (1, 1)]);
    assert_eq!(Board::coords_from_draws((2, 3), &[5, 0]), vec![(1, 2), (0, 0)]);
    assert_eq!(Board::coords_from_draws((2, 3), &[]), Vec::<(usize, usize)>::new());
    assert_eq!(
        Board::coords_from_draws((1, 3), &[1, 1, 0]),
        vec![(0, 1), (0, 2), (0, 0)]
    );
}

#[test]
fn text_comparison() {
    assert!(text_is("quit", "quit"));
    assert!(!text_is("quit", "qui"));
    assert!(!text_is("Quit", "quit"));
    assert!(text_is("", ""));
}

#[test]
fn parse_usize_like_std() {
    for s in ["0", "12", "+7", "007", "", "+", "-1", "1a", " 1", "18446744073709551615", "18446744073709551616", "٣"] {
        assert_eq!(parse_usize(s), s.parse::<usize>().ok(), "{:?}", s);
    }
    assert_eq!(parse_usize("+42"), Some(42));
}

#[test]
fn parse_commands() {
    assert!(matches!(parse_command(&words("q")), Command::Quit));
    assert!(matches!(parse_command(&words("EXIT now")), Command::Quit));
    assert!(matches!(parse_command(&words("Help")), Command::Help));
    assert!(matches!(parse_command(&words("r 1 2")), Command::Reveal(1, 2)));
    assert!(matches!(parse_command(&words("Reveal +3 04")), Command::Reveal(3, 4)));
    assert!(matches!(parse_command(&words("mark 0 5 extra")), Command::Flag(0, 5)));
    assert!(matches!(parse_command(&words("f 1")), Command::FlagUsage));
    assert!(matches!(parse_command(&words("r")), Command::RevealUsage));
    match parse_command(&words("r x 2")) {
        Command::InvalidRow(w) => assert_eq!(w, "x"),
        _ => panic!("expected an invalid row"),
    }
    match parse_command(&words("flag 2 -1")) {
        Command::InvalidCol(w) => assert_eq!(w, "-1"),
        _ => panic!("expected an invalid column"),
    }
    match parse_command(&words("Dig 1 1")) {
        Command::Unknown(w) => assert_eq!(w, "dig"),
        _ => panic!("expected an unknown command"),
    }
}

#[test]
fn cli_step_replies() {
    let mut b = Board::from_bomb_coords((3, 3), &[(0, 0)]);
    assert_eq!(finished(&b), None);
    assert!(matches!(cli_step(&mut b, Command::Reveal(9, 0)), Reply::OutOfBounds));
    assert!(matches!(cli_step(&mut b, Command::Flag(0, 0)), Reply::Marked(0, 0)));
    assert!(matches!(cli_step(&mut b, Command::Reveal(0, 0)), Reply::RevealFlagged(0, 0)));
    assert!(matches!(cli_step(&mut b, Command::Reveal(1, 1)), Reply::Revealed(1, 1, 1)));
    assert!(matches!(cli_step(&mut b, Command::Flag(1, 1)), Reply::AlreadyRevealed));
    assert!(matches!(cli_step(&mut b, Command::Flag(0, 9)), Reply::OutOfBounds));
    assert!(matches!(cli_step(&mut b, Command::Help), Reply::Help));
    assert!(matches!(cli_step(&mut b, Command::Quit), Reply::Bye));
    assert!(matches!(cli_step(&mut b, Command::Reveal(2, 2)), Reply::Revealed(2, 2, 0)));
    assert_eq!(finished(&b), Some(true));
    let mut b2 = Board::from_bomb_coords((2, 2), &[(1, 1)]);
    assert!(matches!(cli_step(&mut b2, Command::Reveal(1, 1)), Reply::Boom(1, 1)));
    assert_eq!(finished(&b2), Some(false));
}

#[test]
fn tui_cursor_stays_on_board() {
    let mut st = TuiState { board: Board::from_bomb_coords((2, 3), &[(0, 0)]), cursor_r: 0, cursor_c: 0, num_bombs: 1 };
    assert_eq!(tui_step(&mut st, TuiKey::Left), TuiAction::Continue);
    assert_eq!((st.cursor_r, st.cursor_c), (0, 0));
    tui_step(&mut st, TuiKey::Up);
    assert_eq!((st.cursor_r, st.cursor_c), (0, 0));
    for _ in 0..5 {
        tui_step(&mut st, TuiKey::Right);
        tui_step(&mut st, TuiKey::Down);
    }
    assert_eq!((st.cursor_r, st.cursor_c), (1, 2));
    tui_step(&mut st, TuiKey::Other);
    assert_eq!((st.cursor_r, st.cursor_c), (1, 2));
}

#[test]
fn tui_reveal_flag_and_end() {
    let mut st = TuiState { board: Board::from_bomb_coords((2, 2), &[(0, 0)]), cursor_r: 0, cursor_c: 0, num_bombs: 1 };
    tui_step(&mut st, TuiKey::Flag);
    assert!(st.board.board[0].is_flagged());
    tui_step(&mut st, TuiKey::Reveal);
    assert!(!st.board.board[0].is_revealed());
    tui_step(&mut st, TuiKey::Flag);
    tui_step(&mut st, TuiKey::Flag);
    tui_step(&mut st, TuiKey::Reveal);
    assert!(st.board.game_over);
    tui_step(&mut st, TuiKey::Right);
    assert_eq!(st.cursor_c, 0);
    tui_step(&mut st, TuiKey::Restart);
    assert!(!st.board.game_over);
    assert_eq!(st.board.board.iter().filter(|c| c.is_bomb()).count(), 1);
    assert!(st.board.board.iter().all(|c| !c.is_revealed()));
    assert_eq!(tui_step(&mut st, TuiKey::Quit), TuiAction::Quit);
}
