//! The decisions of the graphical game: starting a new game from the
//! chosen size and bomb count, what a left or right click on a cell does,
//! the status line, and the label of each cell button.

use vstd::prelude::*;

use crate::cells::{Cell, CellType, Status};
use crate::cli_game::{reveal_rc_outcome, cycle_rc_outcome};
use crate::game_play::Board;
use crate::rules::{all_safe_revealed, built_from, picks, draws_fit};
use crate::text::{
    int_text, decimal, push_int, string_from_chars, all_digits, digits_value, law_decimal_reads_back,
};
use crate::tui_game::ended;

verus! {

/// Something the player does in the graphical game.
pub enum GuiEvent {
    /// The "New Game" or "Restart Game" button, with the configured size and
    /// number of bombs.
    NewGame { rows: usize, cols: usize, num_bombs: usize },
    /// A left click on the cell at (row, col).
    LeftClick(usize, usize),
    /// A right click on the cell at (row, col).
    RightClick(usize, usize),
}

/// What the graphical game does after an event.
#[derive(Debug, Clone, Copy, PartialEq, Eq, Structural)]
pub enum GuiAnswer {
    /// The board changed or was replaced: draw it again.
    Redraw,
    /// The configuration is invalid: tell the player, keep the board.
    InvalidConfiguration,
    /// The game has ended: the click does nothing.
    Ignored,
}

/// The status line of the graphical game.
#[derive(Debug, Clone, Copy, PartialEq, Eq, Structural)]
pub enum GuiStatus {
    /// A bomb was revealed.
    Lost,
    /// Every safe cell is revealed.
    Won,
    /// The game goes on: rows, columns and the configured number of bombs.
    Playing(usize, usize, usize),
}

/// A configuration cannot start a game: a zero dimension, a cell count
/// beyond `usize`, or more bombs than cells.
pub open spec fn invalid_configuration(rows: usize, cols: usize, num_bombs: usize) -> bool {
    rows == 0 || cols == 0 || rows * cols > usize::MAX || num_bombs > rows * cols
}

/// Handle one event of the graphical game.
///
/// A new game with an invalid configuration keeps the board; a valid one
/// replaces it by a board of the chosen size with `num_bombs` bombs drawn at
/// random. Once the game has ended clicks are ignored; otherwise a left click
/// reveals the cell and a right click cycles its mark.
pub fn gui_step(board: &mut Board, ev: GuiEvent) -> (a: GuiAnswer)
    requires
        old(board).wf(),
    ensures
        final(board).wf(),
        match ev {
            GuiEvent::NewGame { rows, cols, num_bombs } => {
                &&& invalid_configuration(rows, cols, num_bombs) ==> a == GuiAnswer::InvalidConfiguration
                    && *final(board) == *old(board)
                &&& !invalid_configuration(rows, cols, num_bombs) ==> {
                    &&& a == GuiAnswer::Redraw
                    &&& final(board).size == (rows, cols)
                    &&& !final(board).game_over
                    &&& exists|d: Seq<usize>|
                        d.len() == num_bombs && draws_fit((rows, cols), d) && built_from(
                            final(board).board@,
                            (rows, cols),
                            #[trigger] picks((rows, cols), d),
                        )
                }
            },
            GuiEvent::LeftClick(r, c) => if ended(*old(board)) {
                *final(board) == *old(board) && a == GuiAnswer::Ignored
            } else {
                &&& final(board).size == old(board).size
                &&& final(board).board@ == reveal_rc_outcome(*old(board), r, c).0
                &&& final(board).game_over == reveal_rc_outcome(*old(board), r, c).1
                &&& a == GuiAnswer::Redraw
            },
            GuiEvent::RightClick(r, c) => if ended(*old(board)) {
                *final(board) == *old(board) && a == GuiAnswer::Ignored
            } else {
                &&& final(board).size == old(board).size
                &&& final(board).board@ == cycle_rc_outcome(*old(board), r, c).0
                &&& final(board).game_over == old(board).game_over
                &&& a == GuiAnswer::Redraw
            },
        },
{
    match ev {
        GuiEvent::NewGame { rows, cols, num_bombs } => {
            if rows == 0 || cols == 0 {
                return GuiAnswer::InvalidConfiguration;
            }
            let cells = match rows.checked_mul(cols) {
                Some(n) => n,
                None => {
                    return GuiAnswer::InvalidConfiguration;
                },
            };
            if num_bombs > cells {
                return GuiAnswer::InvalidConfiguration;
            }
            let coords = Board::random_bomb_coords((rows, cols), num_bombs);
            *board = Board::from_bomb_coords((rows, cols), coords.as_slice());
            GuiAnswer::Redraw
        },
        GuiEvent::LeftClick(r, c) => {
            if board.game_over || board.check_win() {
                return GuiAnswer::Ignored;
            }
            let _ = board.reveal_rc(r, c);
            GuiAnswer::Redraw
        },
        GuiEvent::RightClick(r, c) => {
            if board.game_over || board.check_win() {
                return GuiAnswer::Ignored;
            }
            let _ = board.cycle_flag_rc(r, c);
            GuiAnswer::Redraw
        },
    }
}

/// The status line: lost, won, or the size and configured number of bombs.
pub fn gui_status(board: &Board, num_bombs: usize) -> (s: GuiStatus)
    ensures
        s == (if board.game_over {
            GuiStatus::Lost
        } else if all_safe_revealed(board.board@) {
            GuiStatus::Won
        } else {
            GuiStatus::Playing(board.size.0, board.size.1, num_bombs)
        }),
{
    if board.game_over {
        GuiStatus::Lost
    } else if board.check_win() {
        GuiStatus::Won
    } else {
        GuiStatus::Playing(board.size.0, board.size.1, num_bombs)
    }
}

/// The label of a cell button: `.` hidden, `F` flagged, `?` question, and
/// once revealed `B` for a bomb, a space for a zero, and the number written
/// in decimal otherwise.
pub open spec fn gui_label_of(c: Cell) -> Seq<char> {
    match c.status {
        Status::Hidden => seq!['.'],
        Status::Flag => seq!['F'],
        Status::Question => seq!['?'],
        Status::Revealed => match c.cell_type {
            CellType::Bomb => seq!['B'],
            CellType::Number(n) => if n == 0 {
                seq![' ']
            } else {
                int_text(n as int)
            },
        },
    }
}

/// The label of a cell button (see [`gui_label_of`]).
pub fn gui_label(c: &Cell) -> (l: String)
    ensures
        l@ == gui_label_of(*c),
{
    let mut out: Vec<char> = Vec::new();
    match c.status {
        Status::Hidden => out.push('.'),
        Status::Flag => out.push('F'),
        Status::Question => out.push('?'),
        Status::Revealed => match c.cell_type {
            CellType::Bomb => out.push('B'),
            CellType::Number(n) => {
                if n == 0 {
                    out.push(' ');
                } else {
                    push_int(&mut out, n);
                }
            },
        },
    }
    proof {
        assert(out@ =~= gui_label_of(*c));
    }
    string_from_chars(&out)
}

/// The button of a revealed number cell is labelled with the number written
/// in decimal: for a positive number, ASCII digits without a leading zero
/// that read back as the number; for a negative number, a `-` followed by
/// such digits for its magnitude; for zero, a blank.
pub proof fn law_gui_label_number(c: Cell, n: i32)
    requires
        c.status == Status::Revealed,
        c.cell_type == CellType::Number(n),
    ensures
        n == 0 ==> gui_label_of(c) == seq![' '],
        n > 0 ==> {
            let l = gui_label_of(c);
            &&& l.len() > 0
            &&& all_digits(l)
            &&& digits_value(l) == n
            &&& l[0] != '0'
        },
        n < 0 ==> {
            let l = gui_label_of(c);
            &&& l.len() > 1
            &&& l[0] == '-'
            &&& all_digits(l.drop_first())
            &&& digits_value(l.drop_first()) == -n
            &&& l[1] != '0'
        },
{
    if n > 0 {
        law_decimal_reads_back(n as nat);
    } else if n < 0 {
        law_decimal_reads_back((-n) as nat);
        let l = gui_label_of(c);
        assert(l.drop_first() =~= decimal((-n) as nat));
    }
}

} // verus!
