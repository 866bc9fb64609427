//! The decisions of the full-screen terminal game: a key moves the cursor,
//! reveals or marks the cell under it, starts a new game, or quits.

use vstd::prelude::*;

use crate::game_play::Board;
use crate::rules::{reveal_outcome, cycle_outcome, all_safe_revealed, built_from, picks, draws_fit};

verus! {

/// A key, as the terminal game reads it.
#[derive(Debug, Clone, Copy, PartialEq, Eq, Structural)]
pub enum TuiKey {
    /// Arrow left or `h`.
    Left,
    /// Arrow right or `l`.
    Right,
    /// Arrow up or `k`.
    Up,
    /// Arrow down or `j`.
    Down,
    /// `f`: cycle the mark of the cell under the cursor.
    Flag,
    /// Space or Enter: reveal the cell under the cursor.
    Reveal,
    /// `r`: start a new game with the same size and number of bombs.
    Restart,
    /// `q`: leave.
    Quit,
    /// Any other key.
    Other,
}

/// What the terminal game does after a key.
#[derive(Debug, Clone, Copy, PartialEq, Eq, Structural)]
pub enum TuiAction {
    /// Draw the board again and wait for the next key.
    Continue,
    /// Leave the game.
    Quit,
}

/// The state of the terminal game: the board, the cursor, and how many bombs
/// a new game gets.
pub struct TuiState {
    pub board: Board,
    pub cursor_r: usize,
    pub cursor_c: usize,
    pub num_bombs: usize,
}

/// The game has ended: a bomb was revealed, or every safe cell is.
pub open spec fn ended(b: Board) -> bool {
    b.game_over || all_safe_revealed(b.board@)
}

/// The board is well formed and the cursor is on it.
pub open spec fn tui_valid(st: TuiState) -> bool {
    &&& st.board.wf()
    &&& st.cursor_r < st.board.size.0
    &&& st.cursor_c < st.board.size.1
}

/// The index of the cell under the cursor.
pub open spec fn cursor_index(st: TuiState) -> int {
    st.cursor_r * st.board.size.1 + st.cursor_c
}

/// Handle one key.
///
/// `Quit` leaves, whatever the state. `Restart` starts a new game of the
/// same size with `num_bombs` bombs drawn at random and the cursor in the
/// top-left corner. Once the game has ended every other key is ignored.
/// Otherwise the arrows move the cursor by one cell and stop at the border,
/// `Flag` cycles the mark under the cursor, `Reveal` reveals the cell under
/// the cursor, and any other key is ignored.
pub fn tui_step(st: &mut TuiState, key: TuiKey) -> (a: TuiAction)
    requires
        tui_valid(*old(st)),
        key == TuiKey::Restart ==> old(st).num_bombs <= old(st).board.size.0 * old(st).board.size.1,
    ensures
        tui_valid(*final(st)),
        final(st).board.size == old(st).board.size,
        final(st).num_bombs == old(st).num_bombs,
        key == TuiKey::Quit ==> a == TuiAction::Quit && *final(st) == *old(st),
        key != TuiKey::Quit ==> a == TuiAction::Continue,
        key == TuiKey::Restart ==> {
            &&& final(st).cursor_r == 0
            &&& final(st).cursor_c == 0
            &&& !final(st).board.game_over
            &&& exists|draws: Seq<usize>|
                draws.len() == old(st).num_bombs && draws_fit(old(st).board.size, draws) && built_from(
                    final(st).board.board@,
                    old(st).board.size,
                    #[trigger] picks(old(st).board.size, draws),
                )
        },
        key != TuiKey::Quit && key != TuiKey::Restart && ended(old(st).board) ==> *final(st) == *old(st),
        key != TuiKey::Quit && key != TuiKey::Restart && !ended(old(st).board) ==> match key {
            TuiKey::Left => final(st).board == old(st).board && final(st).cursor_r == old(st).cursor_r
                && final(st).cursor_c == (if old(st).cursor_c > 0 {
                old(st).cursor_c - 1
            } else {
                old(st).cursor_c as int
            }),
            TuiKey::Right => final(st).board == old(st).board && final(st).cursor_r == old(st).cursor_r
                && final(st).cursor_c == (if old(st).cursor_c + 1 < old(st).board.size.1 {
                old(st).cursor_c + 1
            } else {
                old(st).cursor_c as int
            }),
            TuiKey::Up => final(st).board == old(st).board && final(st).cursor_c == old(st).cursor_c
                && final(st).cursor_r == (if old(st).cursor_r > 0 {
                old(st).cursor_r - 1
            } else {
                old(st).cursor_r as int
            }),
            TuiKey::Down => final(st).board == old(st).board && final(st).cursor_c == old(st).cursor_c
                && final(st).cursor_r == (if old(st).cursor_r + 1 < old(st).board.size.0 {
                old(st).cursor_r + 1
            } else {
                old(st).cursor_r as int
            }),
            TuiKey::Flag => final(st).cursor_r == old(st).cursor_r && final(st).cursor_c == old(st).cursor_c
                && final(st).board.game_over == old(st).board.game_over && final(st).board.board@
                == cycle_outcome(old(st).board.board@, cursor_index(*old(st))).0,
            TuiKey::Reveal => final(st).cursor_r == old(st).cursor_r && final(st).cursor_c == old(st).cursor_c
                && (final(st).board.board@, final(st).board.game_over) == (
                reveal_outcome(
                    old(st).board.board@,
                    old(st).board.game_over,
                    old(st).board.size.0 as int,
                    old(st).board.size.1 as int,
                    cursor_index(*old(st)),
                ).0,
                reveal_outcome(
                    old(st).board.board@,
                    old(st).board.game_over,
                    old(st).board.size.0 as int,
                    old(st).board.size.1 as int,
                    cursor_index(*old(st)),
                ).1,
            ),
            _ => *final(st) == *old(st),
        },
{
    let ended = st.board.game_over || st.board.check_win();
    match key {
        TuiKey::Quit => {
            return TuiAction::Quit;
        },
        TuiKey::Restart => {
            let size = st.board.size;
            let coords = Board::random_bomb_coords(size, st.num_bombs);
            st.board = Board::from_bomb_coords(size, coords.as_slice());
            st.cursor_r = 0;
            st.cursor_c = 0;
            return TuiAction::Continue;
        },
        _ => {},
    }
    if ended {
        return TuiAction::Continue;
    }
    match key {
        TuiKey::Left => {
            if st.cursor_c > 0 {
                st.cursor_c = st.cursor_c - 1;
            }
        },
        TuiKey::Right => {
            if st.cursor_c + 1 < st.board.size.1 {
                st.cursor_c = st.cursor_c + 1;
            }
        },
        TuiKey::Up => {
            if st.cursor_r > 0 {
                st.cursor_r = st.cursor_r - 1;
            }
        },
        TuiKey::Down => {
            if st.cursor_r + 1 < st.board.size.0 {
                st.cursor_r = st.cursor_r + 1;
            }
        },
        TuiKey::Flag => {
            let _ = st.board.cycle_flag_rc(st.cursor_r, st.cursor_c);
        },
        TuiKey::Reveal => {
            let _ = st.board.reveal_rc(st.cursor_r, st.cursor_c);
        },
        _ => {},
    }
    TuiAction::Continue
}

} // verus!
