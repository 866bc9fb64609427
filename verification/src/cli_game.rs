//! The decisions of the command line game: which command a typed line
//! means, what each command does to the board and what it answers, and
//! when the game has finished.

use vstd::prelude::*;

use crate::game_play::Board;
use crate::cells::{Cell, symbol_of};
use crate::grid::lemma_row_major_order;
use crate::rules::{reveal_outcome, cycle_outcome, result_view, all_safe_revealed};
use crate::text::{
    text_is, parse_usize, usize_text_value, lowercase, lowercase_of, decimal, push_decimal,
    string_from_chars,
};

verus! {

/// A command typed at the prompt.
pub enum Command {
    /// `r <row> <col>`: reveal a cell.
    Reveal(usize, usize),
    /// `f <row> <col>`: cycle the mark of a cell.
    Flag(usize, usize),
    /// `h`: show the commands.
    Help,
    /// `q`: leave the game.
    Quit,
    /// A reveal command without its row and column.
    RevealUsage,
    /// A mark command without its row and column.
    FlagUsage,
    /// A reveal or mark command whose row is not a number (the row as typed).
    InvalidRow(String),
    /// A reveal or mark command whose column is not a number (the column as typed).
    InvalidCol(String),
    /// Any other keyword (lower-cased).
    Unknown(String),
}

/// What the game answers to a command.
pub enum Reply {
    /// The player leaves.
    Bye,
    /// The list of commands.
    Help,
    /// How to write a reveal command.
    RevealUsage,
    /// How to write a mark command.
    FlagUsage,
    /// The row is not a number.
    InvalidRow(String),
    /// The column is not a number.
    InvalidCol(String),
    /// The keyword is not a command.
    Unknown(String),
    /// The cell at (row, col) was revealed and shows this number.
    Revealed(usize, usize, i32),
    /// The cell at (row, col) is flagged and was not revealed.
    RevealFlagged(usize, usize),
    /// The coordinates are off the board.
    OutOfBounds,
    /// A bomb was revealed at (row, col).
    Boom(usize, usize),
    /// Revealing failed with another message.
    RevealFailed(String),
    /// The mark of the cell at (row, col) moved on.
    Marked(usize, usize),
    /// The cell is revealed; its mark cannot change.
    AlreadyRevealed,
    /// Changing the mark failed with another message.
    MarkFailed(String),
}

/// The keywords that leave the game.
pub open spec fn is_quit_word(w: Seq<char>) -> bool {
    w == "q"@ || w == "quit"@ || w == "exit"@
}

/// The keywords that show the commands.
pub open spec fn is_help_word(w: Seq<char>) -> bool {
    w == "h"@ || w == "help"@
}

/// The keywords that reveal a cell.
pub open spec fn is_reveal_word(w: Seq<char>) -> bool {
    w == "r"@ || w == "reveal"@
}

/// The keywords that cycle a mark.
pub open spec fn is_flag_word(w: Seq<char>) -> bool {
    w == "f"@ || w == "flag"@ || w == "mark"@
}

/// `c` is the command that the lower-cased keyword `kw` and the typed words
/// `words` (the keyword first) mean: quit, help, reveal and mark keywords in
/// that order; a reveal or mark keyword needs a row and a column, read as
/// decimal numbers, the row first.
pub open spec fn command_means(c: Command, kw: Seq<char>, words: Seq<Seq<char>>) -> bool {
    let positional = is_reveal_word(kw) || is_flag_word(kw);
    let wants_reveal = is_reveal_word(kw) && !is_quit_word(kw) && !is_help_word(kw);
    let wants_flag = is_flag_word(kw) && !wants_reveal && !is_quit_word(kw) && !is_help_word(kw);
    match c {
        Command::Quit => is_quit_word(kw),
        Command::Help => !is_quit_word(kw) && is_help_word(kw),
        Command::RevealUsage => wants_reveal && (words.len() < 3),
        Command::FlagUsage => wants_flag && (words.len() < 3),
        Command::InvalidRow(w) => (wants_reveal || wants_flag) && words.len() >= 3 && usize_text_value(words[1]) is None
            && w@ == words[1],
        Command::InvalidCol(w) => (wants_reveal || wants_flag) && words.len() >= 3 && usize_text_value(words[1]) is Some
            && usize_text_value(words[2]) is None && w@ == words[2],
        Command::Reveal(r, col) => wants_reveal && words.len() >= 3 && usize_text_value(words[1]) == Some(r)
            && usize_text_value(words[2]) == Some(col),
        Command::Flag(r, col) => wants_flag && words.len() >= 3 && usize_text_value(words[1]) == Some(r)
            && usize_text_value(words[2]) == Some(col),
        Command::Unknown(w) => !positional && !is_quit_word(kw) && !is_help_word(kw) && w@ == kw,
    }
}

/// The keywords of the prompt, spelled out: `q`, `quit` and `exit` leave
/// the game; `h` and `help` show the commands; `r` and `reveal` with a row
/// and a column that read as numbers reveal that cell, and without both ask
/// for them; `f`, `flag` and `mark` do the same for a mark; any other keyword
/// is unknown and is answered with itself.
pub proof fn law_command_keywords(c: Command, kw: Seq<char>, words: Seq<Seq<char>>)
    requires
        command_means(c, kw, words),
    ensures
        kw == "q"@ || kw == "quit"@ || kw == "exit"@ ==> c == Command::Quit,
        kw == "h"@ || kw == "help"@ ==> c == Command::Help,
        (kw == "r"@ || kw == "reveal"@) && words.len() < 3 ==> c == Command::RevealUsage,
        (kw == "f"@ || kw == "flag"@ || kw == "mark"@) && words.len() < 3 ==> c == Command::FlagUsage,
        forall|a: usize, b: usize|
            (kw == "r"@ || kw == "reveal"@) && words.len() >= 3 && usize_text_value(words[1]) == Some(a)
                && usize_text_value(words[2]) == Some(b) ==> c == Command::Reveal(a, b),
        forall|a: usize, b: usize|
            (kw == "f"@ || kw == "flag"@ || kw == "mark"@) && words.len() >= 3 && usize_text_value(words[1])
                == Some(a) && usize_text_value(words[2]) == Some(b) ==> c == Command::Flag(a, b),
        kw != "q"@ && kw != "quit"@ && kw != "exit"@ && kw != "h"@ && kw != "help"@ && kw != "r"@ && kw
            != "reveal"@ && kw != "f"@ && kw != "flag"@ && kw != "mark"@ ==> (c matches Command::Unknown(w)
            && w@ == kw),
{
    reveal_strlit("q");
    reveal_strlit("quit");
    reveal_strlit("exit");
    reveal_strlit("h");
    reveal_strlit("help");
    reveal_strlit("r");
    reveal_strlit("reveal");
    reveal_strlit("f");
    reveal_strlit("flag");
    reveal_strlit("mark");
    assert("q"@.len() == 1 && "q"@[0] == 'q');
    assert("quit"@.len() == 4 && "quit"@[0] == 'q');
    assert("exit"@.len() == 4 && "exit"@[0] == 'e');
    assert("h"@.len() == 1 && "h"@[0] == 'h');
    assert("help"@.len() == 4 && "help"@[0] == 'h');
    assert("r"@.len() == 1 && "r"@[0] == 'r');
    assert("reveal"@.len() == 6 && "reveal"@[0] == 'r');
    assert("f"@.len() == 1 && "f"@[0] == 'f');
    assert("flag"@.len() == 4 && "flag"@[0] == 'f');
    assert("mark"@.len() == 4 && "mark"@[0] == 'm');
}

/// The views of the typed words.
pub open spec fn words_view(words: Seq<String>) -> Seq<Seq<char>> {
    words.map_values(|w: String| w@)
}

/// The command that typed words mean, given the keyword already lower-cased
/// (see [`command_means`]).
pub fn command_from_words(kw: &String, words: &Vec<String>) -> (c: Command)
    requires
        words@.len() >= 1,
    ensures
        command_means(c, kw@, words_view(words@)),
{
    let k = kw.as_str();
    let ghost ws = words_view(words@);
    if text_is(k, "q") || text_is(k, "quit") || text_is(k, "exit") {
        return Command::Quit;
    }
    if text_is(k, "h") || text_is(k, "help") {
        return Command::Help;
    }
    let wants_reveal = text_is(k, "r") || text_is(k, "reveal");
    let wants_flag = text_is(k, "f") || text_is(k, "flag") || text_is(k, "mark");
    if !wants_reveal && !wants_flag {
        return Command::Unknown(kw.clone());
    }
    if words.len() < 3 {
        return if wants_reveal {
            Command::RevealUsage
        } else {
            Command::FlagUsage
        };
    }
    proof {
        assert(ws[1] == words@[1]@);
        assert(ws[2] == words@[2]@);
    }
    let row = match parse_usize(words[1].as_str()) {
        Some(v) => v,
        None => {
            return Command::InvalidRow(words[1].clone());
        },
    };
    let col = match parse_usize(words[2].as_str()) {
        Some(v) => v,
        None => {
            return Command::InvalidCol(words[2].clone());
        },
    };
    if wants_reveal {
        Command::Reveal(row, col)
    } else {
        Command::Flag(row, col)
    }
}

/// The command that a typed line means: its words, the first of which is
/// lower-cased into the keyword (see [`command_means`]).
pub fn parse_command(words: &Vec<String>) -> (c: Command)
    requires
        words@.len() >= 1,
    ensures
        command_means(c, lowercase_of(words@[0]@), words_view(words@)),
{
    let kw = lowercase(words[0].as_str());
    command_from_words(&kw, words)
}

/// `reply` answers a reveal at (`r`, `c`) whose result is `res`.
pub open spec fn reveal_reply(reply: Reply, r: usize, c: usize, res: Result<i32, Seq<char>>) -> bool {
    match res {
        Ok(n) => reply == Reply::Revealed(r, c, n),
        Err(e) => if e == "FLAGGED"@ {
            reply == Reply::RevealFlagged(r, c)
        } else if e == "OUT_OF_BOUNDS"@ {
            reply == Reply::OutOfBounds
        } else if e == "BOMB"@ {
            reply == Reply::Boom(r, c)
        } else {
            reply matches Reply::RevealFailed(w) && w@ == e
        },
    }
}

/// `reply` answers a mark request at (`r`, `c`) whose result is `res`.
pub open spec fn mark_reply(reply: Reply, r: usize, c: usize, res: Result<(), Seq<char>>) -> bool {
    match res {
        Ok(_) => reply == Reply::Marked(r, c),
        Err(e) => if e == "OUT_OF_BOUNDS"@ {
            reply == Reply::OutOfBounds
        } else if e == "REVEALED"@ {
            reply == Reply::AlreadyRevealed
        } else {
            reply matches Reply::MarkFailed(w) && w@ == e
        },
    }
}

/// The cells, game-over flag and answer of a reveal at (`r`, `c`) on `b`.
pub open spec fn reveal_rc_outcome(b: Board, r: usize, c: usize) -> (Seq<Cell>, bool, Result<i32, Seq<char>>) {
    if r < b.size.0 && c < b.size.1 {
        reveal_outcome(b.board@, b.game_over, b.size.0 as int, b.size.1 as int, r * b.size.1 + c)
    } else {
        (b.board@, b.game_over, Err("OUT_OF_BOUNDS"@))
    }
}

/// The cells and answer of a mark request at (`r`, `c`) on `b`.
pub open spec fn cycle_rc_outcome(b: Board, r: usize, c: usize) -> (Seq<Cell>, Result<(), Seq<char>>) {
    if r < b.size.0 && c < b.size.1 {
        cycle_outcome(b.board@, r * b.size.1 + c)
    } else {
        (b.board@, Err("OUT_OF_BOUNDS"@))
    }
}

/// Carry out a command on the board and say what to answer. Reveal and mark
/// commands act as [`Board::reveal_rc`] and [`Board::cycle_flag_rc`]; every
/// other command leaves the board as it is.
pub fn cli_step(board: &mut Board, cmd: Command) -> (reply: Reply)
    requires
        old(board).wf(),
    ensures
        final(board).wf(),
        final(board).size == old(board).size,
        match cmd {
            Command::Reveal(r, c) => (final(board).board@, final(board).game_over) == (
            reveal_rc_outcome(*old(board), r, c).0,
            reveal_rc_outcome(*old(board), r, c).1,
            ) && reveal_reply(reply, r, c, reveal_rc_outcome(*old(board), r, c).2),
            Command::Flag(r, c) => final(board).board@ == cycle_rc_outcome(*old(board), r, c).0
                && final(board).game_over == old(board).game_over && mark_reply(
                reply,
                r,
                c,
                cycle_rc_outcome(*old(board), r, c).1,
            ),
            Command::Help => *final(board) == *old(board) && reply == Reply::Help,
            Command::Quit => *final(board) == *old(board) && reply == Reply::Bye,
            Command::RevealUsage => *final(board) == *old(board) && reply == Reply::RevealUsage,
            Command::FlagUsage => *final(board) == *old(board) && reply == Reply::FlagUsage,
            Command::InvalidRow(w) => *final(board) == *old(board) && reply == Reply::InvalidRow(w),
            Command::InvalidCol(w) => *final(board) == *old(board) && reply == Reply::InvalidCol(w),
            Command::Unknown(w) => *final(board) == *old(board) && reply == Reply::Unknown(w),
        },
{
    match cmd {
        Command::Reveal(r, c) => match board.reveal_rc(r, c) {
            Ok(n) => Reply::Revealed(r, c, n),
            Err(e) => {
                if text_is(e.as_str(), "FLAGGED") {
                    Reply::RevealFlagged(r, c)
                } else if text_is(e.as_str(), "OUT_OF_BOUNDS") {
                    Reply::OutOfBounds
                } else if text_is(e.as_str(), "BOMB") {
                    Reply::Boom(r, c)
                } else {
                    Reply::RevealFailed(e)
                }
            },
        },
        Command::Flag(r, c) => match board.cycle_flag_rc(r, c) {
            Ok(()) => Reply::Marked(r, c),
            Err(e) => {
                if text_is(e.as_str(), "OUT_OF_BOUNDS") {
                    Reply::OutOfBounds
                } else if text_is(e.as_str(), "REVEALED") {
                    Reply::AlreadyRevealed
                } else {
                    Reply::MarkFailed(e)
                }
            },
        },
        Command::Help => Reply::Help,
        Command::Quit => Reply::Bye,
        Command::RevealUsage => Reply::RevealUsage,
        Command::FlagUsage => Reply::FlagUsage,
        Command::InvalidRow(w) => Reply::InvalidRow(w),
        Command::InvalidCol(w) => Reply::InvalidCol(w),
        Command::Unknown(w) => Reply::Unknown(w),
    }
}

/// Whether the game has finished: `Some(false)` once a bomb was revealed,
/// `Some(true)` once every safe cell is revealed, otherwise `None`.
pub fn finished(board: &Board) -> (o: Option<bool>)
    ensures
        o == (if board.game_over {
            Some(false)
        } else if all_safe_revealed(board.board@) {
            Some(true)
        } else {
            None
        }),
{
    if board.game_over {
        Some(false)
    } else if board.check_win() {
        Some(true)
    } else {
        None
    }
}

/// `n` copies of `c`.
pub open spec fn repeat_char(c: char, n: nat) -> Seq<char> {
    Seq::new(n, |i: int| c)
}

/// `n` in decimal, padded on the left with `0` to at least `w` characters.
pub open spec fn zero_padded(n: nat, w: nat) -> Seq<char> {
    if decimal(n).len() < w {
        repeat_char('0', (w - decimal(n).len()) as nat) + decimal(n)
    } else {
        decimal(n)
    }
}

/// The column numbers of the first `k` columns, each after a space and
/// padded with zeros to `cw` characters.
pub open spec fn header_cells(k: nat, cw: nat) -> Seq<char>
    decreases k,
{
    if k == 0 {
        Seq::empty()
    } else {
        header_cells((k - 1) as nat, cw) + seq![' '] + zero_padded((k - 1) as nat, cw)
    }
}

/// The rule under the column numbers for `k` columns.
pub open spec fn rule_cells(k: nat, cw: nat) -> Seq<char>
    decreases k,
{
    if k == 0 {
        Seq::empty()
    } else {
        rule_cells((k - 1) as nat, cw) + seq!['-'] + repeat_char('-', cw)
    }
}

/// The first `k` cells of row `r`, each shown by its symbol after `cw`
/// spaces.
pub open spec fn row_cells(cells: Seq<Cell>, cols: int, r: int, k: nat, cw: nat) -> Seq<char>
    decreases k,
{
    if k == 0 {
        Seq::empty()
    } else {
        row_cells(cells, cols, r, (k - 1) as nat, cw) + repeat_char(' ', cw) + seq![
            symbol_of(cells[r * cols + k - 1]),
        ]
    }
}

/// The printed board: a line of column numbers, a rule, then each row with
/// its number, each number padded with zeros to the width of the largest.
pub open spec fn board_text(b: Board) -> Seq<Seq<char>> {
    let rows = b.size.0 as int;
    let cols = b.size.1 as int;
    let rw = decimal((rows - 1) as nat).len();
    let cw = decimal((cols - 1) as nat).len();
    seq![
        repeat_char(' ', rw) + seq![' ', '|'] + header_cells(cols as nat, cw),
        repeat_char('-', rw) + seq!['-', '-'] + rule_cells(cols as nat, cw),
    ] + Seq::new(
        rows as nat,
        |r: int| zero_padded(r as nat, rw) + seq![' ', '|'] + row_cells(b.board@, cols, r, cols as nat, cw),
    )
}

/// Append `n` copies of `c`.
fn push_repeat(out: &mut Vec<char>, c: char, n: usize)
    ensures
        final(out)@ == old(out)@ + repeat_char(c, n as nat),
{
    let mut i: usize = 0;
    while i < n
        invariant
            i <= n,
            out@ == old(out)@ + repeat_char(c, i as nat),
        decreases n - i,
    {
        out.push(c);
        proof {
            assert(out@ =~= old(out)@ + repeat_char(c, (i + 1) as nat));
        }
        i = i + 1;
    }
}

/// The number of decimal digits of `n`.
fn decimal_len(n: usize) -> (l: usize)
    ensures
        l == decimal(n as nat).len(),
{
    let mut d: Vec<char> = Vec::new();
    push_decimal(&mut d, n);
    assert(d@ =~= decimal(n as nat));
    d.len()
}

/// Append `n` in decimal, padded with zeros to `w` characters.
fn push_zero_padded(out: &mut Vec<char>, n: usize, w: usize)
    ensures
        final(out)@ == old(out)@ + zero_padded(n as nat, w as nat),
{
    let len = decimal_len(n);
    if len < w {
        push_repeat(out, '0', w - len);
    }
    let ghost mid = out@;
    push_decimal(out, n);
    proof {
        assert(out@ =~= old(out)@ + zero_padded(n as nat, w as nat));
    }
}

/// The lines of the printed board (see [`board_text`]).
pub fn board_text_lines(board: &Board) -> (lines: Vec<String>)
    requires
        board.wf(),
        board.size.0 > 0,
        board.size.1 > 0,
    ensures
        lines@.len() == board_text(*board).len(),
        forall|i: int| 0 <= i < lines@.len() ==> #[trigger] lines@[i]@ == board_text(*board)[i],
{
    let (rows, cols) = board.size;
    let rw = decimal_len(rows - 1);
    let cw = decimal_len(cols - 1);
    let ghost spec_lines = board_text(*board);

    let mut head: Vec<char> = Vec::new();
    push_repeat(&mut head, ' ', rw);
    head.push(' ');
    head.push('|');
    let ghost head0 = head@;
    let mut x: usize = 0;
    while x < cols
        invariant
            x <= cols,
            head@ == head0 + header_cells(x as nat, cw as nat),
        decreases cols - x,
    {
        let ghost before = head@;
        head.push(' ');
        push_zero_padded(&mut head, x, cw);
        proof {
            assert(head@ =~= head0 + header_cells((x + 1) as nat, cw as nat));
        }
        x = x + 1;
    }
    proof {
        assert(head0 =~= repeat_char(' ', rw as nat) + seq![' ', '|']);
        assert(head@ =~= spec_lines[0]);
    }

    let mut rule: Vec<char> = Vec::new();
    push_repeat(&mut rule, '-', rw);
    rule.push('-');
    rule.push('-');
    let ghost rule0 = rule@;
    let mut x: usize = 0;
    while x < cols
        invariant
            x <= cols,
            rule@ == rule0 + rule_cells(x as nat, cw as nat),
        decreases cols - x,
    {
        rule.push('-');
        push_repeat(&mut rule, '-', cw);
        proof {
            assert(rule@ =~= rule0 + rule_cells((x + 1) as nat, cw as nat));
        }
        x = x + 1;
    }
    proof {
        assert(rule0 =~= repeat_char('-', rw as nat) + seq!['-', '-']);
        assert(rule@ =~= spec_lines[1]);
    }

    let mut lines: Vec<String> = Vec::new();
    lines.push(string_from_chars(&head));
    lines.push(string_from_chars(&rule));
    let mut r: usize = 0;
    while r < rows
        invariant
            rows == board.size.0,
            cols == board.size.1,
            board.wf(),
            rw == decimal((rows - 1) as nat).len(),
            cw == decimal((cols - 1) as nat).len(),
            spec_lines == board_text(*board),
            r <= rows,
            lines@.len() == r + 2,
            forall|i: int| 0 <= i < lines@.len() ==> #[trigger] lines@[i]@ == spec_lines[i],
        decreases rows - r,
    {
        let mut line: Vec<char> = Vec::new();
        push_zero_padded(&mut line, r, rw);
        line.push(' ');
        line.push('|');
        let ghost line0 = line@;
        let mut c: usize = 0;
        while c < cols
            invariant
                rows == board.size.0,
                cols == board.size.1,
                board.wf(),
                r < rows,
                c <= cols,
                line@ == line0 + row_cells(board.board@, cols as int, r as int, c as nat, cw as nat),
            decreases cols - c,
        {
            proof {
                lemma_row_major_order(cols as int, r as int, c as int, rows as int, 0);
            }
            push_repeat(&mut line, ' ', cw);
            let ch = board.board[r * cols + c].symbol();
            line.push(ch);
            proof {
                assert(line@ =~= line0 + row_cells(board.board@, cols as int, r as int, (c + 1) as nat, cw as nat));
            }
            c = c + 1;
        }
        proof {
            assert(line@ =~= spec_lines[r + 2]);
        }
        let ghost old_lines = lines@;
        lines.push(string_from_chars(&line));
        proof {
            assert forall|i: int| 0 <= i < lines@.len() implies #[trigger] lines@[i]@ == spec_lines[i] by {
                if i < old_lines.len() {
                    assert(lines@[i] == old_lines[i]);
                }
            }
        }
        r = r + 1;
    }
    lines
}

} // verus!
