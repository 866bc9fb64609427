//! Cell types and utilities for the Mine Sweeper game.
//!
//! This module defines the [`CellType`], [`Status`] and [`Cell`] types along
//! with the small operations that the game logic uses on them.

use vstd::prelude::*;

verus! {

/// The kind of content a cell holds: a number of adjacent bombs, or a bomb.
#[derive(Debug, Clone, Copy, PartialEq, Eq, Structural)]
pub enum CellType {
    /// A numbered cell indicating how many adjacent bombs exist.
    Number(i32),
    /// A bomb cell.
    Bomb,
}

/// The visible state of a cell.
#[derive(Debug, Clone, Copy, PartialEq, Eq, Structural)]
pub enum Status {
    /// Hidden (not revealed and no flag/question).
    Hidden,
    /// Marked as question.
    Question,
    /// Marked as flagged (suspected bomb).
    Flag,
    /// Cell has been revealed.
    Revealed,
}

/// A single board cell.
#[derive(Clone, Copy)]
pub struct Cell {
    pub cell_type: CellType,
    pub status: Status,
}

/// The status that follows `s` in the right-click order
/// `Hidden -> Flag -> Question -> Hidden`; a revealed cell stays revealed.
pub open spec fn next_status(s: Status) -> Status {
    match s {
        Status::Hidden => Status::Flag,
        Status::Flag => Status::Question,
        Status::Question => Status::Hidden,
        Status::Revealed => Status::Revealed,
    }
}

/// The number a cell type carries, if it is a number.
pub open spec fn type_number(t: CellType) -> Option<i32> {
    match t {
        CellType::Number(v) => Some(v),
        CellType::Bomb => None,
    }
}

/// `c` with its status set to revealed, its content unchanged.
pub open spec fn revealed_cell(c: Cell) -> Cell {
    Cell { cell_type: c.cell_type, status: Status::Revealed }
}

/// `c` with its status moved one step along the right-click cycle.
pub open spec fn cycled_cell(c: Cell) -> Cell {
    Cell { cell_type: c.cell_type, status: next_status(c.status) }
}

impl CellType {
    /// Returns `true` if this cell type is a bomb.
    pub fn is_bomb(&self) -> (r: bool)
        ensures
            r == (*self is Bomb),
    {
        match self {
            CellType::Bomb => true,
            CellType::Number(_) => false,
        }
    }

    /// If this is a number, returns its value, otherwise `None`.
    pub fn number(&self) -> (r: Option<i32>)
        ensures
            r == type_number(*self),
    {
        match *self {
            CellType::Number(v) => Some(v),
            CellType::Bomb => None,
        }
    }
}

impl Status {
    /// Cycle the status in the common Minesweeper order used for right-click:
    /// `Hidden -> Flag -> Question -> Hidden`. A revealed status stays revealed.
    pub fn cycle(&self) -> (r: Status)
        ensures
            r == next_status(*self),
    {
        match *self {
            Status::Hidden => Status::Flag,
            Status::Flag => Status::Question,
            Status::Question => Status::Hidden,
            Status::Revealed => Status::Revealed,
        }
    }
}

impl Cell {
    /// A hidden number cell.
    pub fn new_number(n: i32) -> (c: Cell)
        ensures
            c.cell_type == CellType::Number(n),
            c.status == Status::Hidden,
    {
        Cell { cell_type: CellType::Number(n), status: Status::Hidden }
    }

    /// A hidden bomb cell.
    pub fn new_bomb() -> (c: Cell)
        ensures
            c.cell_type == CellType::Bomb,
            c.status == Status::Hidden,
    {
        Cell { cell_type: CellType::Bomb, status: Status::Hidden }
    }

    /// Move the status one step along `Hidden -> Flag -> Question -> Hidden`.
    /// Revealed cells remain revealed.
    pub fn cycle_status(&mut self)
        ensures
            *final(self) == cycled_cell(*old(self)),
    {
        self.status = self.status.cycle();
    }

    /// Reveal the cell and return what it holds.
    pub fn reveal_cell(&mut self) -> (t: CellType)
        ensures
            *final(self) == revealed_cell(*old(self)),
            t == old(self).cell_type,
    {
        self.status = Status::Revealed;
        self.cell_type
    }

    /// Whether the cell is flagged.
    pub fn is_flagged(&self) -> (r: bool)
        ensures
            r == (self.status == Status::Flag),
    {
        self.status == Status::Flag
    }

    /// Whether the cell is marked with a question.
    pub fn is_question(&self) -> (r: bool)
        ensures
            r == (self.status == Status::Question),
    {
        self.status == Status::Question
    }

    /// Whether the cell is revealed.
    pub fn is_revealed(&self) -> (r: bool)
        ensures
            r == (self.status == Status::Revealed),
    {
        self.status == Status::Revealed
    }

    /// Whether the cell holds a bomb.
    pub fn is_bomb(&self) -> (r: bool)
        ensures
            r == (self.cell_type is Bomb),
    {
        self.cell_type.is_bomb()
    }

    /// The cell's number, if it is a number cell.
    pub fn number_value(&self) -> (r: Option<i32>)
        ensures
            r == type_number(self.cell_type),
    {
        self.cell_type.number()
    }
}

/// The character that shows a cell on a text board: `.` hidden, `F`
/// flagged, `?` question, and once revealed `B` for a bomb, a space for a
/// zero, the digit for 1 to 9, and `#` for any other number.
pub open spec fn symbol_of(c: Cell) -> char {
    match c.status {
        Status::Hidden => '.',
        Status::Flag => 'F',
        Status::Question => '?',
        Status::Revealed => match c.cell_type {
            CellType::Bomb => 'B',
            CellType::Number(n) => if n == 0 {
                ' '
            } else if n == 1 {
                '1'
            } else if n == 2 {
                '2'
            } else if n == 3 {
                '3'
            } else if n == 4 {
                '4'
            } else if n == 5 {
                '5'
            } else if n == 6 {
                '6'
            } else if n == 7 {
                '7'
            } else if n == 8 {
                '8'
            } else if n == 9 {
                '9'
            } else {
                '#'
            },
        },
    }
}

impl Cell {
    /// The character that shows this cell on a text board (see [`symbol_of`]).
    pub fn symbol(&self) -> (ch: char)
        ensures
            ch == symbol_of(*self),
    {
        match self.status {
            Status::Hidden => '.',
            Status::Flag => 'F',
            Status::Question => '?',
            Status::Revealed => match self.cell_type {
                CellType::Bomb => 'B',
                CellType::Number(n) => match n {
                    0 => ' ',
                    1 => '1',
                    2 => '2',
                    3 => '3',
                    4 => '4',
                    5 => '5',
                    6 => '6',
                    7 => '7',
                    8 => '8',
                    9 => '9',
                    _ => '#',
                },
            },
        }
    }
}

/// Three right-clicks bring any status back to where it was.
pub proof fn lemma_cycle_three_times_is_identity(s: Status)
    ensures
        next_status(next_status(next_status(s))) == s,
{
}

/// A revealed status is a fixed point of the cycle, and no other status is:
/// right-clicking never reveals a cell and never hides a revealed one.
pub proof fn lemma_cycle_fixes_only_revealed(s: Status)
    ensures
        (next_status(s) == s) <==> (s == Status::Revealed),
        (next_status(s) == Status::Revealed) <==> (s == Status::Revealed),
{
}

/// A revealed number cell shows the decimal digit of its number when the
/// number is from one to nine (the character whose code is 48 plus the
/// number), a blank for zero, and `#` for any other number.
pub proof fn law_revealed_number_symbol(c: Cell, n: i32)
    requires
        c.status == Status::Revealed,
        c.cell_type == CellType::Number(n),
    ensures
        1 <= n <= 9 ==> symbol_of(c) as u32 == 48 + n,
        n == 0 ==> symbol_of(c) == ' ',
        n < 0 || n > 9 ==> symbol_of(c) == '#',
{
}

} // verus!
