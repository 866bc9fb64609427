//! Main game logic and board implementation.

use vstd::prelude::*;
use vstd::set_lib::{set_int_range, lemma_int_range, lemma_len_subset};
use std::collections::VecDeque;

use crate::cells::{Cell, CellType, Status, revealed_cell};
use crate::chance::{thread_rng, random_below};
use crate::grid::{
    as_ints, is_neighbor, neighbor_list, strictly_increasing, lemma_index_row_col,
    lemma_split_index, lemma_row_major_order, lemma_sorted_is_filter,
    lemma_neighbor_list_members,
};
use crate::rules::{
    bomb_listed, count_flagged, count_bombs, numbers_consistent, can_open, flood_step,
    is_flood_path, flood_reaches, flood_opened, open_each, result_view, reveal_outcome,
    cycle_outcome, all_safe_revealed, lemma_count_bombs_same, lemma_flood_path_closed,
    lemma_flood_path_extend, lemma_open_each_only_reveals, row_major_cells, swap_removed,
    picks_from, picks, draws_fit, lemma_row_major_cells,
};

verus! {

/// Game board: its size, its cells stored row by row, and whether a bomb
/// has been revealed. Every new game uses one.
pub struct Board {
    /// Board size: rows, cols
    pub size: (usize, usize),
    /// Board cells, row by row. It should be of length `size.0 * size.1`.
    pub board: Vec<Cell>,
    /// Game Over status
    pub game_over: bool,
}

impl Board {
    /// The cell vector has one cell per (row, column) position.
    pub open spec fn wf(&self) -> bool {
        &&& self.board@.len() == self.size.0 * self.size.1
        &&& self.size.0 * self.size.1 <= usize::MAX
    }

    /// The indices around `i` on this board, in increasing order.
    pub open spec fn nbrs(&self, i: int) -> Seq<int> {
        neighbor_list(self.size.0 as int, self.size.1 as int, i)
    }

    /// Create an empty board (all cells are `Number(0)` and hidden).
    ///
    /// Use [`Board::from_bomb_coords()`] to create a board that contains bombs.
    pub fn new_game(size: (usize, usize)) -> (b: Board)
        requires
            size.0 * size.1 <= usize::MAX,
        ensures
            b.size == size,
            b.wf(),
            !b.game_over,
            forall|i: int|
                0 <= i < b.board@.len() ==> #[trigger] b.board@[i] == (Cell {
                    cell_type: CellType::Number(0),
                    status: Status::Hidden,
                }),
    {
        let (rows, cols) = size;
        let n = rows * cols;
        let mut board: Vec<Cell> = Vec::with_capacity(n);
        let mut k: usize = 0;
        while k < n
            invariant
                k <= n,
                board@.len() == k,
                forall|i: int|
                    0 <= i < k ==> #[trigger] board@[i] == (Cell {
                        cell_type: CellType::Number(0),
                        status: Status::Hidden,
                    }),
            decreases n - k,
        {
            board.push(Cell::new_number(0));
            k = k + 1;
        }
        Board { size, board, game_over: false }
    }

    /// Convert (row, col) to a linear index if it is on the board.
    pub fn rc_to_index_checked(&self, r: usize, c: usize) -> (res: Option<usize>)
        requires
            self.size.0 * self.size.1 <= usize::MAX,
        ensures
            (r < self.size.0 && c < self.size.1) ==> (res matches Some(i) && i == r * self.size.1 + c),
            !(r < self.size.0 && c < self.size.1) ==> res is None,
            res matches Some(i) ==> i < self.size.0 * self.size.1,
    {
        let (rows, cols) = self.size;
        if r < rows && c < cols {
            proof {
                lemma_row_major_order(cols as int, r as int, c as int, rows as int, 0);
            }
            Some(r * cols + c)
        } else {
            None
        }
    }

    /// Convert a linear index to (row, col).
    pub fn index_to_rc(&self, idx: usize) -> (rc: (usize, usize))
        requires
            self.size.1 > 0,
        ensures
            rc.0 == idx / self.size.1,
            rc.1 == idx % self.size.1,
    {
        let cols = self.size.1;
        (idx / cols, idx % cols)
    }

    /// Return the indices of the cells around `idx` (up to eight), in
    /// increasing order.
    pub fn neighbors_indices(&self, idx: usize) -> (out: Vec<usize>)
        requires
            self.size.0 > 0,
            self.size.1 > 0,
            self.size.0 * self.size.1 <= usize::MAX,
            idx / self.size.1 < usize::MAX,
        ensures
            out@.len() == self.nbrs(idx as int).len(),
            forall|k: int| 0 <= k < out@.len() ==> out@[k] as int == #[trigger] self.nbrs(idx as int)[k],
            out@.len() <= 8,
    {
        let (r, c) = self.index_to_rc(idx);
        let (rows, cols) = self.size;
        let ghost ri = r as int;
        let ghost ci = c as int;
        let ghost rws = rows as int;
        let ghost cls = cols as int;
        let ghost ii = idx as int;
        let mut out: Vec<usize> = Vec::with_capacity(8);

        let r_min = if r == 0 { 0 } else { r - 1 };
        let c_min = if c == 0 { 0 } else { c - 1 };
        let r_max = if r + 1 >= rows { rows - 1 } else { r + 1 };
        let c_max = if c + 1 >= cols { cols - 1 } else { c + 1 };

        proof {
            lemma_split_index(cls, ii);
            assert(c < cols);
            assert forall|j: int| is_neighbor(rws, cls, ii, j) && j < r_min * cls implies as_ints(out@).contains(j) by {
                lemma_split_index(cls, j);
                lemma_row_major_order(cls, j / cls, j % cls, r_min as int, 0);
            }
        }

        let mut rr = r_min;
        while rr <= r_max
            invariant
                rows == self.size.0,
                cols == self.size.1,
                rws == rows as int,
                cls == cols as int,
                ri == r as int,
                ci == c as int,
                ii == idx as int,
                0 < rows,
                0 < cols,
                rows * cols <= usize::MAX,
                r == idx / cols,
                c == idx % cols,
                ii == ri * cls + ci,
                c < cols,
                r_min == (if r == 0 { 0 } else { r - 1 }),
                c_min == (if c == 0 { 0 } else { c - 1 }),
                r_max == (if r + 1 >= rows { rows - 1 } else { r + 1 }),
                c_max == (if c + 1 >= cols { cols - 1 } else { c + 1 }),
                r_min <= rr,
                rr <= r_max + 1 || rr == r_min,
                strictly_increasing(as_ints(out@)),
                forall|k: int| 0 <= k < out@.len() ==> is_neighbor(rws, cls, ii, #[trigger] out@[k] as int),
                forall|k: int| 0 <= k < out@.len() ==> (#[trigger] out@[k] as int) < rr * cls,
                forall|j: int| is_neighbor(rws, cls, ii, j) && j < rr * cls ==> as_ints(out@).contains(j),
                out@.len() + (if r <= r_max && rr > r { 1int } else { 0int }) <= 3 * (rr - r_min),
            decreases r_max + 1 - rr,
        {
            let mut cc = c_min;
            proof {
                assert forall|j: int| is_neighbor(rws, cls, ii, j) && j < rr * cls + c_min implies as_ints(out@).contains(j) by {
                    lemma_split_index(cls, j);
                    let jr = j / cls;
                    let jc = j % cls;
                    lemma_row_major_order(cls, jr, jc, rr as int, 0);
                    lemma_row_major_order(cls, jr, jc, rr as int, c_min as int);
                }
            }
            while cc <= c_max
                invariant
                    rows == self.size.0,
                    cols == self.size.1,
                    rws == rows as int,
                    cls == cols as int,
                    ri == r as int,
                    ci == c as int,
                    ii == idx as int,
                    0 < rows,
                    0 < cols,
                    rows * cols <= usize::MAX,
                    r == idx / cols,
                    c == idx % cols,
                    ii == ri * cls + ci,
                    c < cols,
                    r_min == (if r == 0 { 0 } else { r - 1 }),
                    c_min == (if c == 0 { 0 } else { c - 1 }),
                    r_max == (if r + 1 >= rows { rows - 1 } else { r + 1 }),
                    c_max == (if c + 1 >= cols { cols - 1 } else { c + 1 }),
                    r_min <= rr <= r_max,
                    c_min <= cc <= c_max + 1,
                    strictly_increasing(as_ints(out@)),
                    forall|k: int| 0 <= k < out@.len() ==> is_neighbor(rws, cls, ii, #[trigger] out@[k] as int),
                    forall|k: int| 0 <= k < out@.len() ==> (#[trigger] out@[k] as int) < rr * cls + cc,
                    forall|j: int| is_neighbor(rws, cls, ii, j) && j < rr * cls + cc ==> as_ints(out@).contains(j),
                    out@.len() + (if rr > r || (rr == r && cc > c) { 1int } else { 0int }) <= 3 * (rr - r_min) + (cc - c_min),
                decreases c_max + 1 - cc,
            {
                proof {
                    lemma_index_row_col(cls, rr as int, cc as int);
                    lemma_row_major_order(cls, rr as int, cc as int, rws, 0);
                    lemma_row_major_order(cls, rr as int, cc as int, ri, ci);
                }
                if !(rr == r && cc == c) {
                    let ghost prev = out@;
                    out.push(rr * cols + cc);
                    proof {
                        assert forall|k: int| 0 <= k < out@.len() implies is_neighbor(rws, cls, ii, #[trigger] out@[k] as int) by {
                            if k < prev.len() {
                                assert(out@[k] == prev[k]);
                            }
                        }
                        assert(as_ints(out@) == as_ints(prev).push((rr * cols + cc) as int));
                        assert forall|j: int| is_neighbor(rws, cls, ii, j) && j < rr * cls + cc + 1 implies as_ints(out@).contains(j) by {
                            if j < rr * cls + cc {
                                assert(as_ints(prev).contains(j));
                                let q = choose|q: int| 0 <= q < prev.len() && as_ints(prev)[q] == j;
                                assert(as_ints(out@)[q] == j);
                            } else {
                                assert(as_ints(out@)[out@.len() - 1] == j);
                            }
                        }
                    }
                } else {
                    proof {
                        assert forall|j: int| is_neighbor(rws, cls, ii, j) && j < rr * cls + cc + 1 implies as_ints(out@).contains(j) by {
                            if j == rr * cls + cc {
                                assert(j == ii);
                            }
                        }
                    }
                }
                cc = cc + 1;
            }
            proof {
                assert forall|j: int| is_neighbor(rws, cls, ii, j) && j < (rr + 1) * cls implies as_ints(out@).contains(j) by {
                    lemma_split_index(cls, j);
                    let jr = j / cls;
                    let jc = j % cls;
                    lemma_row_major_order(cls, jr, jc, rr + 1, 0);
                    lemma_row_major_order(cls, jr, jc, rr as int, c_max as int);
                    lemma_row_major_order(cls, jr, jc, rr as int, 0);
                }
                assert forall|k: int| 0 <= k < out@.len() implies (#[trigger] out@[k] as int) < (rr + 1) * cls by {
                    lemma_row_major_order(cls, rr as int, c_max as int, rr + 1, 0);
                }
                assert((rr + 1) * cls == rr * cls + cls) by (nonlinear_arith);
            }
            rr = rr + 1;
        }
        proof {
            let s = as_ints(out@);
            assert forall|q: int| 0 <= q < s.len() implies 0 <= #[trigger] s[q] < rws * cls && is_neighbor(rws, cls, ii, s[q]) by {
                assert(s[q] == out@[q] as int);
            }
            let p = |j: int| is_neighbor(rws, cls, ii, j);
            assert(0 <= rws * cls) by (nonlinear_arith)
                requires
                    0 < rws,
                    0 < cls,
            ;
            assert forall|j: int| 0 <= j < rws * cls && #[trigger] p(j) implies s.contains(j) by {
                lemma_split_index(cls, j);
                let jr = j / cls;
                let jc = j % cls;
                lemma_row_major_order(cls, jr, jc, rws, 0);
                lemma_row_major_order(cls, jr, jc, rr as int, 0);
                assert(as_ints(out@).contains(j));
                let q = choose|q: int| 0 <= q < out@.len() && out@[q] == j as usize;
                assert(s[q] == j);
            }
            lemma_sorted_is_filter(s, (rws * cls) as nat, p);
        }
        out
    }

    /// Count the flagged cells around `idx`.
    pub fn count_flagged_neighbors(&mut self, idx: usize) -> (n: usize)
        requires
            old(self).wf(),
            old(self).size.0 > 0,
            old(self).size.1 > 0,
            idx / old(self).size.1 < usize::MAX,
        ensures
            *final(self) == *old(self),
            n == count_flagged(old(self).board@, old(self).nbrs(idx as int)),
            n <= 8,
    {
        let nb = self.neighbors_indices(idx);
        let ghost nl = self.nbrs(idx as int);
        proof {
            lemma_neighbor_list_members(self.size.0 as int, self.size.1 as int, idx as int);
        }
        let mut count: usize = 0;
        let mut k: usize = 0;
        while k < nb.len()
            invariant
                self.wf(),
                nb@.len() == nl.len(),
                nb@.len() <= 8,
                forall|q: int| 0 <= q < nb@.len() ==> nb@[q] as int == #[trigger] nl[q],
                forall|q: int| 0 <= q < nl.len() ==> 0 <= #[trigger] nl[q] < self.board@.len(),
                k <= nb@.len(),
                count == count_flagged(self.board@, nl.take(k as int)),
                count <= k,
            decreases nb@.len() - k,
        {
            proof {
                assert(nl.take(k + 1).drop_last() =~= nl.take(k as int));
                assert(nl[k as int] < self.board@.len());
            }
            if self.board[nb[k]].is_flagged() {
                count = count + 1;
            }
            k = k + 1;
        }
        proof {
            assert(nl.take(nb@.len() as int) =~= nl);
        }
        count
    }

    /// Create a board with bombs at the given `(row, col)` coordinates.
    ///
    /// Coordinates outside the board are ignored. Every other cell gets the
    /// number of bombs around it. All cells start hidden.
    pub fn from_bomb_coords(size: (usize, usize), bomb_coords: &[(usize, usize)]) -> (b: Board)
        requires
            size.0 * size.1 <= usize::MAX,
        ensures
            b.size == size,
            b.wf(),
            !b.game_over,
            forall|i: int|
                0 <= i < b.board@.len() ==> (#[trigger] b.board@[i]).status == Status::Hidden,
            forall|i: int|
                0 <= i < b.board@.len() ==> ((#[trigger] b.board@[i]).cell_type is Bomb
                    <==> bomb_listed(size, bomb_coords@, i)),
            numbers_consistent(b.board@, size.0 as int, size.1 as int),
    {
        let mut b = Board::new_game(size);
        let (rows, cols) = size;
        let ghost coords = bomb_coords@;
        let mut k: usize = 0;
        while k < bomb_coords.len()
            invariant
                b.size == size,
                b.wf(),
                !b.game_over,
                coords == bomb_coords@,
                size.0 * size.1 <= usize::MAX,
                k <= coords.len(),
                forall|i: int|
                    0 <= i < b.board@.len() ==> (#[trigger] b.board@[i]).status == Status::Hidden,
                forall|i: int|
                    0 <= i < b.board@.len() ==> ((#[trigger] b.board@[i]).cell_type is Bomb
                        <==> bomb_listed(size, coords.take(k as int), i)),
                forall|i: int|
                    0 <= i < b.board@.len() && !(#[trigger] b.board@[i].cell_type is Bomb)
                        ==> b.board@[i].cell_type == CellType::Number(0),
            decreases coords.len() - k,
        {
            let (r, c) = bomb_coords[k];
            let ghost before = b.board@;
            let ghost t = coords.take(k as int);
            let ghost t1 = coords.take(k + 1);
            proof {
                assert forall|i: int| bomb_listed(size, t, i) implies bomb_listed(size, t1, i) by {
                    let q = choose|q: int|
                        0 <= q < t.len() && #[trigger] t[q].0 < size.0 && t[q].1 < size.1
                            && t[q].0 * size.1 + t[q].1 == i;
                    assert(t1[q] == t[q]);
                }
            }
            if let Some(idx) = b.rc_to_index_checked(r, c) {
                b.board.set(idx, Cell::new_bomb());
                proof {
                    assert(t1[k as int] == (r, c));
                    assert forall|i: int| 0 <= i < b.board@.len() implies ((#[trigger] b.board@[i]).cell_type is Bomb
                        <==> bomb_listed(size, t1, i)) by {
                        if i == idx {
                            assert(t1[k as int].0 < size.0 && t1[k as int].1 < size.1);
                            assert(t1[k as int].0 * size.1 + t1[k as int].1 == i);
                            assert(bomb_listed(size, t1, i));
                        } else if bomb_listed(size, t1, i) {
                            let q = choose|q: int|
                                0 <= q < t1.len() && #[trigger] t1[q].0 < size.0 && t1[q].1 < size.1
                                    && t1[q].0 * size.1 + t1[q].1 == i;
                            assert(q != k);
                            assert(t[q] == t1[q]);
                        }
                    }
                }
            } else {
                proof {
                    assert forall|i: int| 0 <= i < b.board@.len() implies ((#[trigger] b.board@[i]).cell_type is Bomb
                        <==> bomb_listed(size, t1, i)) by {
                        if bomb_listed(size, t1, i) {
                            let q = choose|q: int|
                                0 <= q < t1.len() && #[trigger] t1[q].0 < size.0 && t1[q].1 < size.1
                                    && t1[q].0 * size.1 + t1[q].1 == i;
                            if q == k {
                                assert(t1[k as int] == (r, c));
                            }
                            assert(t[q] == t1[q]);
                        }
                    }
                }
            }
            k = k + 1;
        }
        proof {
            assert(coords.take(coords.len() as int) =~= coords);
        }

        let ghost layout = b.board@;
        let n = rows * cols;
        let mut idx: usize = 0;
        while idx < n
            invariant
                b.size == size,
                b.wf(),
                !b.game_over,
                n == size.0 * size.1,
                size.0 * size.1 <= usize::MAX,
                rows == size.0,
                cols == size.1,
                idx <= n,
                layout.len() == n,
                forall|i: int|
                    0 <= i < b.board@.len() ==> (#[trigger] b.board@[i]).status == Status::Hidden,
                forall|i: int|
                    0 <= i < b.board@.len() ==> ((#[trigger] b.board@[i]).cell_type is Bomb
                        <==> layout[i].cell_type is Bomb),
                forall|i: int|
                    0 <= i < idx && !(#[trigger] b.board@[i].cell_type is Bomb) ==> (b.board@[i].cell_type
                        matches CellType::Number(v) && v == count_bombs(layout, b.nbrs(i))),
            decreases n - idx,
        {
            proof {
                assert(rows > 0 && cols > 0) by (nonlinear_arith)
                    requires
                        idx < rows * cols,
                ;
                lemma_split_index(cols as int, idx as int);
                lemma_row_major_order(cols as int, idx as int / cols as int, idx as int % cols as int, rows as int, 0);
            }
            if b.board[idx].is_bomb() {
                idx = idx + 1;
                continue;
            }
            let nb = b.neighbors_indices(idx);
            let ghost nl = b.nbrs(idx as int);
            proof {
                lemma_neighbor_list_members(rows as int, cols as int, idx as int);
            }
            let mut count: i32 = 0;
            let mut q: usize = 0;
            while q < nb.len()
                invariant
                    b.wf(),
                    layout.len() == b.board@.len(),
                    forall|i: int|
                        0 <= i < b.board@.len() ==> ((#[trigger] b.board@[i]).cell_type is Bomb
                            <==> layout[i].cell_type is Bomb),
                    nb@.len() == nl.len(),
                    nb@.len() <= 8,
                    forall|p: int| 0 <= p < nb@.len() ==> nb@[p] as int == #[trigger] nl[p],
                    forall|p: int| 0 <= p < nl.len() ==> 0 <= #[trigger] nl[p] < b.board@.len(),
                    q <= nb@.len(),
                    count as int == count_bombs(layout, nl.take(q as int)),
                    count <= q,
                decreases nb@.len() - q,
            {
                proof {
                    assert(nl.take(q + 1).drop_last() =~= nl.take(q as int));
                    assert(nl[q as int] < b.board@.len());
                }
                if b.board[nb[q]].is_bomb() {
                    count = count + 1;
                }
                q = q + 1;
            }
            proof {
                assert(nl.take(nb@.len() as int) =~= nl);
            }
            b.board.set(idx, Cell::new_number(count));
            idx = idx + 1;
        }
        proof {
            let cells = b.board@;
            assert forall|i: int| 0 <= i < cells.len() implies match #[trigger] cells[i].cell_type {
                CellType::Number(v) => v == count_bombs(cells, neighbor_list(rows as int, cols as int, i)),
                CellType::Bomb => true,
            } by {
                let nl = neighbor_list(rows as int, cols as int, i);
                lemma_neighbor_list_members(rows as int, cols as int, i);
                lemma_count_bombs_same(layout, cells, nl);
            }
        }
        b
    }

    /// Reveal the region that a flood fill from `start_idx` reaches, breadth
    /// first: a zero cell spreads to the neighbors that are neither revealed
    /// nor flagged; a number cell is revealed and stops the spread. A flagged
    /// start changes nothing.
    fn flood_reveal(&mut self, start_idx: usize)
        requires
            old(self).wf(),
            start_idx < old(self).board@.len(),
        ensures
            final(self).size == old(self).size,
            final(self).game_over == old(self).game_over,
            old(self).board@[start_idx as int].status == Status::Flag ==> final(self).board@ == old(
                self,
            ).board@,
            old(self).board@[start_idx as int].status != Status::Flag ==> final(self).board@
                == flood_opened(
                old(self).board@,
                old(self).size.0 as int,
                old(self).size.1 as int,
                start_idx as int,
            ),
    {
        let ghost s0 = self.board@;
        let ghost rows = self.size.0 as int;
        let ghost cols = self.size.1 as int;
        let ghost n = s0.len() as int;
        let ghost start = start_idx as int;
        if self.board[start_idx].is_flagged() {
            // A flagged start is popped, seen to be flagged, and skipped.
            return;
        }
        let mut q: VecDeque<usize> = VecDeque::new();
        let mut visited: Vec<bool> = vec![false; self.board.len()];
        q.push_back(start_idx);
        visited.set(start_idx, true);
        let ghost mut done: Set<int> = Set::empty();
        proof {
            assert forall|j: int| 0 <= j < n implies #[trigger] visited@[j] == (j == start) by {
                if j != start {
                    assert(!visited@[j]);
                }
            }
            assert forall|j: int| 0 <= j < n implies (#[trigger] visited@[j] <==> (done.contains(j) || q@.contains(j as usize))) by {
                if j == start {
                    assert(q@[0] == start_idx);
                } else {
                    assert(q@.len() == 1 && q@[0] != j as usize);
                }
            }
            assert(q@ =~= seq![start_idx]);
            assert(self.board@.len() > 0);
            assert(rows > 0 && cols > 0) by (nonlinear_arith)
                requires
                    0 < rows * cols,
                    0 <= rows,
                    0 <= cols,
            ;
            let p0 = seq![start];
            assert(is_flood_path(s0, rows, cols, p0));
            assert(flood_reaches(s0, rows, cols, start, start));
            lemma_int_range(0, n);
            assert(done =~= Set::<int>::empty());
        }
        loop
            invariant
                self.wf(),
                self.size.0 as int == rows,
                self.size.1 as int == cols,
                rows > 0,
                cols > 0,
                self.game_over == old(self).game_over,
                self.size == old(self).size,
                s0 == old(self).board@,
                n == s0.len(),
                self.board@.len() == n,
                visited@.len() == n,
                0 <= start < n,
                visited@[start],
                set_int_range(0, n).finite(),
                done.subset_of(set_int_range(0, n)),
                q@.no_duplicates(),
                forall|k: int| 0 <= k < q@.len() ==> 0 <= #[trigger] q@[k] < n && !done.contains(q@[k] as int),
                forall|j: int| 0 <= j < n ==> (#[trigger] visited@[j] <==> (done.contains(j) || q@.contains(j as usize))),
                forall|j: int|
                    0 <= j < n && #[trigger] visited@[j] ==> s0[j].status != Status::Flag && flood_reaches(
                        s0,
                        rows,
                        cols,
                        start,
                        j,
                    ),
                forall|j: int|
                    0 <= j < n ==> #[trigger] self.board@[j] == (if done.contains(j) {
                        revealed_cell(s0[j])
                    } else {
                        s0[j]
                    }),
                forall|u: int, v: int|
                    #[trigger] done.contains(u) && #[trigger] flood_step(s0, rows, cols, u, v) ==> 0 <= v < n
                        && visited@[v],
            ensures
                q@.len() == 0,
            decreases n - done.len(),
        {
            let ghost old_q = q@;
            let popped = q.pop_front();
            match popped {
                None => {
                    break;
                },
                Some(idx) => {
                    let ghost qi = idx as int;
                    proof {
                        lemma_int_range(0, n);
                        lemma_len_subset(done, set_int_range(0, n));
                        lemma_len_subset(done.insert(qi), set_int_range(0, n));
                        assert(old_q[0] == idx);
                        assert(!done.contains(qi));
                        assert(done.insert(qi).len() == done.len() + 1);
                        assert(visited@[qi]);
                        assert forall|j: int| 0 <= j < n implies (#[trigger] visited@[j] <==> (done.insert(qi).contains(j) || q@.contains(j as usize))) by {
                            if j != qi && old_q.contains(j as usize) {
                                let w = choose|w: int| 0 <= w < old_q.len() && old_q[w] == j as usize;
                                assert(w != 0);
                                assert(q@[w - 1] == j as usize);
                            }
                            if q@.contains(j as usize) {
                                let w = choose|w: int| 0 <= w < q@.len() && q@[w] == j as usize;
                                assert(old_q[w + 1] == j as usize);
                            }
                        }
                        assert forall|k: int| 0 <= k < q@.len() implies 0 <= #[trigger] q@[k] < n && !done.insert(qi).contains(q@[k] as int) by {
                            assert(q@[k] == old_q[k + 1]);
                            assert(old_q[0] != old_q[k + 1]);
                        }
                    }
                    proof {
                        assert(self.board@[qi] == s0[qi]);
                        assert(s0[qi].status != Status::Flag);
                    }
                    if !self.board[idx].is_flagged() {
                        let mut cell = self.board[idx];
                        let ctype = cell.reveal_cell();
                        self.board.set(idx, cell);
                        let ghost done0 = done;
                        proof {
                            done = done.insert(qi);
                        }
                        match ctype {
                            CellType::Bomb => {},
                            CellType::Number(v) => {
                                if v == 0 {
                                    proof {
                                        lemma_split_index(cols, qi);
                                        lemma_row_major_order(cols, qi / cols, qi % cols, rows, 0);
                                        lemma_neighbor_list_members(rows, cols, qi);
                                    }
                                    let nb = self.neighbors_indices(idx);
                                    let ghost nl = self.nbrs(qi);
                                    let mut k: usize = 0;
                                    while k < nb.len()
                                        invariant
                                            self.wf(),
                                            self.size.0 as int == rows,
                                            self.size.1 as int == cols,
                                            rows > 0,
                                            cols > 0,
                                            self.game_over == old(self).game_over,
                                            self.size == old(self).size,
                                            s0 == old(self).board@,
                                            n == s0.len(),
                                            self.board@.len() == n,
                                            visited@.len() == n,
                                            0 <= start < n,
                                            visited@[start],
                                            0 <= qi < n,
                                            s0[qi].cell_type == CellType::Number(0),
                                            flood_reaches(s0, rows, cols, start, qi),
                                            done.contains(qi),
                                            done.subset_of(set_int_range(0, n)),
                                            q@.no_duplicates(),
                                            forall|k2: int| 0 <= k2 < q@.len() ==> 0 <= #[trigger] q@[k2] < n && !done.contains(q@[k2] as int),
                                            forall|j: int| 0 <= j < n ==> (#[trigger] visited@[j] <==> (done.contains(j) || q@.contains(j as usize))),
                                            forall|j: int|
                                                0 <= j < n && #[trigger] visited@[j] ==> s0[j].status != Status::Flag && flood_reaches(
                                                    s0,
                                                    rows,
                                                    cols,
                                                    start,
                                                    j,
                                                ),
                                            forall|j: int|
                                                0 <= j < n ==> #[trigger] self.board@[j] == (if done.contains(j) {
                                                    revealed_cell(s0[j])
                                                } else {
                                                    s0[j]
                                                }),
                                            forall|u: int, v: int|
                                                #[trigger] done.contains(u) && #[trigger] flood_step(s0, rows, cols, u, v) && u != qi ==> 0 <= v < n
                                                    && visited@[v],
                                            nb@.len() == nl.len(),
                                            forall|p: int| 0 <= p < nb@.len() ==> nb@[p] as int == #[trigger] nl[p],
                                            forall|p: int| 0 <= p < nl.len() ==> 0 <= #[trigger] nl[p] < n && is_neighbor(rows, cols, qi, nl[p]),
                                            k <= nb@.len(),
                                            forall|p: int| 0 <= p < k && can_open(s0[#[trigger] nl[p]]) ==> visited@[nl[p]],
                                        decreases nb@.len() - k,
                                    {
                                        let n_idx = nb[k];
                                        let ghost nj = n_idx as int;
                                        proof {
                                            assert(nl[k as int] == nj);
                                        }
                                        if !visited[n_idx] && !self.board[n_idx].is_revealed() && !self.board[n_idx].is_flagged() {
                                            let ghost oq = q@;
                                            proof {
                                                assert(!done.contains(nj));
                                                assert(self.board@[nj] == s0[nj]);
                                                assert(flood_step(s0, rows, cols, qi, nj));
                                                let p = choose|p: Seq<int>| #[trigger] is_flood_path(s0, rows, cols, p) && p[0] == start && p.last() == qi;
                                                lemma_flood_path_extend(s0, rows, cols, p, nj);
                                                assert(!oq.contains(n_idx));
                                            }
                                            visited.set(n_idx, true);
                                            q.push_back(n_idx);
                                            proof {
                                                assert(q@ == oq.push(n_idx));
                                                assert forall|a: int, b: int| 0 <= a < q@.len() && 0 <= b < q@.len() && a != b implies q@[a] != q@[b] by {
                                                    if a < oq.len() && b < oq.len() {
                                                        assert(oq[a] != oq[b]);
                                                    } else if a < oq.len() {
                                                        assert(oq.contains(oq[a]));
                                                    } else {
                                                        assert(oq.contains(oq[b]));
                                                    }
                                                }
                                                assert forall|j: int| 0 <= j < n implies (#[trigger] visited@[j] <==> (done.contains(j) || q@.contains(j as usize))) by {
                                                    if j != nj {
                                                        if oq.contains(j as usize) {
                                                            let w = choose|w: int| 0 <= w < oq.len() && oq[w] == j as usize;
                                                            assert(q@[w] == j as usize);
                                                        }
                                                        if q@.contains(j as usize) {
                                                            let w = choose|w: int| 0 <= w < q@.len() && q@[w] == j as usize;
                                                            assert(w < oq.len());
                                                            assert(oq[w] == j as usize);
                                                        }
                                                    } else {
                                                        assert(q@[q@.len() - 1] == n_idx);
                                                    }
                                                }
                                            }
                                        }
                                        k = k + 1;
                                    }
                                    proof {
                                        assert forall|u: int, w: int|
                                            #[trigger] done.contains(u) && #[trigger] flood_step(s0, rows, cols, u, w) implies 0 <= w < n
                                                && visited@[w] by {
                                            if u == qi {
                                                assert(nl.contains(w));
                                                let p = choose|p: int| 0 <= p < nl.len() && nl[p] == w;
                                                assert(can_open(s0[nl[p]]));
                                            }
                                        }
                                    }
                                }
                            },
                        }
                    }
                },
            }
        }
        proof {
            assert forall|j: int| 0 <= j < n implies #[trigger] self.board@[j] == flood_opened(s0, rows, cols, start)[j] by {
                if flood_reaches(s0, rows, cols, start, j) {
                    let p = choose|p: Seq<int>| #[trigger] is_flood_path(s0, rows, cols, p) && p[0] == start && p.last() == j;
                    assert(visited@[start]);
                    assert forall|u: int, v: int|
                        #[trigger] done.contains(u) && #[trigger] flood_step(s0, rows, cols, u, v) implies done.contains(v) by {
                        assert(visited@[v]);
                        assert(!q@.contains(v as usize));
                    }
                    lemma_flood_path_closed(s0, rows, cols, p, done);
                } else {
                    if done.contains(j) {
                        assert(visited@[j]);
                    }
                }
            }
            assert(self.board@ =~= flood_opened(s0, rows, cols, start));
        }
    }

    /// Reveal the cell at `idx`.
    ///
    /// Returns:
    /// * `Ok(number)` if a number cell was revealed (the number value).
    /// * `Err("BOMB")` if a bomb was revealed (and sets `game_over`).
    /// * `Err("FLAGGED")` if the cell is flagged (nothing changes).
    /// * `Err("OUT_OF_BOUNDS")` for invalid indices (nothing changes).
    ///
    /// If the revealed cell is a zero, a flood fill reveals the contiguous
    /// zeroes and their bordering number cells. On an already revealed cell
    /// whose number equals the count of flags around it, every neighbor that
    /// is not revealed yet is revealed in turn, in increasing index order.
    pub fn reveal_index(&mut self, idx: usize) -> (r: Result<i32, String>)
        requires
            old(self).wf(),
        ensures
            final(self).wf(),
            final(self).size == old(self).size,
            (final(self).board@, final(self).game_over, result_view(r)) == reveal_outcome(
                old(self).board@,
                old(self).game_over,
                old(self).size.0 as int,
                old(self).size.1 as int,
                idx as int,
            ),
        decreases
            (if idx < old(self).board@.len() && old(self).board@[idx as int].status
                == Status::Revealed {
                1int
            } else {
                0int
            }),
    {
        if idx >= self.board.len() {
            return Err(String::from_str("OUT_OF_BOUNDS"));
        }
        let ghost s0 = self.board@;
        let ghost g0 = self.game_over;
        let ghost rows = self.size.0 as int;
        let ghost cols = self.size.1 as int;
        let ghost ii = idx as int;
        if self.board[idx].is_revealed() {
            proof {
                assert(rows > 0 && cols > 0) by (nonlinear_arith)
                    requires
                        0 <= ii < rows * cols,
                        0 <= rows,
                        0 <= cols,
                ;
                lemma_split_index(cols, ii);
                lemma_row_major_order(cols, ii / cols, ii % cols, rows, 0);
                lemma_neighbor_list_members(rows, cols, ii);
            }
            let flagged = self.count_flagged_neighbors(idx);
            if self.board[idx].number_value().unwrap_or(0) == flagged as i32 {
                let nb = self.neighbors_indices(idx);
                let ghost nl = self.nbrs(ii);
                let mut k: usize = 0;
                proof {
                    assert(nl.take(0) =~= Seq::<int>::empty());
                }
                while k < nb.len()
                    invariant
                        self.wf(),
                        self.size == old(self).size,
                        s0 == old(self).board@,
                        ii == idx,
                        ii < s0.len(),
                        s0[ii].status == Status::Revealed,
                        rows == self.size.0 as int,
                        cols == self.size.1 as int,
                        self.board@.len() == s0.len(),
                        nb@.len() == nl.len(),
                        forall|p: int| 0 <= p < nb@.len() ==> nb@[p] as int == #[trigger] nl[p],
                        forall|p: int| 0 <= p < nl.len() ==> 0 <= #[trigger] nl[p] < s0.len(),
                        k <= nb@.len(),
                        (self.board@, self.game_over) == open_each(s0, g0, rows, cols, nl.take(k as int)),
                    decreases nb@.len() - k,
                {
                    let n_idx = nb[k];
                    proof {
                        assert(nl.take(k + 1).drop_last() =~= nl.take(k as int));
                        assert(nl.take(k + 1).last() == nl[k as int]);
                    }
                    if !self.board[n_idx].is_revealed() {
                        let _ = self.reveal_index(n_idx);
                    }
                    k = k + 1;
                }
                proof {
                    assert(nl.take(nb@.len() as int) =~= nl);
                    lemma_open_each_only_reveals(s0, g0, rows, cols, nl);
                }
            }
            proof {
                assert(self.board@[ii].cell_type == s0[ii].cell_type);
            }
            return match self.board[idx].number_value() {
                Some(n) => Ok(n),
                None => Err(String::from_str("BOMB")),
            };
        }
        if self.board[idx].is_flagged() {
            return Err(String::from_str("FLAGGED"));
        }
        let mut cell = self.board[idx];
        let ctype = cell.reveal_cell();
        self.board.set(idx, cell);
        match ctype {
            CellType::Bomb => {
                self.game_over = true;
                Err(String::from_str("BOMB"))
            },
            CellType::Number(n) => {
                if n == 0 {
                    self.flood_reveal(idx);
                }
                Ok(n)
            },
        }
    }

    /// Cycle the mark of the cell at `idx` along
    /// `Hidden -> Flag -> Question -> Hidden`.
    ///
    /// Returns
    /// * `Ok(())` on success
    /// * `Err("OUT_OF_BOUNDS")` if index invalid
    /// * `Err("REVEALED")` if the cell is already revealed.
    pub fn cycle_flag(&mut self, idx: usize) -> (r: Result<(), String>)
        ensures
            final(self).size == old(self).size,
            final(self).game_over == old(self).game_over,
            (final(self).board@, result_view(r)) == cycle_outcome(old(self).board@, idx as int),
    {
        if idx >= self.board.len() {
            return Err(String::from_str("OUT_OF_BOUNDS"));
        }
        if self.board[idx].is_revealed() {
            return Err(String::from_str("REVEALED"));
        }
        let mut cell = self.board[idx];
        cell.cycle_status();
        self.board.set(idx, cell);
        Ok(())
    }

    /// Whether the player has won: every cell without a bomb is revealed.
    pub fn check_win(&self) -> (won: bool)
        ensures
            won == all_safe_revealed(self.board@),
    {
        let mut k: usize = 0;
        while k < self.board.len()
            invariant
                k <= self.board@.len(),
                forall|i: int|
                    0 <= i < k && !(#[trigger] self.board@[i].cell_type is Bomb) ==> self.board@[i].status
                        == Status::Revealed,
            decreases self.board@.len() - k,
        {
            if !self.board[k].is_bomb() && !self.board[k].is_revealed() {
                return false;
            }
            k = k + 1;
        }
        true
    }

    /// Reveal by (row, col); see [`Board::reveal_index`].
    pub fn reveal_rc(&mut self, r: usize, c: usize) -> (res: Result<i32, String>)
        requires
            old(self).wf(),
        ensures
            final(self).wf(),
            final(self).size == old(self).size,
            (final(self).board@, final(self).game_over, result_view(res)) == (if r < old(self).size.0
                && c < old(self).size.1 {
                reveal_outcome(
                    old(self).board@,
                    old(self).game_over,
                    old(self).size.0 as int,
                    old(self).size.1 as int,
                    r * old(self).size.1 + c,
                )
            } else {
                (old(self).board@, old(self).game_over, Err("OUT_OF_BOUNDS"@))
            }),
    {
        if let Some(idx) = self.rc_to_index_checked(r, c) {
            self.reveal_index(idx)
        } else {
            Err(String::from_str("OUT_OF_BOUNDS"))
        }
    }

    /// Cycle the mark by (row, col); see [`Board::cycle_flag`].
    pub fn cycle_flag_rc(&mut self, r: usize, c: usize) -> (res: Result<(), String>)
        requires
            old(self).size.0 * old(self).size.1 <= usize::MAX,
        ensures
            final(self).size == old(self).size,
            final(self).game_over == old(self).game_over,
            (final(self).board@, result_view(res)) == (if r < old(self).size.0 && c < old(self).size.1 {
                cycle_outcome(old(self).board@, r * old(self).size.1 + c)
            } else {
                (old(self).board@, Err("OUT_OF_BOUNDS"@))
            }),
    {
        if let Some(idx) = self.rc_to_index_checked(r, c) {
            self.cycle_flag(idx)
        } else {
            Err(String::from_str("OUT_OF_BOUNDS"))
        }
    }

    /// The coordinates that a sequence of draws picks (see [`picks`]): the
    /// cells are listed row by row, and each draw takes the cell at its
    /// position in the list, which is then swap-removed.
    pub fn coords_from_draws(size: (usize, usize), draws: &[usize]) -> (coords: Vec<(usize, usize)>)
        requires
            size.0 * size.1 <= usize::MAX,
            draws@.len() <= size.0 * size.1,
            draws_fit(size, draws@),
        ensures
            coords@ == picks(size, draws@),
            coords@.len() == draws@.len(),
            forall|i: int| 0 <= i < coords@.len() ==> (#[trigger] coords@[i]).0 < size.0 && coords@[i].1 < size.1,
            forall|i: int, j: int| 0 <= i < coords@.len() && 0 <= j < coords@.len() && i != j ==> coords@[i] != coords@[j],
    {
        let (rows, cols) = size;
        let mut free: Vec<(usize, usize)> = Vec::new();
        let mut r: usize = 0;
        while r < rows
            invariant
                r <= rows,
                rows == size.0,
                cols == size.1,
                size.0 * size.1 <= usize::MAX,
                free@.len() == r * cols,
                forall|k: int| 0 <= k < free@.len() ==> #[trigger] free@[k] == row_major_cells(size)[k],
            decreases rows - r,
        {
            let mut c: usize = 0;
            proof {
                assert(r * cols + cols <= rows * cols) by (nonlinear_arith)
                    requires
                        r < rows,
                ;
            }
            while c < cols
                invariant
                    r < rows,
                    c <= cols,
                    rows == size.0,
                    cols == size.1,
                    r * cols + cols <= rows * cols,
                    size.0 * size.1 <= usize::MAX,
                    free@.len() == r * cols + c,
                    forall|k: int| 0 <= k < free@.len() ==> #[trigger] free@[k] == row_major_cells(size)[k],
                decreases cols - c,
            {
                proof {
                    lemma_index_row_col(cols as int, r as int, c as int);
                }
                free.push((r, c));
                c = c + 1;
            }
            proof {
                assert(r * cols + cols == (r + 1) * cols) by (nonlinear_arith);
            }
            r = r + 1;
        }
        proof {
            lemma_row_major_cells(size);
            assert(free@ =~= row_major_cells(size));
            assert(draws@.skip(0) =~= draws@);
        }

        let mut coords: Vec<(usize, usize)> = Vec::with_capacity(draws.len());
        let mut i: usize = 0;
        while i < draws.len()
            invariant
                rows == size.0,
                cols == size.1,
                i <= draws@.len(),
                draws@.len() <= size.0 * size.1,
                draws_fit(size, draws@),
                coords@.len() == i,
                free@.len() + i == size.0 * size.1,
                coords@ + picks_from(free@, draws@.skip(i as int)) == picks(size, draws@),
                forall|k: int| 0 <= k < free@.len() ==> (#[trigger] free@[k]).0 < rows && free@[k].1 < cols,
                forall|k: int| 0 <= k < coords@.len() ==> (#[trigger] coords@[k]).0 < rows && coords@[k].1 < cols,
                forall|a: int, b: int| 0 <= a < free@.len() && 0 <= b < free@.len() && a != b ==> free@[a] != free@[b],
                forall|a: int, b: int| 0 <= a < coords@.len() && 0 <= b < coords@.len() && a != b ==> coords@[a] != coords@[b],
                forall|a: int, b: int| 0 <= a < free@.len() && 0 <= b < coords@.len() ==> free@[a] != coords@[b],
            decreases draws@.len() - i,
        {
            let k = draws[i];
            let ghost f0 = free@;
            let ghost c0 = coords@;
            let ghost rest = draws@.skip(i as int);
            proof {
                assert(k < size.0 * size.1 - i);
                assert(rest[0] == k);
                assert(rest.drop_first() =~= draws@.skip(i + 1));
            }
            let picked = free.swap_remove(k);
            coords.push(picked);
            proof {
                assert(free@ == swap_removed(f0, k as int));
                assert(coords@ + picks_from(free@, draws@.skip(i + 1)) =~= c0 + picks_from(f0, rest));
                assert forall|q: int| 0 <= q < free@.len() implies exists|m: int| 0 <= m < f0.len() && m != k && #[trigger] free@[q] == f0[m] by {
                    if q == k {
                        assert(free@[q] == f0[f0.len() - 1]);
                    } else {
                        assert(free@[q] == f0[q]);
                    }
                }
                assert forall|q: int| 0 <= q < free@.len() implies (#[trigger] free@[q]).0 < rows && free@[q].1 < cols by {
                    let m = choose|m: int| 0 <= m < f0.len() && m != k && free@[q] == f0[m];
                }
                assert forall|a: int, b: int| 0 <= a < free@.len() && 0 <= b < free@.len() && a != b implies free@[a] != free@[b] by {
                    if a == k {
                        assert(free@[a] == f0[f0.len() - 1]);
                        assert(free@[b] == f0[b]);
                    } else if b == k {
                        assert(free@[b] == f0[f0.len() - 1]);
                        assert(free@[a] == f0[a]);
                    } else {
                        assert(free@[a] == f0[a]);
                        assert(free@[b] == f0[b]);
                    }
                }
                assert forall|a: int, b: int| 0 <= a < coords@.len() && 0 <= b < coords@.len() && a != b implies coords@[a] != coords@[b] by {
                    if a == c0.len() {
                        assert(coords@[b] == c0[b]);
                    } else if b == c0.len() {
                        assert(coords@[a] == c0[a]);
                    } else {
                        assert(coords@[a] == c0[a]);
                        assert(coords@[b] == c0[b]);
                    }
                }
                assert forall|a: int, b: int| 0 <= a < free@.len() && 0 <= b < coords@.len() implies free@[a] != coords@[b] by {
                    let m = choose|m: int| 0 <= m < f0.len() && m != k && free@[a] == f0[m];
                    if b < c0.len() {
                        assert(coords@[b] == c0[b]);
                    } else {
                        assert(coords@[b] == f0[k as int]);
                    }
                }
            }
            i = i + 1;
        }
        proof {
            assert(draws@.skip(i as int).len() == 0);
            assert(picks_from(free@, draws@.skip(i as int)) =~= Seq::<(usize, usize)>::empty());
            assert(coords@ =~= coords@ + picks_from(free@, draws@.skip(i as int)));
        }
        coords
    }

    /// Generate `num_bombs` distinct random coordinates on a board of the
    /// given size.
    ///
    /// Each draw comes from the thread-local generator of `rand` and is
    /// uniform among the positions of the cells that hold no bomb yet; the
    /// draws are turned into coordinates by [`Board::coords_from_draws`].
    /// The cell count must fit in a `usize`, as it must for every board that
    /// the coordinates are meant for (see [`Board::wf`]).
    pub fn random_bomb_coords(size: (usize, usize), num_bombs: usize) -> (coords: Vec<(usize, usize)>)
        requires
            size.0 * size.1 <= usize::MAX,
            num_bombs <= size.0 * size.1,
        ensures
            exists|draws: Seq<usize>|
                draws.len() == num_bombs && draws_fit(size, draws) && coords@ == #[trigger] picks(size, draws),
            coords@.len() == num_bombs,
            forall|i: int| 0 <= i < coords@.len() ==> (#[trigger] coords@[i]).0 < size.0 && coords@[i].1 < size.1,
            forall|i: int, j: int| 0 <= i < coords@.len() && 0 <= j < coords@.len() && i != j ==> coords@[i] != coords@[j],
    {
        let n = size.0 * size.1;
        let mut draws: Vec<usize> = Vec::with_capacity(num_bombs);
        let mut rng = thread_rng();
        while draws.len() < num_bombs
            invariant
                n == size.0 * size.1,
                num_bombs <= n,
                draws@.len() <= num_bombs,
                draws_fit(size, draws@),
            decreases num_bombs - draws@.len(),
        {
            let d = random_below(&mut rng, n - draws.len());
            let ghost before = draws@;
            draws.push(d);
            proof {
                assert forall|i: int| 0 <= i < draws@.len() implies #[trigger] draws@[i] < size.0 * size.1 - i by {
                    if i < before.len() {
                        assert(draws@[i] == before[i]);
                    }
                }
            }
        }
        let coords = Board::coords_from_draws(size, draws.as_slice());
        coords
    }
}

} // verus!
