//! The rules of the game stated over mathematical sequences of cells: how
//! adjacent bombs and flags are counted, where a listed bomb lands, and what
//! a consistent board is.

use vstd::prelude::*;
use crate::cells::{Cell, CellType, Status, revealed_cell, cycled_cell, type_number};
use crate::grid::{is_neighbor, neighbor_list, lemma_split_index, lemma_row_major_order};

verus! {

/// How many of the cells at the indices `js` are flagged.
pub open spec fn count_flagged(cells: Seq<Cell>, js: Seq<int>) -> nat
    decreases js.len(),
{
    if js.len() == 0 {
        0
    } else {
        count_flagged(cells, js.drop_last()) + (if cells[js.last()].status == Status::Flag {
            1nat
        } else {
            0nat
        })
    }
}

/// How many of the cells at the indices `js` hold a bomb.
pub open spec fn count_bombs(cells: Seq<Cell>, js: Seq<int>) -> nat
    decreases js.len(),
{
    if js.len() == 0 {
        0
    } else {
        count_bombs(cells, js.drop_last()) + (if cells[js.last()].cell_type is Bomb {
            1nat
        } else {
            0nat
        })
    }
}

/// Some in-bounds entry of `coords` names the cell at index `i` of a board
/// of the given size.
pub open spec fn bomb_listed(size: (usize, usize), coords: Seq<(usize, usize)>, i: int) -> bool {
    exists|k: int|
        0 <= k < coords.len() && #[trigger] coords[k].0 < size.0 && coords[k].1 < size.1 && coords[k].0
            * size.1 + coords[k].1 == i
}

/// Every number cell holds the count of bombs around it.
pub open spec fn numbers_consistent(cells: Seq<Cell>, rows: int, cols: int) -> bool {
    forall|i: int|
        0 <= i < cells.len() ==> match #[trigger] cells[i].cell_type {
            CellType::Number(v) => v == count_bombs(cells, neighbor_list(rows, cols, i)),
            CellType::Bomb => true,
        }
}

/// The flood fill may open this cell: it is neither revealed nor flagged.
pub open spec fn can_open(c: Cell) -> bool {
    c.status != Status::Revealed && c.status != Status::Flag
}

/// The flood fill spreads from `u` to `v`: `u` is a zero cell and `v` is an
/// adjacent cell that may be opened.
pub open spec fn flood_step(cells: Seq<Cell>, rows: int, cols: int, u: int, v: int) -> bool {
    &&& is_neighbor(rows, cols, u, v)
    &&& cells[u].cell_type == CellType::Number(0)
    &&& can_open(cells[v])
}

/// `p` is a chain of flood steps.
pub open spec fn is_flood_path(cells: Seq<Cell>, rows: int, cols: int, p: Seq<int>) -> bool {
    &&& p.len() >= 1
    &&& forall|k: int| 0 <= k < p.len() - 1 ==> #[trigger] flood_step(cells, rows, cols, p[k], p[k + 1])
}

/// The flood fill started at `start` reaches `j`: a chain of flood steps
/// leads from `start` to `j`. (Every cell reaches itself.)
pub open spec fn flood_reaches(cells: Seq<Cell>, rows: int, cols: int, start: int, j: int) -> bool {
    exists|p: Seq<int>|
        #[trigger] is_flood_path(cells, rows, cols, p) && p[0] == start && p.last() == j
}

/// The cells after a flood fill from `start`: every cell that the fill
/// reaches is revealed, every other cell is unchanged.
pub open spec fn flood_opened(cells: Seq<Cell>, rows: int, cols: int, start: int) -> Seq<Cell> {
    Seq::new(
        cells.len(),
        |j: int|
            if flood_reaches(cells, rows, cols, start, j) {
                revealed_cell(cells[j])
            } else {
                cells[j]
            },
    )
}

/// The cells and the game-over flag after revealing the not yet revealed
/// cell `i`: a flagged cell stays as it is; otherwise the cell is revealed, a
/// bomb ends the game, and a zero starts a flood fill.
pub open spec fn open_cell(cells: Seq<Cell>, game_over: bool, rows: int, cols: int, i: int) -> (
    Seq<Cell>,
    bool,
) {
    if cells[i].status == Status::Flag {
        (cells, game_over)
    } else {
        let s1 = cells.update(i, revealed_cell(cells[i]));
        match cells[i].cell_type {
            CellType::Bomb => (s1, true),
            CellType::Number(v) => if v == 0 {
                (flood_opened(s1, rows, cols, i), game_over)
            } else {
                (s1, game_over)
            },
        }
    }
}

/// The cells and the game-over flag after opening, in order, each cell of
/// `js` that is not revealed by the time its turn comes.
pub open spec fn open_each(cells: Seq<Cell>, game_over: bool, rows: int, cols: int, js: Seq<int>) -> (
    Seq<Cell>,
    bool,
)
    decreases js.len(),
{
    if js.len() == 0 {
        (cells, game_over)
    } else {
        let prev = open_each(cells, game_over, rows, cols, js.drop_last());
        if prev.0[js.last()].status == Status::Revealed {
            prev
        } else {
            open_cell(prev.0, prev.1, rows, cols, js.last())
        }
    }
}

/// `b` comes from `a` by revealing some cells: same length, and each cell is
/// either unchanged or the same cell revealed.
pub open spec fn only_reveals(a: Seq<Cell>, b: Seq<Cell>) -> bool {
    &&& b.len() == a.len()
    &&& forall|j: int| 0 <= j < a.len() ==> #[trigger] b[j] == a[j] || b[j] == revealed_cell(a[j])
}

/// The message of an error result, or the value of a success.
pub open spec fn result_view<T>(r: Result<T, String>) -> Result<T, Seq<char>> {
    match r {
        Ok(v) => Ok(v),
        Err(e) => Err(e@),
    }
}

/// What revealing the cell at `i` answers: its number, or the message for
/// a bomb.
pub open spec fn number_or_bomb(t: CellType) -> Result<i32, Seq<char>> {
    match t {
        CellType::Number(v) => Ok(v),
        CellType::Bomb => Err("BOMB"@),
    }
}

/// What revealing a not yet revealed cell answers.
pub open spec fn open_result(c: Cell) -> Result<i32, Seq<char>> {
    if c.status == Status::Flag {
        Err("FLAGGED"@)
    } else {
        number_or_bomb(c.cell_type)
    }
}

/// The cells, the game-over flag and the answer after a reveal request for
/// index `i`:
/// * off the board: nothing changes, the answer is `"OUT_OF_BOUNDS"`;
/// * a revealed cell whose number (zero for a bomb) equals the count of
///   flags around it: its neighbors are opened in turn (chording); the
///   answer is the cell's number, or `"BOMB"`;
/// * any other revealed cell: nothing changes, same answer;
/// * a cell not yet revealed: it is opened (see [`open_cell`]); the answer is
///   its number, `"BOMB"`, or `"FLAGGED"` for a flagged cell.
pub open spec fn reveal_outcome(cells: Seq<Cell>, game_over: bool, rows: int, cols: int, i: int) -> (
    Seq<Cell>,
    bool,
    Result<i32, Seq<char>>,
) {
    if i < 0 || i >= cells.len() {
        (cells, game_over, Err("OUT_OF_BOUNDS"@))
    } else if cells[i].status == Status::Revealed {
        let nl = neighbor_list(rows, cols, i);
        let st = if type_number(cells[i].cell_type).unwrap_or(0) == count_flagged(cells, nl) {
            open_each(cells, game_over, rows, cols, nl)
        } else {
            (cells, game_over)
        };
        (st.0, st.1, number_or_bomb(cells[i].cell_type))
    } else {
        let st = open_cell(cells, game_over, rows, cols, i);
        (st.0, st.1, open_result(cells[i]))
    }
}

/// The cells and the answer after a request to cycle the mark of cell `i`:
/// off the board, `"OUT_OF_BOUNDS"`; on a revealed cell, `"REVEALED"`; in
/// both cases nothing changes. Otherwise the cell's status moves one step
/// along `Hidden -> Flag -> Question -> Hidden`.
pub open spec fn cycle_outcome(cells: Seq<Cell>, i: int) -> (Seq<Cell>, Result<(), Seq<char>>) {
    if i < 0 || i >= cells.len() {
        (cells, Err("OUT_OF_BOUNDS"@))
    } else if cells[i].status == Status::Revealed {
        (cells, Err("REVEALED"@))
    } else {
        (cells.update(i, cycled_cell(cells[i])), Ok(()))
    }
}

/// Every cell that holds no bomb is revealed.
pub open spec fn all_safe_revealed(cells: Seq<Cell>) -> bool {
    forall|i: int|
        0 <= i < cells.len() && !(#[trigger] cells[i].cell_type is Bomb) ==> cells[i].status
            == Status::Revealed
}

/// Revealing is transitive.
pub proof fn lemma_only_reveals_trans(a: Seq<Cell>, b: Seq<Cell>, c: Seq<Cell>)
    requires
        only_reveals(a, b),
        only_reveals(b, c),
    ensures
        only_reveals(a, c),
{
    assert forall|j: int| 0 <= j < a.len() implies #[trigger] c[j] == a[j] || c[j] == revealed_cell(
        a[j],
    ) by {
        assert(b[j] == a[j] || b[j] == revealed_cell(a[j]));
        assert(c[j] == b[j] || c[j] == revealed_cell(b[j]));
    }
}

/// A flood fill only reveals cells.
pub proof fn lemma_flood_only_reveals(cells: Seq<Cell>, rows: int, cols: int, start: int)
    ensures
        only_reveals(cells, flood_opened(cells, rows, cols, start)),
{
}

/// Opening one cell only reveals cells.
pub proof fn lemma_open_cell_only_reveals(
    cells: Seq<Cell>,
    game_over: bool,
    rows: int,
    cols: int,
    i: int,
)
    requires
        0 <= i < cells.len(),
    ensures
        only_reveals(cells, open_cell(cells, game_over, rows, cols, i).0),
{
    let s1 = cells.update(i, revealed_cell(cells[i]));
    assert(only_reveals(cells, s1));
    lemma_flood_only_reveals(s1, rows, cols, i);
    lemma_only_reveals_trans(cells, s1, flood_opened(s1, rows, cols, i));
}

/// Opening a list of on-board cells only reveals cells.
pub proof fn lemma_open_each_only_reveals(
    cells: Seq<Cell>,
    game_over: bool,
    rows: int,
    cols: int,
    js: Seq<int>,
)
    requires
        forall|k: int| 0 <= k < js.len() ==> 0 <= #[trigger] js[k] < cells.len(),
    ensures
        only_reveals(cells, open_each(cells, game_over, rows, cols, js).0),
    decreases js.len(),
{
    if js.len() > 0 {
        let t = js.drop_last();
        assert forall|k: int| 0 <= k < t.len() implies 0 <= #[trigger] t[k] < cells.len() by {
            assert(t[k] == js[k]);
        }
        lemma_open_each_only_reveals(cells, game_over, rows, cols, t);
        let prev = open_each(cells, game_over, rows, cols, t);
        assert(0 <= js[js.len() - 1] < cells.len());
        if prev.0[js.last()].status != Status::Revealed {
            lemma_open_cell_only_reveals(prev.0, prev.1, rows, cols, js.last());
            lemma_only_reveals_trans(cells, prev.0, open_cell(prev.0, prev.1, rows, cols, js.last()).0);
        }
    }
}

/// A flood path that starts in a set closed under flood steps ends in it.
pub proof fn lemma_flood_path_closed(
    cells: Seq<Cell>,
    rows: int,
    cols: int,
    p: Seq<int>,
    closed: Set<int>,
)
    requires
        is_flood_path(cells, rows, cols, p),
        closed.contains(p[0]),
        forall|u: int, v: int|
            #[trigger] closed.contains(u) && #[trigger] flood_step(cells, rows, cols, u, v)
                ==> closed.contains(v),
    ensures
        closed.contains(p.last()),
    decreases p.len(),
{
    if p.len() > 1 {
        let t = p.drop_last();
        assert forall|k: int| 0 <= k < t.len() - 1 implies #[trigger] flood_step(
            cells,
            rows,
            cols,
            t[k],
            t[k + 1],
        ) by {
            assert(flood_step(cells, rows, cols, p[k], p[k + 1]));
        }
        lemma_flood_path_closed(cells, rows, cols, t, closed);
        let k = p.len() - 2;
        assert(flood_step(cells, rows, cols, p[k], p[k + 1]));
        assert(t.last() == p[k]);
    }
}

/// A flood path followed by one more flood step is a flood path.
pub proof fn lemma_flood_path_extend(cells: Seq<Cell>, rows: int, cols: int, p: Seq<int>, v: int)
    requires
        is_flood_path(cells, rows, cols, p),
        flood_step(cells, rows, cols, p.last(), v),
    ensures
        is_flood_path(cells, rows, cols, p.push(v)),
        p.push(v)[0] == p[0],
        p.push(v).last() == v,
{
    let q = p.push(v);
    assert forall|k: int| 0 <= k < q.len() - 1 implies #[trigger] flood_step(
        cells,
        rows,
        cols,
        q[k],
        q[k + 1],
    ) by {
        if k < p.len() - 1 {
            assert(flood_step(cells, rows, cols, p[k], p[k + 1]));
        }
    }
}

/// The cells of a board of the given size as (row, column) pairs, row by
/// row.
pub open spec fn row_major_cells(size: (usize, usize)) -> Seq<(usize, usize)> {
    Seq::new(
        (size.0 * size.1) as nat,
        |k: int| ((k / size.1 as int) as usize, (k % size.1 as int) as usize),
    )
}

/// `s` with the element at `k` replaced by the last element, and the last
/// position dropped.
pub open spec fn swap_removed<A>(s: Seq<A>, k: int) -> Seq<A> {
    s.update(k, s.last()).drop_last()
}

/// What a sequence of draws picks from the list `free`: the first draw picks
/// the element at its position, which is swap-removed; the remaining draws
/// pick from what is left.
pub open spec fn picks_from(free: Seq<(usize, usize)>, draws: Seq<usize>) -> Seq<(usize, usize)>
    decreases draws.len(),
{
    if draws.len() == 0 {
        Seq::empty()
    } else {
        seq![free[draws[0] as int]] + picks_from(swap_removed(free, draws[0] as int), draws.drop_first())
    }
}

/// The coordinates that the draws pick from the cells of a board listed row
/// by row.
pub open spec fn picks(size: (usize, usize), draws: Seq<usize>) -> Seq<(usize, usize)> {
    picks_from(row_major_cells(size), draws)
}

/// Each draw is a position in the list of cells still free when it is made:
/// the `i`-th draw is below the number of cells minus `i`.
pub open spec fn draws_fit(size: (usize, usize), draws: Seq<usize>) -> bool {
    forall|i: int| 0 <= i < draws.len() ==> #[trigger] draws[i] < size.0 * size.1 - i
}

/// Picking from a list of distinct cells, with each draw inside the list
/// left at its turn, gives one cell per draw, all taken from the list and
/// all different.
pub proof fn lemma_picks_from_distinct(free: Seq<(usize, usize)>, draws: Seq<usize>)
    requires
        forall|a: int, b: int| 0 <= a < free.len() && 0 <= b < free.len() && a != b ==> free[a] != free[b],
        forall|i: int| 0 <= i < draws.len() ==> #[trigger] draws[i] < free.len() - i,
    ensures
        picks_from(free, draws).len() == draws.len(),
        forall|k: int| 0 <= k < picks_from(free, draws).len() ==> free.contains(#[trigger] picks_from(free, draws)[k]),
        forall|a: int, b: int|
            0 <= a < picks_from(free, draws).len() && 0 <= b < picks_from(free, draws).len() && a != b
                ==> picks_from(free, draws)[a] != picks_from(free, draws)[b],
    decreases draws.len(),
{
    if draws.len() > 0 {
        let k = draws[0] as int;
        assert(draws[0] < free.len() - 0);
        let rest = swap_removed(free, k);
        let d2 = draws.drop_first();
        assert forall|a: int, b: int| 0 <= a < rest.len() && 0 <= b < rest.len() && a != b implies rest[a] != rest[b] by {
            let ia = if a == k { free.len() - 1 } else { a };
            let ib = if b == k { free.len() - 1 } else { b };
            assert(rest[a] == free[ia]);
            assert(rest[b] == free[ib]);
        }
        assert forall|i: int| 0 <= i < d2.len() implies #[trigger] d2[i] < rest.len() - i by {
            assert(d2[i] == draws[i + 1]);
            assert(draws[i + 1] < free.len() - (i + 1));
        }
        lemma_picks_from_distinct(rest, d2);
        let tail = picks_from(rest, d2);
        let all = picks_from(free, draws);
        assert(all == seq![free[k]] + tail);
        assert forall|j: int| 0 <= j < rest.len() implies rest[j] != free[k] && free.contains(rest[j]) by {
            let ij = if j == k { free.len() - 1 } else { j };
            assert(rest[j] == free[ij]);
            assert(ij != k);
        }
        assert forall|q: int| 0 <= q < all.len() implies free.contains(#[trigger] all[q]) by {
            if q == 0 {
                assert(all[0] == free[k]);
            } else {
                assert(all[q] == tail[q - 1]);
                assert(rest.contains(tail[q - 1]));
                let j = choose|j: int| 0 <= j < rest.len() && rest[j] == tail[q - 1];
            }
        }
        assert forall|a: int, b: int| 0 <= a < all.len() && 0 <= b < all.len() && a != b implies all[a] != all[b] by {
            if a == 0 && b > 0 {
                assert(all[b] == tail[b - 1]);
                assert(rest.contains(tail[b - 1]));
                let j = choose|j: int| 0 <= j < rest.len() && rest[j] == tail[b - 1];
            } else if b == 0 && a > 0 {
                assert(all[a] == tail[a - 1]);
                assert(rest.contains(tail[a - 1]));
                let j = choose|j: int| 0 <= j < rest.len() && rest[j] == tail[a - 1];
            } else if a > 0 && b > 0 {
                assert(all[a] == tail[a - 1]);
                assert(all[b] == tail[b - 1]);
            }
        }
    }
}

/// Any list of different elements of a list of distinct cells is what some
/// draws pick: the draws that take, at each turn, the position of the next
/// wanted element among those still free.
pub proof fn lemma_draws_for(free: Seq<(usize, usize)>, target: Seq<(usize, usize)>) -> (draws: Seq<usize>)
    requires
        free.len() <= usize::MAX,
        forall|a: int, b: int| 0 <= a < free.len() && 0 <= b < free.len() && a != b ==> free[a] != free[b],
        forall|a: int, b: int| 0 <= a < target.len() && 0 <= b < target.len() && a != b ==> target[a] != target[b],
        forall|k: int| 0 <= k < target.len() ==> free.contains(#[trigger] target[k]),
    ensures
        draws.len() == target.len(),
        forall|i: int| 0 <= i < draws.len() ==> #[trigger] draws[i] < free.len() - i,
        picks_from(free, draws) == target,
    decreases target.len(),
{
    if target.len() == 0 {
        let d = Seq::<usize>::empty();
        assert(picks_from(free, d) =~= target);
        d
    } else {
        assert(free.contains(target[0]));
        let k = choose|k: int| 0 <= k < free.len() && free[k] == target[0];
        let rest = swap_removed(free, k);
        let t2 = target.drop_first();
        assert forall|a: int, b: int| 0 <= a < rest.len() && 0 <= b < rest.len() && a != b implies rest[a] != rest[b] by {
            let ia = if a == k { free.len() - 1 } else { a };
            let ib = if b == k { free.len() - 1 } else { b };
            assert(rest[a] == free[ia]);
            assert(rest[b] == free[ib]);
        }
        assert forall|a: int, b: int| 0 <= a < t2.len() && 0 <= b < t2.len() && a != b implies t2[a] != t2[b] by {
            assert(t2[a] == target[a + 1]);
            assert(t2[b] == target[b + 1]);
        }
        assert forall|q: int| 0 <= q < t2.len() implies rest.contains(#[trigger] t2[q]) by {
            assert(t2[q] == target[q + 1]);
            assert(target[q + 1] != target[0]);
            assert(free.contains(target[q + 1]));
            let j = choose|j: int| 0 <= j < free.len() && free[j] == target[q + 1];
            assert(j != k);
            if j == free.len() - 1 {
                assert(rest[k] == free[j]);
            } else {
                assert(rest[j] == free[j]);
            }
        }
        let d2 = lemma_draws_for(rest, t2);
        let d = seq![k as usize] + d2;
        assert(d.drop_first() =~= d2);
        assert forall|i: int| 0 <= i < d.len() implies #[trigger] d[i] < free.len() - i by {
            if i > 0 {
                assert(d[i] == d2[i - 1]);
            }
        }
        assert(picks_from(free, d) == seq![free[k]] + picks_from(rest, d2));
        assert(picks_from(free, d) =~= target);
        d
    }
}

/// Draws that fit give one coordinate per draw, all on the board and all
/// different.
pub proof fn lemma_picks_distinct_on_board(size: (usize, usize), draws: Seq<usize>)
    requires
        size.0 * size.1 <= usize::MAX,
        draws_fit(size, draws),
    ensures
        picks(size, draws).len() == draws.len(),
        forall|k: int|
            0 <= k < picks(size, draws).len() ==> (#[trigger] picks(size, draws)[k]).0 < size.0
                && picks(size, draws)[k].1 < size.1,
        forall|a: int, b: int|
            0 <= a < picks(size, draws).len() && 0 <= b < picks(size, draws).len() && a != b
                ==> picks(size, draws)[a] != picks(size, draws)[b],
{
    let free = row_major_cells(size);
    lemma_row_major_cells(size);
    assert forall|i: int| 0 <= i < draws.len() implies #[trigger] draws[i] < free.len() - i by {
        assert(draws[i] < size.0 * size.1 - i);
    }
    lemma_picks_from_distinct(free, draws);
    let p = picks(size, draws);
    assert forall|k: int| 0 <= k < p.len() implies (#[trigger] p[k]).0 < size.0 && p[k].1 < size.1 by {
        assert(free.contains(p[k]));
        let j = choose|j: int| 0 <= j < free.len() && free[j] == p[k];
    }
}

/// The listed cells lie on the board and are all different.
pub proof fn lemma_row_major_cells(size: (usize, usize))
    requires
        size.0 * size.1 <= usize::MAX,
    ensures
        forall|k: int|
            0 <= k < row_major_cells(size).len() ==> (#[trigger] row_major_cells(size)[k]).0 < size.0
                && row_major_cells(size)[k].1 < size.1,
        forall|a: int, b: int|
            0 <= a < row_major_cells(size).len() && 0 <= b < row_major_cells(size).len() && a != b
                ==> row_major_cells(size)[a] != row_major_cells(size)[b],
{
    let rows = size.0 as int;
    let cols = size.1 as int;
    let cells = row_major_cells(size);
    assert forall|k: int| 0 <= k < cells.len() implies (#[trigger] cells[k]).0 < size.0 && cells[k].1
        < size.1 by {
        assert(cols > 0) by (nonlinear_arith)
            requires
                0 <= k < rows * cols,
                0 <= rows,
                0 <= cols,
        ;
        lemma_split_index(cols, k);
        lemma_row_major_order(cols, k / cols, k % cols, rows, 0);
    }
    assert forall|a: int, b: int|
        0 <= a < cells.len() && 0 <= b < cells.len() && a != b implies cells[a] != cells[b] by {
        assert(cols > 0) by (nonlinear_arith)
            requires
                0 <= a < rows * cols,
                0 <= rows,
                0 <= cols,
        ;
        lemma_split_index(cols, a);
        lemma_split_index(cols, b);
        lemma_row_major_order(cols, a / cols, a % cols, rows, 0);
        lemma_row_major_order(cols, b / cols, b % cols, rows, 0);
    }
}

/// What `Board::from_bomb_coords(size, coords)` promises of its cells.
pub open spec fn built_from(cells: Seq<Cell>, size: (usize, usize), coords: Seq<(usize, usize)>) -> bool {
    &&& cells.len() == size.0 * size.1
    &&& forall|i: int| 0 <= i < cells.len() ==> (#[trigger] cells[i]).status == Status::Hidden
    &&& forall|i: int|
        0 <= i < cells.len() ==> ((#[trigger] cells[i]).cell_type is Bomb <==> bomb_listed(size, coords, i))
    &&& numbers_consistent(cells, size.0 as int, size.1 as int)
}

/// A count never exceeds the number of indices counted.
pub proof fn lemma_counts_bounded(cells: Seq<Cell>, js: Seq<int>)
    ensures
        count_flagged(cells, js) <= js.len(),
        count_bombs(cells, js) <= js.len(),
    decreases js.len(),
{
    if js.len() > 0 {
        lemma_counts_bounded(cells, js.drop_last());
    }
}

/// The bomb count reads only where the bombs are.
pub proof fn lemma_count_bombs_same(c1: Seq<Cell>, c2: Seq<Cell>, js: Seq<int>)
    requires
        forall|k: int|
            0 <= k < js.len() ==> (#[trigger] c1[js[k]].cell_type is Bomb) == (
            c2[js[k]].cell_type is Bomb),
    ensures
        count_bombs(c1, js) == count_bombs(c2, js),
    decreases js.len(),
{
    if js.len() > 0 {
        let t = js.drop_last();
        assert forall|k: int| 0 <= k < t.len() implies (#[trigger] c1[t[k]].cell_type is Bomb) == (
        c2[t[k]].cell_type is Bomb) by {
            assert(t[k] == js[k]);
        }
        lemma_count_bombs_same(c1, c2, t);
        assert(c1[js[js.len() - 1]].cell_type is Bomb == c2[js[js.len() - 1]].cell_type is Bomb);
    }
}

/// No bomb is counted at all only when none of the indices holds a bomb.
pub proof fn lemma_zero_bombs(cells: Seq<Cell>, js: Seq<int>, k: int)
    requires
        count_bombs(cells, js) == 0,
        0 <= k < js.len(),
    ensures
        !(cells[js[k]].cell_type is Bomb),
    decreases js.len(),
{
    if k < js.len() - 1 {
        assert(js.drop_last()[k] == js[k]);
        lemma_zero_bombs(cells, js.drop_last(), k);
    }
}

} // verus!
