//! Properties of the game that span several requests or hold of every
//! state, proved over the specifications that the board operations meet.

use vstd::prelude::*;

use crate::cells::{Cell, CellType, Status, revealed_cell, type_number};
use crate::grid::{
    is_neighbor, neighbor_list, lemma_neighbor_list_members, lemma_row_major_order,
    lemma_at_most_eight_neighbors, lemma_index_row_col,
};
use crate::rules::{
    flood_step, is_flood_path, flood_reaches, flood_opened, open_cell, open_each, only_reveals,
    reveal_outcome, cycle_outcome, numbers_consistent, count_bombs, count_flagged, bomb_listed,
    all_safe_revealed, lemma_open_cell_only_reveals, lemma_open_each_only_reveals,
    lemma_zero_bombs, lemma_flood_path_extend, can_open, lemma_count_bombs_same, built_from, picks, draws_fit,
    lemma_picks_distinct_on_board, lemma_only_reveals_trans, lemma_counts_bounded, row_major_cells,
    lemma_row_major_cells, lemma_draws_for,
};

verus! {

/// Opening one cell leaves flagged cells as they are and never clears the
/// game-over flag.
proof fn lemma_open_cell_keeps_flags(
    cells: Seq<Cell>,
    game_over: bool,
    rows: int,
    cols: int,
    i: int,
)
    requires
        0 <= i < cells.len(),
    ensures
        forall|j: int|
            0 <= j < cells.len() && cells[j].status == Status::Flag ==> #[trigger] open_cell(
                cells,
                game_over,
                rows,
                cols,
                i,
            ).0[j] == cells[j],
        game_over ==> open_cell(cells, game_over, rows, cols, i).1,
{
    if cells[i].status != Status::Flag {
        let s1 = cells.update(i, revealed_cell(cells[i]));
        assert forall|j: int|
            0 <= j < cells.len() && cells[j].status == Status::Flag implies #[trigger] flood_opened(
                s1,
                rows,
                cols,
                i,
            )[j] == s1[j] by {
            if flood_reaches(s1, rows, cols, i, j) {
                let p = choose|p: Seq<int>|
                    #[trigger] is_flood_path(s1, rows, cols, p) && p[0] == i && p.last() == j;
                if p.len() > 1 {
                    let k = p.len() - 2;
                    assert(flood_step(s1, rows, cols, p[k], p[k + 1]));
                }
            }
        }
    }
}

/// Opening a list of cells leaves flagged cells as they are and never clears
/// the game-over flag.
proof fn lemma_open_each_keeps_flags(
    cells: Seq<Cell>,
    game_over: bool,
    rows: int,
    cols: int,
    js: Seq<int>,
)
    requires
        forall|k: int| 0 <= k < js.len() ==> 0 <= #[trigger] js[k] < cells.len(),
    ensures
        forall|j: int|
            0 <= j < cells.len() && cells[j].status == Status::Flag ==> #[trigger] open_each(
                cells,
                game_over,
                rows,
                cols,
                js,
            ).0[j] == cells[j],
        game_over ==> open_each(cells, game_over, rows, cols, js).1,
    decreases js.len(),
{
    if js.len() > 0 {
        let t = js.drop_last();
        assert forall|k: int| 0 <= k < t.len() implies 0 <= #[trigger] t[k] < cells.len() by {
            assert(t[k] == js[k]);
        }
        lemma_open_each_keeps_flags(cells, game_over, rows, cols, t);
        lemma_open_each_only_reveals(cells, game_over, rows, cols, t);
        let prev = open_each(cells, game_over, rows, cols, t);
        assert(0 <= js[js.len() - 1] < cells.len());
        if prev.0[js.last()].status != Status::Revealed {
            lemma_open_cell_keeps_flags(prev.0, prev.1, rows, cols, js.last());
            assert forall|j: int| 0 <= j < cells.len() && cells[j].status == Status::Flag implies #[trigger] open_each(
                cells,
                game_over,
                rows,
                cols,
                js,
            ).0[j] == cells[j] by {
                assert(prev.0[j] == cells[j]);
            }
        }
    }
}

/// A reveal request only reveals: every cell keeps its content, and its
/// status either stays or becomes revealed. In particular a revealed cell
/// never becomes hidden again, and the numbers on the board never change.
pub proof fn law_reveal_only_reveals(cells: Seq<Cell>, game_over: bool, rows: int, cols: int, i: int)
    requires
        0 <= rows,
        0 <= cols,
        cells.len() == rows * cols,
    ensures
        only_reveals(cells, reveal_outcome(cells, game_over, rows, cols, i).0),
{
    if 0 <= i < cells.len() {
        if cells[i].status == Status::Revealed {
            lemma_neighbor_list_members(rows, cols, i);
            let nl = neighbor_list(rows, cols, i);
            assert forall|k: int| 0 <= k < nl.len() implies 0 <= #[trigger] nl[k] < cells.len() by {
                assert(is_neighbor(rows, cols, i, nl[k]));
            }
            lemma_open_each_only_reveals(cells, game_over, rows, cols, nl);
        } else {
            lemma_open_cell_only_reveals(cells, game_over, rows, cols, i);
        }
    }
}

/// A flagged cell is never revealed, by a direct request, by chording, or by
/// a flood fill: flags protect cells until they are unflagged. Also, once
/// the game is over it stays over.
pub proof fn law_flags_protect(cells: Seq<Cell>, game_over: bool, rows: int, cols: int, i: int)
    requires
        0 <= rows,
        0 <= cols,
        cells.len() == rows * cols,
    ensures
        forall|j: int|
            0 <= j < cells.len() && cells[j].status == Status::Flag ==> #[trigger] reveal_outcome(
                cells,
                game_over,
                rows,
                cols,
                i,
            ).0[j] == cells[j],
        game_over ==> reveal_outcome(cells, game_over, rows, cols, i).1,
{
    if 0 <= i < cells.len() {
        if cells[i].status == Status::Revealed {
            lemma_neighbor_list_members(rows, cols, i);
            let nl = neighbor_list(rows, cols, i);
            assert forall|k: int| 0 <= k < nl.len() implies 0 <= #[trigger] nl[k] < cells.len() by {
                assert(is_neighbor(rows, cols, i, nl[k]));
            }
            lemma_open_each_keeps_flags(cells, game_over, rows, cols, nl);
        } else {
            lemma_open_cell_keeps_flags(cells, game_over, rows, cols, i);
        }
    }
}

/// Three mark-cycling requests on a cell that is not revealed give the board
/// back as it was; on a revealed cell or off the board each request changes
/// nothing.
pub proof fn law_cycle_three_times(cells: Seq<Cell>, i: int)
    ensures
        cycle_outcome(cycle_outcome(cycle_outcome(cells, i).0, i).0, i).0 == cells,
{
    if 0 <= i < cells.len() && cells[i].status != Status::Revealed {
        let c1 = cycle_outcome(cells, i).0;
        let c2 = cycle_outcome(c1, i).0;
        let c3 = cycle_outcome(c2, i).0;
        assert(c3 =~= cells);
    }
}

/// No zero cell has a bomb among its neighbors. Every consistent board has
/// this property.
pub open spec fn zeros_clear(cells: Seq<Cell>, rows: int, cols: int) -> bool {
    forall|u: int, j: int|
        0 <= u < cells.len() && #[trigger] cells[u].cell_type == CellType::Number(0)
            && #[trigger] is_neighbor(rows, cols, u, j) ==> !(cells[j].cell_type is Bomb)
}

/// A consistent board has no zero next to a bomb.
pub proof fn law_consistent_zeros_clear(cells: Seq<Cell>, rows: int, cols: int)
    requires
        0 <= rows,
        0 <= cols,
        numbers_consistent(cells, rows, cols),
    ensures
        zeros_clear(cells, rows, cols),
{
    assert forall|u: int, j: int|
        0 <= u < cells.len() && #[trigger] cells[u].cell_type == CellType::Number(0)
            && #[trigger] is_neighbor(rows, cols, u, j) implies !(cells[j].cell_type is Bomb) by {
        lemma_neighbor_list_members(rows, cols, u);
        let nl = neighbor_list(rows, cols, u);
        assert(nl.contains(j));
        let q = choose|q: int| 0 <= q < nl.len() && nl[q] == j;
        assert(count_bombs(cells, nl) == 0);
        lemma_zero_bombs(cells, nl, q);
    }
}

/// Revealing cells keeps "no zero next to a bomb": contents never move.
proof fn lemma_zeros_clear_only_reveals(a: Seq<Cell>, b: Seq<Cell>, rows: int, cols: int)
    requires
        zeros_clear(a, rows, cols),
        only_reveals(a, b),
        a.len() == rows * cols,
    ensures
        zeros_clear(b, rows, cols),
{
    assert forall|u: int, j: int|
        0 <= u < b.len() && #[trigger] b[u].cell_type == CellType::Number(0)
            && #[trigger] is_neighbor(rows, cols, u, j) implies !(b[j].cell_type is Bomb) by {
        assert(b[u] == a[u] || b[u] == revealed_cell(a[u]));
        assert(a[u].cell_type == CellType::Number(0));
        assert(b[j] == a[j] || b[j] == revealed_cell(a[j]));
    }
}

/// Opening a cell without a bomb, on a board with no zero next to a bomb,
/// keeps the game going and uncovers no bomb.
proof fn lemma_open_safe_cell(cells: Seq<Cell>, game_over: bool, rows: int, cols: int, i: int)
    requires
        cells.len() == rows * cols,
        zeros_clear(cells, rows, cols),
        0 <= i < cells.len(),
        cells[i].status != Status::Revealed,
        !(cells[i].cell_type is Bomb),
    ensures
        open_cell(cells, game_over, rows, cols, i).1 == game_over,
        forall|j: int|
            0 <= j < cells.len() && (cells[j].cell_type is Bomb) ==> #[trigger] open_cell(
                cells,
                game_over,
                rows,
                cols,
                i,
            ).0[j] == cells[j],
{
    if cells[i].status != Status::Flag {
        let s1 = cells.update(i, revealed_cell(cells[i]));
        assert forall|j: int|
            0 <= j < cells.len() && (cells[j].cell_type is Bomb) implies #[trigger] flood_opened(
                s1,
                rows,
                cols,
                i,
            )[j] == s1[j] by {
            if flood_reaches(s1, rows, cols, i, j) {
                let p = choose|p: Seq<int>|
                    #[trigger] is_flood_path(s1, rows, cols, p) && p[0] == i && p.last() == j;
                if p.len() > 1 {
                    let k = p.len() - 2;
                    assert(flood_step(s1, rows, cols, p[k], p[k + 1]));
                    let u = p[k];
                    assert(0 <= u < cells.len()) by {
                        if u != i {
                            assert(is_neighbor(rows, cols, p[k - 1], p[k])) by {
                                assert(flood_step(s1, rows, cols, p[k - 1], p[(k - 1) + 1]));
                            }
                        }
                    }
                    assert(cells[u].cell_type == CellType::Number(0));
                    assert(is_neighbor(rows, cols, u, j));
                }
            }
        }
    }
}

/// On a board with no zero next to a bomb (every consistent board), revealing
/// a cell that holds no bomb never ends the game and never uncovers a bomb:
/// the flood fill from a zero stops at the numbers that border the zeroes.
pub proof fn law_safe_reveal_is_safe(cells: Seq<Cell>, game_over: bool, rows: int, cols: int, i: int)
    requires
        0 <= rows,
        0 <= cols,
        cells.len() == rows * cols,
        zeros_clear(cells, rows, cols),
        0 <= i < cells.len(),
        cells[i].status != Status::Revealed,
        !(cells[i].cell_type is Bomb),
    ensures
        reveal_outcome(cells, game_over, rows, cols, i).1 == game_over,
        forall|j: int|
            0 <= j < cells.len() && (cells[j].cell_type is Bomb) ==> #[trigger] reveal_outcome(
                cells,
                game_over,
                rows,
                cols,
                i,
            ).0[j] == cells[j],
{
    lemma_open_safe_cell(cells, game_over, rows, cols, i);
}

/// Revealing keeps a consistent board consistent: the numbers and the bombs
/// never move.
pub proof fn law_reveal_keeps_numbers_consistent(cells: Seq<Cell>, revealed: Seq<Cell>, rows: int, cols: int)
    requires
        0 <= rows,
        0 <= cols,
        cells.len() == rows * cols,
        numbers_consistent(cells, rows, cols),
        only_reveals(cells, revealed),
    ensures
        numbers_consistent(revealed, rows, cols),
{
    assert forall|i: int| 0 <= i < revealed.len() implies match #[trigger] revealed[i].cell_type {
        CellType::Number(v) => v == count_bombs(revealed, neighbor_list(rows, cols, i)),
        CellType::Bomb => true,
    } by {
        let nl = neighbor_list(rows, cols, i);
        lemma_neighbor_list_members(rows, cols, i);
        assert(revealed[i].cell_type == cells[i].cell_type);
        assert forall|k: int| 0 <= k < nl.len() implies (#[trigger] cells[nl[k]].cell_type is Bomb) == (
            revealed[nl[k]].cell_type is Bomb) by {
            assert(is_neighbor(rows, cols, i, nl[k]));
            assert(revealed[nl[k]] == cells[nl[k]] || revealed[nl[k]] == revealed_cell(cells[nl[k]]));
        }
        lemma_count_bombs_same(cells, revealed, nl);
    }
}

/// Where every flag marks a bomb, the flags never outnumber the bombs, and
/// equal counts mean every bomb is flagged.
proof fn lemma_correct_flags(cells: Seq<Cell>, js: Seq<int>)
    requires
        forall|k: int|
            0 <= k < js.len() && #[trigger] cells[js[k]].status == Status::Flag ==> cells[js[k]].cell_type is Bomb,
    ensures
        count_flagged(cells, js) <= count_bombs(cells, js),
        count_flagged(cells, js) == count_bombs(cells, js) ==> forall|k: int|
            0 <= k < js.len() && (#[trigger] cells[js[k]].cell_type is Bomb) ==> cells[js[k]].status
                == Status::Flag,
    decreases js.len(),
{
    if js.len() > 0 {
        let t = js.drop_last();
        assert forall|k: int|
            0 <= k < t.len() && #[trigger] cells[t[k]].status == Status::Flag implies cells[t[k]].cell_type is Bomb by {
            assert(t[k] == js[k]);
        }
        lemma_correct_flags(cells, t);
        let last = js.len() - 1;
        if cells[js[last]].status == Status::Flag {
            assert(cells[js[last]].cell_type is Bomb);
        }
        if count_flagged(cells, js) == count_bombs(cells, js) {
            assert forall|k: int|
                0 <= k < js.len() && (#[trigger] cells[js[k]].cell_type is Bomb) implies cells[js[k]].status
                    == Status::Flag by {
                if k < last {
                    assert(t[k] == js[k]);
                }
            }
        }
    }
}

/// Chording on a revealed number whose flags around it all mark bombs is
/// safe on a consistent board: when the flag count matches the number, every
/// other neighbor holds no bomb, so the game goes on and no bomb is
/// uncovered.
pub proof fn law_chord_with_correct_flags_is_safe(
    cells: Seq<Cell>,
    game_over: bool,
    rows: int,
    cols: int,
    i: int,
)
    requires
        0 <= rows,
        0 <= cols,
        cells.len() == rows * cols,
        numbers_consistent(cells, rows, cols),
        0 <= i < cells.len(),
        cells[i].status == Status::Revealed,
        cells[i].cell_type is Number,
        forall|j: int|
            is_neighbor(rows, cols, i, j) && #[trigger] cells[j].status == Status::Flag
                ==> cells[j].cell_type is Bomb,
    ensures
        reveal_outcome(cells, game_over, rows, cols, i).1 == game_over,
        forall|j: int|
            0 <= j < cells.len() && (cells[j].cell_type is Bomb) ==> #[trigger] reveal_outcome(
                cells,
                game_over,
                rows,
                cols,
                i,
            ).0[j] == cells[j],
{
    let nl = neighbor_list(rows, cols, i);
    lemma_neighbor_list_members(rows, cols, i);
    assert forall|k: int| 0 <= k < nl.len() implies 0 <= #[trigger] nl[k] < cells.len() by {
        assert(is_neighbor(rows, cols, i, nl[k]));
    }
    if type_number(cells[i].cell_type).unwrap_or(0) == count_flagged(cells, nl) {
        assert forall|k: int|
            0 <= k < nl.len() && #[trigger] cells[nl[k]].status == Status::Flag implies cells[nl[k]].cell_type is Bomb by {
            assert(is_neighbor(rows, cols, i, nl[k]));
        }
        lemma_correct_flags(cells, nl);
        lemma_chord_prefix_safe(cells, game_over, rows, cols, nl, nl.len() as int);
        assert(nl.take(nl.len() as int) =~= nl);
    }
}

/// Opening, in turn, cells none of which holds an unflagged bomb keeps a
/// consistent board's game going and its bombs covered.
proof fn lemma_chord_prefix_safe(
    cells: Seq<Cell>,
    game_over: bool,
    rows: int,
    cols: int,
    nl: Seq<int>,
    m: int,
)
    requires
        0 <= rows,
        0 <= cols,
        cells.len() == rows * cols,
        numbers_consistent(cells, rows, cols),
        0 <= m <= nl.len(),
        forall|k: int| 0 <= k < nl.len() ==> 0 <= #[trigger] nl[k] < cells.len(),
        forall|k: int|
            0 <= k < nl.len() && (#[trigger] cells[nl[k]].cell_type is Bomb) ==> cells[nl[k]].status
                == Status::Flag,
    ensures
        only_reveals(cells, open_each(cells, game_over, rows, cols, nl.take(m)).0),
        open_each(cells, game_over, rows, cols, nl.take(m)).1 == game_over,
        forall|j: int|
            0 <= j < cells.len() && (cells[j].cell_type is Bomb) ==> #[trigger] open_each(
                cells,
                game_over,
                rows,
                cols,
                nl.take(m),
            ).0[j] == cells[j],
    decreases m,
{
    let js = nl.take(m);
    if m == 0 {
        assert(only_reveals(cells, cells));
    } else {
        lemma_chord_prefix_safe(cells, game_over, rows, cols, nl, m - 1);
        assert(js.drop_last() =~= nl.take(m - 1));
        let prev = open_each(cells, game_over, rows, cols, nl.take(m - 1));
        let j = nl[m - 1];
        assert(js.last() == j);
        if prev.0[j].status != Status::Revealed {
            law_consistent_zeros_clear(cells, rows, cols);
            lemma_zeros_clear_only_reveals(cells, prev.0, rows, cols);
            if prev.0[j].status != Status::Flag {
                assert(prev.0[j] == cells[j]);
                assert(!(cells[j].cell_type is Bomb));
                lemma_open_safe_cell(prev.0, prev.1, rows, cols, j);
            }
            lemma_open_cell_only_reveals(prev.0, prev.1, rows, cols, j);
            lemma_only_reveals_trans(cells, prev.0, open_cell(prev.0, prev.1, rows, cols, j).0);
            assert forall|q: int| 0 <= q < cells.len() && (cells[q].cell_type is Bomb) implies #[trigger] open_each(
                cells,
                game_over,
                rows,
                cols,
                js,
            ).0[q] == cells[q] by {
                assert(prev.0[q] == cells[q]);
                assert(prev.0[q].cell_type is Bomb);
            }
        }
    }
}

/// The cells that hold a bomb.
pub open spec fn bomb_cells(cells: Seq<Cell>) -> Set<int> {
    Set::new(|i: int| 0 <= i < cells.len() && cells[i].cell_type is Bomb)
}

/// A board built from distinct on-board coordinates holds exactly as many
/// bombs as there are coordinates; with the coordinates that
/// `Board::random_bomb_coords` draws, that is the number of bombs asked for.
pub proof fn law_bomb_count_matches_coords(
    size: (usize, usize),
    coords: Seq<(usize, usize)>,
    cells: Seq<Cell>,
)
    requires
        cells.len() == size.0 * size.1,
        forall|k: int| 0 <= k < coords.len() ==> (#[trigger] coords[k]).0 < size.0 && coords[k].1 < size.1,
        forall|a: int, b: int| 0 <= a < coords.len() && 0 <= b < coords.len() && a != b ==> coords[a] != coords[b],
        forall|i: int| 0 <= i < cells.len() ==> ((#[trigger] cells[i]).cell_type is Bomb <==> bomb_listed(size, coords, i)),
    ensures
        bomb_cells(cells).finite(),
        bomb_cells(cells).len() == coords.len(),
{
    let cols = size.1 as int;
    let rows = size.0 as int;
    let m = coords.map_values(|rc: (usize, usize)| rc.0 * size.1 + rc.1);
    assert forall|k: int| 0 <= k < coords.len() implies 0 <= #[trigger] m[k] < cells.len() by {
        lemma_row_major_order(cols, coords[k].0 as int, coords[k].1 as int, rows, 0);
    }
    assert forall|a: int, b: int| 0 <= a < m.len() && 0 <= b < m.len() && a != b implies m[a] != m[b] by {
        lemma_row_major_order(cols, coords[a].0 as int, coords[a].1 as int, coords[b].0 as int, coords[b].1 as int);
        lemma_row_major_order(cols, coords[b].0 as int, coords[b].1 as int, coords[a].0 as int, coords[a].1 as int);
        assert(coords[a] != coords[b]);
    }
    assert(m.no_duplicates());
    m.unique_seq_to_set();
    assert forall|i: int| #[trigger] bomb_cells(cells).contains(i) <==> m.to_set().contains(i) by {
        if bomb_cells(cells).contains(i) {
            assert(cells[i].cell_type is Bomb);
            let k = choose|k: int|
                0 <= k < coords.len() && #[trigger] coords[k].0 < size.0 && coords[k].1 < size.1
                    && coords[k].0 * size.1 + coords[k].1 == i;
            assert(m[k] == i);
        }
        if m.to_set().contains(i) {
            let k = choose|k: int| 0 <= k < m.len() && m[k] == i;
            assert(coords[k].0 < size.0 && coords[k].1 < size.1);
            assert(bomb_listed(size, coords, i));
            assert(0 <= i < cells.len());
            assert(cells[i].cell_type is Bomb);
        }
    }
    assert(bomb_cells(cells) =~= m.to_set());
    m.lemma_cardinality_of_set();
}

/// Some bomb is revealed.
pub open spec fn bomb_shown(cells: Seq<Cell>) -> bool {
    exists|j: int|
        0 <= j < cells.len() && (#[trigger] cells[j]).cell_type is Bomb && cells[j].status
            == Status::Revealed
}

/// The game is over exactly when a bomb is showing.
pub open spec fn over_iff_bomb_shown(cells: Seq<Cell>, game_over: bool) -> bool {
    game_over == bomb_shown(cells)
}

/// Going from (`s`, `g`) to (`s2`, `g2`), the game-over flag and "a bomb
/// shows" gain the same thing: for one truth value `x`, the flag becomes
/// `g || x` and "a bomb shows" becomes its old value `|| x`.
pub open spec fn bombs_follow(s: Seq<Cell>, g: bool, s2: Seq<Cell>, g2: bool) -> bool {
    exists|x: bool| #[trigger] same_gain(g, g2, bomb_shown(s), bomb_shown(s2), x)
}

/// `g2` is `g || x` and `b2` is `b || x`.
pub open spec fn same_gain(g: bool, g2: bool, b: bool, b2: bool, x: bool) -> bool {
    g2 == (g || x) && b2 == (b || x)
}

proof fn lemma_bombs_follow_trans(
    s1: Seq<Cell>,
    g1: bool,
    s2: Seq<Cell>,
    g2: bool,
    s3: Seq<Cell>,
    g3: bool,
)
    requires
        bombs_follow(s1, g1, s2, g2),
        bombs_follow(s2, g2, s3, g3),
    ensures
        bombs_follow(s1, g1, s3, g3),
{
    let x1 = choose|x: bool| #[trigger] same_gain(g1, g2, bomb_shown(s1), bomb_shown(s2), x);
    let x2 = choose|x: bool| #[trigger] same_gain(g2, g3, bomb_shown(s2), bomb_shown(s3), x);
    assert(same_gain(g1, g3, bomb_shown(s1), bomb_shown(s3), x1 || x2));
}

/// Opening one cell, on a board with no zero next to a bomb, ends the game
/// exactly when it shows a new bomb.
proof fn lemma_open_cell_bombs_follow(cells: Seq<Cell>, game_over: bool, rows: int, cols: int, i: int)
    requires
        cells.len() == rows * cols,
        zeros_clear(cells, rows, cols),
        0 <= i < cells.len(),
        cells[i].status != Status::Revealed,
    ensures
        bombs_follow(
            cells,
            game_over,
            open_cell(cells, game_over, rows, cols, i).0,
            open_cell(cells, game_over, rows, cols, i).1,
        ),
{
    let out = open_cell(cells, game_over, rows, cols, i);
    if cells[i].status == Status::Flag {
        assert(same_gain(game_over, out.1, bomb_shown(cells), bomb_shown(out.0), false));
    } else if cells[i].cell_type is Bomb {
        assert(out.0[i].cell_type is Bomb && out.0[i].status == Status::Revealed);
        assert(same_gain(game_over, out.1, bomb_shown(cells), bomb_shown(out.0), true));
    } else {
        lemma_open_safe_cell(cells, game_over, rows, cols, i);
        lemma_open_cell_only_reveals(cells, game_over, rows, cols, i);
        if bomb_shown(cells) {
            let j = choose|j: int|
                0 <= j < cells.len() && (#[trigger] cells[j]).cell_type is Bomb && cells[j].status
                    == Status::Revealed;
            assert(out.0[j] == cells[j]);
        }
        if bomb_shown(out.0) {
            let j = choose|j: int|
                0 <= j < out.0.len() && (#[trigger] out.0[j]).cell_type is Bomb && out.0[j].status
                    == Status::Revealed;
            assert(out.0[j] == cells[j] || out.0[j] == revealed_cell(cells[j]));
            assert(out.0[j] == cells[j]);
        }
        assert(same_gain(game_over, out.1, bomb_shown(cells), bomb_shown(out.0), false));
    }
}

/// Opening cells in turn, on a board with no zero next to a bomb, ends the
/// game exactly when it shows a new bomb.
proof fn lemma_open_each_bombs_follow(cells: Seq<Cell>, game_over: bool, rows: int, cols: int, js: Seq<int>)
    requires
        cells.len() == rows * cols,
        zeros_clear(cells, rows, cols),
        forall|k: int| 0 <= k < js.len() ==> 0 <= #[trigger] js[k] < cells.len(),
    ensures
        bombs_follow(
            cells,
            game_over,
            open_each(cells, game_over, rows, cols, js).0,
            open_each(cells, game_over, rows, cols, js).1,
        ),
    decreases js.len(),
{
    if js.len() == 0 {
        assert(same_gain(game_over, game_over, bomb_shown(cells), bomb_shown(cells), false));
    } else {
        let t = js.drop_last();
        assert forall|k: int| 0 <= k < t.len() implies 0 <= #[trigger] t[k] < cells.len() by {
            assert(t[k] == js[k]);
        }
        lemma_open_each_bombs_follow(cells, game_over, rows, cols, t);
        lemma_open_each_only_reveals(cells, game_over, rows, cols, t);
        let prev = open_each(cells, game_over, rows, cols, t);
        assert(0 <= js[js.len() - 1] < cells.len());
        if prev.0[js.last()].status != Status::Revealed {
            lemma_zeros_clear_only_reveals(cells, prev.0, rows, cols);
            lemma_open_cell_bombs_follow(prev.0, prev.1, rows, cols, js.last());
            let nxt = open_cell(prev.0, prev.1, rows, cols, js.last());
            lemma_bombs_follow_trans(cells, game_over, prev.0, prev.1, nxt.0, nxt.1);
        }
    }
}

/// On a board with no zero next to a bomb (every consistent board), a reveal
/// request ends the game exactly when it uncovers a new bomb: the game-over
/// flag and "a bomb shows" gain the same truth value.
pub proof fn law_reveal_bombs_follow(cells: Seq<Cell>, game_over: bool, rows: int, cols: int, i: int)
    requires
        0 <= rows,
        0 <= cols,
        cells.len() == rows * cols,
        zeros_clear(cells, rows, cols),
    ensures
        bombs_follow(
            cells,
            game_over,
            reveal_outcome(cells, game_over, rows, cols, i).0,
            reveal_outcome(cells, game_over, rows, cols, i).1,
        ),
{
    if 0 <= i < cells.len() {
        if cells[i].status == Status::Revealed {
            lemma_neighbor_list_members(rows, cols, i);
            let nl = neighbor_list(rows, cols, i);
            assert forall|k: int| 0 <= k < nl.len() implies 0 <= #[trigger] nl[k] < cells.len() by {
                assert(is_neighbor(rows, cols, i, nl[k]));
            }
            if type_number(cells[i].cell_type).unwrap_or(0) == count_flagged(cells, nl) {
                lemma_open_each_bombs_follow(cells, game_over, rows, cols, nl);
                assert(reveal_outcome(cells, game_over, rows, cols, i).0 == open_each(cells, game_over, rows, cols, nl).0);
                assert(reveal_outcome(cells, game_over, rows, cols, i).1 == open_each(cells, game_over, rows, cols, nl).1);
            } else {
                assert(reveal_outcome(cells, game_over, rows, cols, i).0 == cells);
                assert(reveal_outcome(cells, game_over, rows, cols, i).1 == game_over);
                assert(same_gain(game_over, game_over, bomb_shown(cells), bomb_shown(cells), false));
            }
        } else {
            lemma_open_cell_bombs_follow(cells, game_over, rows, cols, i);
            assert(reveal_outcome(cells, game_over, rows, cols, i).0 == open_cell(cells, game_over, rows, cols, i).0);
            assert(reveal_outcome(cells, game_over, rows, cols, i).1 == open_cell(cells, game_over, rows, cols, i).1);
        }
    } else {
        assert(same_gain(game_over, game_over, bomb_shown(cells), bomb_shown(cells), false));
    }
}

/// On a board with no zero next to a bomb, the game is over exactly when a
/// bomb is showing, and every reveal request keeps it so.
pub proof fn law_over_iff_bomb_shown(cells: Seq<Cell>, game_over: bool, rows: int, cols: int, i: int)
    requires
        0 <= rows,
        0 <= cols,
        cells.len() == rows * cols,
        zeros_clear(cells, rows, cols),
        over_iff_bomb_shown(cells, game_over),
    ensures
        over_iff_bomb_shown(
            reveal_outcome(cells, game_over, rows, cols, i).0,
            reveal_outcome(cells, game_over, rows, cols, i).1,
        ),
{
    law_reveal_bombs_follow(cells, game_over, rows, cols, i);
}

/// On a board with no zero next to a bomb, "a shown bomb means the game is
/// over" survives every reveal request.
pub proof fn law_shown_bomb_means_over(cells: Seq<Cell>, game_over: bool, rows: int, cols: int, i: int)
    requires
        0 <= rows,
        0 <= cols,
        cells.len() == rows * cols,
        zeros_clear(cells, rows, cols),
        bomb_shown(cells) ==> game_over,
    ensures
        bomb_shown(reveal_outcome(cells, game_over, rows, cols, i).0) ==> reveal_outcome(
            cells,
            game_over,
            rows,
            cols,
            i,
        ).1,
{
    law_reveal_bombs_follow(cells, game_over, rows, cols, i);
}

/// Cycling a mark reveals nothing and hides nothing: the game is over
/// exactly when a bomb shows before the request if and only if it is so after.
pub proof fn law_cycle_keeps_over_iff(cells: Seq<Cell>, game_over: bool, i: int)
    ensures
        over_iff_bomb_shown(cycle_outcome(cells, i).0, game_over) == over_iff_bomb_shown(
            cells,
            game_over,
        ),
{
    let out = cycle_outcome(cells, i).0;
    if 0 <= i < cells.len() && cells[i].status != Status::Revealed {
        assert(out[i].status != Status::Revealed);
        if exists|j: int|
            0 <= j < out.len() && (#[trigger] out[j]).cell_type is Bomb && out[j].status
                == Status::Revealed {
            let j = choose|j: int|
                0 <= j < out.len() && (#[trigger] out[j]).cell_type is Bomb && out[j].status
                    == Status::Revealed;
            assert(cells[j] == out[j]);
        }
        if exists|j: int|
            0 <= j < cells.len() && (#[trigger] cells[j]).cell_type is Bomb && cells[j].status
                == Status::Revealed {
            let j = choose|j: int|
                0 <= j < cells.len() && (#[trigger] cells[j]).cell_type is Bomb && cells[j].status
                    == Status::Revealed;
            assert(cells[j] == out[j]);
        }
    }
}

/// On a consistent board every number lies between 0 and 8: a cell has at
/// most eight neighbors.
pub proof fn law_numbers_at_most_eight(cells: Seq<Cell>, rows: int, cols: int, i: int)
    requires
        0 <= rows,
        0 <= cols,
        numbers_consistent(cells, rows, cols),
        0 <= i < cells.len(),
    ensures
        cells[i].cell_type matches CellType::Number(v) ==> 0 <= v <= 8,
{
    lemma_at_most_eight_neighbors(rows, cols, i);
    lemma_counts_bounded(cells, neighbor_list(rows, cols, i));
}

/// A fresh board, with every cell hidden and the game not over, is over
/// exactly when a bomb shows (no bomb shows).
pub proof fn law_fresh_board_over_iff_bomb_shown(cells: Seq<Cell>)
    requires
        forall|i: int| 0 <= i < cells.len() ==> (#[trigger] cells[i]).status == Status::Hidden,
    ensures
        over_iff_bomb_shown(cells, false),
{
}

/// Once every safe cell is revealed the game stays won: no reveal request and
/// no mark cycling hides a cell again.
pub proof fn law_win_is_kept(cells: Seq<Cell>, game_over: bool, rows: int, cols: int, i: int)
    requires
        0 <= rows,
        0 <= cols,
        cells.len() == rows * cols,
        all_safe_revealed(cells),
    ensures
        all_safe_revealed(reveal_outcome(cells, game_over, rows, cols, i).0),
        all_safe_revealed(cycle_outcome(cells, i).0),
{
    law_reveal_only_reveals(cells, game_over, rows, cols, i);
    let out = reveal_outcome(cells, game_over, rows, cols, i).0;
    assert forall|j: int| 0 <= j < out.len() && !(#[trigger] out[j].cell_type is Bomb) implies out[j].status
        == Status::Revealed by {
        assert(out[j] == cells[j] || out[j] == revealed_cell(cells[j]));
    }
    let cy = cycle_outcome(cells, i).0;
    assert forall|j: int| 0 <= j < cy.len() && !(#[trigger] cy[j].cell_type is Bomb) implies cy[j].status
        == Status::Revealed by {
        assert(cells[j].status == Status::Revealed);
    }
}

/// The two coordinate lists name the same on-board cells.
pub open spec fn same_cells_listed(size: (usize, usize), a: Seq<(usize, usize)>, b: Seq<(usize, usize)>) -> bool {
    forall|p: (usize, usize)| p.0 < size.0 && p.1 < size.1 ==> (#[trigger] a.contains(p) <==> b.contains(p))
}

/// A board built from bomb coordinates depends only on which on-board cells
/// they name: order, repeats and off-board coordinates make no difference.
pub proof fn law_board_depends_only_on_listed_cells(
    size: (usize, usize),
    a: Seq<(usize, usize)>,
    b: Seq<(usize, usize)>,
    ca: Seq<Cell>,
    cb: Seq<Cell>,
)
    requires
        built_from(ca, size, a),
        built_from(cb, size, b),
        same_cells_listed(size, a, b),
    ensures
        ca == cb,
{
    let rows = size.0 as int;
    let cols = size.1 as int;
    assert forall|i: int| 0 <= i < ca.len() implies (#[trigger] ca[i].cell_type is Bomb) == (cb[i].cell_type is Bomb) by {
        assert(ca[i].cell_type is Bomb <==> bomb_listed(size, a, i));
        assert(cb[i].cell_type is Bomb <==> bomb_listed(size, b, i));
        if bomb_listed(size, a, i) {
            let k = choose|k: int|
                0 <= k < a.len() && #[trigger] a[k].0 < size.0 && a[k].1 < size.1 && a[k].0 * size.1 + a[k].1 == i;
            assert(a.contains(a[k]));
            assert(b.contains(a[k]));
            let m = choose|m: int| 0 <= m < b.len() && b[m] == a[k];
            assert(b[m].0 < size.0);
        }
        if bomb_listed(size, b, i) {
            let k = choose|k: int|
                0 <= k < b.len() && #[trigger] b[k].0 < size.0 && b[k].1 < size.1 && b[k].0 * size.1 + b[k].1 == i;
            assert(b.contains(b[k]));
            assert(a.contains(b[k]));
            let m = choose|m: int| 0 <= m < a.len() && a[m] == b[k];
            assert(a[m].0 < size.0);
        }
    }
    assert forall|i: int| 0 <= i < ca.len() implies #[trigger] ca[i] == cb[i] by {
        let nl = neighbor_list(rows, cols, i);
        lemma_neighbor_list_members(rows, cols, i);
        assert forall|k: int| 0 <= k < nl.len() implies (#[trigger] ca[nl[k]].cell_type is Bomb) == (
            cb[nl[k]].cell_type is Bomb) by {
            assert(is_neighbor(rows, cols, i, nl[k]));
            assert((ca[nl[k]].cell_type is Bomb) == (cb[nl[k]].cell_type is Bomb));
        }
        lemma_count_bombs_same(ca, cb, nl);
        assert((ca[i].cell_type is Bomb) == (cb[i].cell_type is Bomb));
        assert(ca[i].status == cb[i].status);
        match ca[i].cell_type {
            CellType::Number(v) => {
                assert(v == count_bombs(ca, nl));
            },
            CellType::Bomb => {},
        }
        assert(ca[i].cell_type == cb[i].cell_type);
    }
    assert(ca =~= cb);
}

/// A board built from the coordinates that fitting draws pick has one bomb
/// per draw: a new random game has exactly the number of bombs asked for.
pub proof fn law_drawn_board_bomb_count(size: (usize, usize), draws: Seq<usize>, cells: Seq<Cell>)
    requires
        size.0 * size.1 <= usize::MAX,
        draws_fit(size, draws),
        built_from(cells, size, picks(size, draws)),
    ensures
        bomb_cells(cells).finite(),
        bomb_cells(cells).len() == draws.len(),
{
    lemma_picks_distinct_on_board(size, draws);
    law_bomb_count_matches_coords(size, picks(size, draws), cells);
}

/// Every placement of bombs can come out of the draws: for any list of
/// different cells on the board there are draws, each inside the number of
/// cells still free at its turn, that pick exactly that list. So the
/// placements a new random game may get are exactly the lists of different
/// cells on the board, as many as asked for.
pub proof fn law_every_placement_can_be_drawn(size: (usize, usize), coords: Seq<(usize, usize)>)
    requires
        size.0 * size.1 <= usize::MAX,
        forall|i: int| 0 <= i < coords.len() ==> (#[trigger] coords[i]).0 < size.0 && coords[i].1 < size.1,
        forall|a: int, b: int| 0 <= a < coords.len() && 0 <= b < coords.len() && a != b ==> coords[a] != coords[b],
    ensures
        exists|draws: Seq<usize>|
            draws.len() == coords.len() && draws_fit(size, draws) && #[trigger] picks(size, draws) == coords,
{
    let free = row_major_cells(size);
    let rows = size.0 as int;
    let cols = size.1 as int;
    lemma_row_major_cells(size);
    assert forall|i: int| 0 <= i < coords.len() implies free.contains(#[trigger] coords[i]) by {
        let r = coords[i].0 as int;
        let c = coords[i].1 as int;
        let k = r * cols + c;
        assert(0 <= r * cols) by (nonlinear_arith)
            requires
                0 <= r,
                0 <= cols,
        ;
        lemma_row_major_order(cols, r, c, rows, 0);
        lemma_index_row_col(cols, r, c);
        assert(free[k] == coords[i]);
    }
    let draws = lemma_draws_for(free, coords);
    assert(draws_fit(size, draws));
    assert(picks(size, draws) == coords);
}

/// Revealing a hidden zero floods across every one of the eight
/// directions: after the request, every zero that the request opened has all
/// its neighbors (by row and column distance at most one, diagonals
/// included) revealed, except those that were flagged.
pub proof fn law_flood_reaches_all_neighbors(
    cells: Seq<Cell>,
    game_over: bool,
    rows: int,
    cols: int,
    i: int,
    u: int,
    v: int,
)
    requires
        0 <= rows,
        0 <= cols,
        cells.len() == rows * cols,
        0 <= i < cells.len(),
        cells[i].status != Status::Revealed,
        cells[i].status != Status::Flag,
        cells[i].cell_type == CellType::Number(0),
        0 <= u < cells.len(),
        reveal_outcome(cells, game_over, rows, cols, i).0[u].status == Status::Revealed,
        u == i || cells[u].status != Status::Revealed,
        cells[u].cell_type == CellType::Number(0),
        is_neighbor(rows, cols, u, v),
        cells[v].status != Status::Flag,
    ensures
        reveal_outcome(cells, game_over, rows, cols, i).0[v].status == Status::Revealed,
{
    let s1 = cells.update(i, revealed_cell(cells[i]));
    let out = flood_opened(s1, rows, cols, i);
    assert(reveal_outcome(cells, game_over, rows, cols, i).0 == out);
    assert(0 <= v < cells.len());
    let p: Seq<int> = if u == i {
        seq![i]
    } else {
        if !flood_reaches(s1, rows, cols, i, u) {
            assert(out[u] == s1[u]);
        }
        choose|p: Seq<int>| #[trigger] is_flood_path(s1, rows, cols, p) && p[0] == i && p.last() == u
    };
    assert(is_flood_path(s1, rows, cols, p) && p[0] == i && p.last() == u);
    if cells[v].status == Status::Revealed {
        assert(out[v] == s1[v] || out[v] == revealed_cell(s1[v]));
    } else if v == i {
        assert(out[v] == s1[v] || out[v] == revealed_cell(s1[v]));
    } else {
        assert(flood_step(s1, rows, cols, p.last(), v));
        lemma_flood_path_extend(s1, rows, cols, p, v);
        assert(flood_reaches(s1, rows, cols, i, v));
    }
}

/// The flood spreads only from zeros: every cell that revealing a hidden
/// cell opens, other than the cell itself, is next to a zero that the same
/// request opened, and was not flagged.
pub proof fn law_flood_spreads_only_from_zeros(
    cells: Seq<Cell>,
    game_over: bool,
    rows: int,
    cols: int,
    i: int,
    v: int,
)
    requires
        0 <= rows,
        0 <= cols,
        cells.len() == rows * cols,
        0 <= i < cells.len(),
        cells[i].status != Status::Revealed,
        0 <= v < cells.len(),
        v != i,
        cells[v].status != Status::Revealed,
        reveal_outcome(cells, game_over, rows, cols, i).0[v].status == Status::Revealed,
    ensures
        cells[v].status != Status::Flag,
        exists|u: int|
            0 <= u < cells.len() && #[trigger] is_neighbor(rows, cols, u, v) && cells[u].cell_type
                == CellType::Number(0) && reveal_outcome(cells, game_over, rows, cols, i).0[u].status
                == Status::Revealed && (u == i || cells[u].status != Status::Revealed),
{
    let s1 = cells.update(i, revealed_cell(cells[i]));
    let out = reveal_outcome(cells, game_over, rows, cols, i).0;
    assert(cells[i].status != Status::Flag);
    assert(cells[i].cell_type == CellType::Number(0)) by {
        if cells[i].cell_type != CellType::Number(0) {
            assert(out[v] == s1[v]);
        }
    }
    let fo = flood_opened(s1, rows, cols, i);
    assert(out == fo);
    if !flood_reaches(s1, rows, cols, i, v) {
        assert(fo[v] == s1[v]);
    }
    let p = choose|p: Seq<int>| #[trigger] is_flood_path(s1, rows, cols, p) && p[0] == i && p.last() == v;
    assert(p.len() > 1);
    let k = p.len() - 2;
    assert(flood_step(s1, rows, cols, p[k], p[k + 1]));
    let u = p[k];
    let q = p.subrange(0, k + 1);
    assert forall|m: int| 0 <= m < q.len() - 1 implies #[trigger] flood_step(s1, rows, cols, q[m], q[m + 1]) by {
        assert(flood_step(s1, rows, cols, p[m], p[m + 1]));
    }
    assert(is_flood_path(s1, rows, cols, q) && q[0] == i && q.last() == u);
    assert(0 <= u < cells.len()) by {
        if u != i {
            assert(flood_step(s1, rows, cols, p[k - 1], p[(k - 1) + 1]));
        }
    }
    if u != i {
        assert(flood_step(s1, rows, cols, p[k - 1], p[(k - 1) + 1]));
        assert(can_open(s1[u]));
    }
    assert(fo[u].status == Status::Revealed);
    assert(is_neighbor(rows, cols, u, v));
}

} // verus!
