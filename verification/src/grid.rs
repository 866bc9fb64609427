//! The geometry of a board stored row by row in one vector: which linear
//! indices are adjacent, and the arithmetic facts that connect a linear index
//! with its row and column.

use vstd::prelude::*;
use vstd::arithmetic::div_mod::{lemma_fundamental_div_mod, lemma_fundamental_div_mod_converse};

verus! {

/// `j` is one of the (up to eight) cells around `i` on a `rows` x `cols`
/// board: it lies on the board, differs from `i`, and its row and column each
/// differ from those of `i` by at most one.
pub open spec fn is_neighbor(rows: int, cols: int, i: int, j: int) -> bool {
    &&& 0 <= j < rows * cols
    &&& j != i
    &&& i / cols - 1 <= j / cols <= i / cols + 1
    &&& i % cols - 1 <= j % cols <= i % cols + 1
}

/// The cells around `i`, in increasing index order.
pub open spec fn neighbor_list(rows: int, cols: int, i: int) -> Seq<int> {
    Seq::new((rows * cols) as nat, |j: int| j).filter(|j: int| is_neighbor(rows, cols, i, j))
}

/// A sequence of indices read as integers.
pub open spec fn as_ints(s: Seq<usize>) -> Seq<int> {
    s.map_values(|x: usize| x as int)
}

/// Each element of `s` is smaller than the next.
pub open spec fn strictly_increasing(s: Seq<int>) -> bool {
    forall|a: int, b: int| 0 <= a < b < s.len() ==> s[a] < s[b]
}

/// The row and column of `r * cols + c`, for a column inside the board.
pub proof fn lemma_index_row_col(cols: int, r: int, c: int)
    requires
        0 <= c < cols,
    ensures
        (r * cols + c) / cols == r,
        (r * cols + c) % cols == c,
{
    lemma_fundamental_div_mod_converse(r * cols + c, cols, r, c);
}

/// Every index splits into its row and its column.
pub proof fn lemma_split_index(cols: int, j: int)
    requires
        0 < cols,
        0 <= j,
    ensures
        j == (j / cols) * cols + j % cols,
        0 <= j % cols < cols,
        0 <= j / cols,
{
    lemma_fundamental_div_mod(j, cols);
    assert(cols * (j / cols) == (j / cols) * cols) by (nonlinear_arith);
    assert(0 <= j % cols < cols) by (nonlinear_arith)
        requires
            0 < cols,
    ;
    assert(0 <= j / cols) by (nonlinear_arith)
        requires
            0 < cols,
            0 <= j,
    ;
}

/// Row-major order on indices is the lexicographic order on (row, column).
pub proof fn lemma_row_major_order(cols: int, r1: int, c1: int, r2: int, c2: int)
    requires
        0 <= c1 < cols,
        0 <= c2 < cols,
    ensures
        (r1 * cols + c1 < r2 * cols + c2) <==> (r1 < r2 || (r1 == r2 && c1 < c2)),
{
    if r1 < r2 {
        assert(r1 * cols + c1 < r2 * cols + c2) by (nonlinear_arith)
            requires
                r1 < r2,
                0 <= c1 < cols,
                0 <= c2,
        ;
    } else if r1 > r2 {
        assert(r1 * cols + c1 > r2 * cols + c2) by (nonlinear_arith)
            requires
                r1 > r2,
                0 <= c2 < cols,
                0 <= c1,
        ;
    }
}

/// A strictly increasing sequence of indices below `n` that holds exactly the
/// indices satisfying `p` is the ordered list of those indices.
pub proof fn lemma_sorted_is_filter(s: Seq<int>, n: nat, p: spec_fn(int) -> bool)
    requires
        strictly_increasing(s),
        forall|k: int| 0 <= k < s.len() ==> 0 <= #[trigger] s[k] < n && p(s[k]),
        forall|j: int| 0 <= j < n && #[trigger] p(j) ==> s.contains(j),
    ensures
        s == Seq::new(n, |j: int| j).filter(p),
    decreases n,
{
    reveal(Seq::filter);
    let r = Seq::new(n, |j: int| j);
    if n == 0 {
        if s.len() > 0 {
            let x = s[0];
            assert(0 <= x < n && p(x));
        }
        assert(s =~= r.filter(p));
    } else {
        let m = (n - 1) as nat;
        assert(r.drop_last() =~= Seq::new(m, |j: int| j));
        assert(r.last() == m);
        let sub = Seq::new(m, |j: int| j).filter(p);
        assert(r.filter(p) == (if p(r.last()) { r.drop_last().filter(p).push(r.last()) } else { r.drop_last().filter(p) }));
        if p(m as int) {
            assert(s.contains(m as int));
            let k = choose|k: int| 0 <= k < s.len() && s[k] == m;
            if k < s.len() - 1 {
                assert(s[k] < s[s.len() - 1]);
            }
            let t = s.drop_last();
            assert forall|j: int| 0 <= j < m && #[trigger] p(j) implies t.contains(j) by {
                assert(s.contains(j));
                let q = choose|q: int| 0 <= q < s.len() && s[q] == j;
                assert(q != s.len() - 1);
                assert(t[q] == j);
            }
            assert forall|q: int| 0 <= q < t.len() implies 0 <= #[trigger] t[q] < m && p(t[q]) by {
                assert(s[q] < s[s.len() - 1]);
            }
            lemma_sorted_is_filter(t, m, p);
            assert(s =~= t.push(m as int));
            assert(r.filter(p) == sub.push(m as int));
        } else {
            assert forall|q: int| 0 <= q < s.len() implies 0 <= #[trigger] s[q] < m && p(s[q]) by {
                assert(s[q] != m);
            }
            lemma_sorted_is_filter(s, m, p);
            assert(r.filter(p) == sub);
        }
    }
}

/// The neighbor list holds exactly the neighbors, and only on-board indices.
pub proof fn lemma_neighbor_list_members(rows: int, cols: int, i: int)
    requires
        0 <= rows,
        0 <= cols,
    ensures
        forall|k: int|
            0 <= k < neighbor_list(rows, cols, i).len() ==> is_neighbor(
                rows,
                cols,
                i,
                #[trigger] neighbor_list(rows, cols, i)[k],
            ),
        forall|j: int| #[trigger]
            is_neighbor(rows, cols, i, j) ==> neighbor_list(rows, cols, i).contains(j),
{
    let r = Seq::new((rows * cols) as nat, |j: int| j);
    let p = |j: int| is_neighbor(rows, cols, i, j);
    assert(0 <= rows * cols) by (nonlinear_arith)
        requires
            0 <= rows,
            0 <= cols,
    ;
    assert forall|k: int| 0 <= k < r.filter(p).len() implies is_neighbor(
        rows,
        cols,
        i,
        #[trigger] r.filter(p)[k],
    ) by {
        r.lemma_filter_pred(p, k);
    }
    assert forall|j: int| #[trigger] is_neighbor(rows, cols, i, j) implies r.filter(p).contains(
        j,
    ) by {
        assert(r[j] == j);
        r.lemma_filter_contains(p, j);
    }
}

/// Keeping some elements of a strictly increasing sequence keeps it strictly
/// increasing, and keeps only its elements.
pub proof fn lemma_filter_increasing(s: Seq<int>, p: spec_fn(int) -> bool)
    requires
        strictly_increasing(s),
    ensures
        strictly_increasing(s.filter(p)),
        forall|k: int| 0 <= k < s.filter(p).len() ==> s.contains(#[trigger] s.filter(p)[k]),
    decreases s.len(),
{
    reveal(Seq::filter);
    if s.len() > 0 {
        let t = s.drop_last();
        lemma_filter_increasing(t, p);
        let f = t.filter(p);
        assert forall|k: int| 0 <= k < f.len() implies s.contains(#[trigger] f[k]) && f[k] < s.last() by {
            assert(t.contains(f[k]));
            let m = choose|m: int| 0 <= m < t.len() && t[m] == f[k];
            assert(s[m] == f[k]);
        }
        if p(s.last()) {
            let g = f.push(s.last());
            assert forall|a: int, b: int| 0 <= a < b < g.len() implies g[a] < g[b] by {
                if b < f.len() {
                    assert(g[a] == f[a] && g[b] == f[b]);
                } else {
                    assert(g[a] == f[a]);
                }
            }
            assert forall|k: int| 0 <= k < g.len() implies s.contains(#[trigger] g[k]) by {
                if k < f.len() {
                    assert(g[k] == f[k]);
                } else {
                    assert(s[s.len() - 1] == g[k]);
                }
            }
        }
    }
}

/// A cell has at most eight neighbors.
pub proof fn lemma_at_most_eight_neighbors(rows: int, cols: int, i: int)
    requires
        0 <= rows,
        0 <= cols,
        0 <= i,
    ensures
        neighbor_list(rows, cols, i).len() <= 8,
{
    let nl = neighbor_list(rows, cols, i);
    assert(0 <= rows * cols) by (nonlinear_arith)
        requires
            0 <= rows,
            0 <= cols,
    ;
    if cols == 0 {
        assert(rows * cols == 0) by (nonlinear_arith)
            requires
                cols == 0,
        ;
        let r = Seq::new((rows * cols) as nat, |j: int| j);
        r.lemma_filter_len(|j: int| is_neighbor(rows, cols, i, j));
    } else {
        let r = Seq::new((rows * cols) as nat, |j: int| j);
        assert(strictly_increasing(r));
        lemma_filter_increasing(r, |j: int| is_neighbor(rows, cols, i, j));
        lemma_neighbor_list_members(rows, cols, i);
        assert(nl.no_duplicates()) by {
            assert forall|a: int, b: int| 0 <= a < nl.len() && 0 <= b < nl.len() && a != b implies nl[a] != nl[b] by {
                if a < b {
                    assert(nl[a] < nl[b]);
                } else {
                    assert(nl[b] < nl[a]);
                }
            }
        }
        nl.unique_seq_to_set();
        let c = set![i - cols - 1, i - cols, i - cols + 1, i - 1, i + 1, i + cols - 1, i + cols, i + cols + 1];
        lemma_split_index(cols, i);
        let ri = i / cols;
        let ci = i % cols;
        assert forall|j: int| #[trigger] nl.to_set().contains(j) implies c.contains(j) by {
            let k = choose|k: int| 0 <= k < nl.len() && nl[k] == j;
            assert(is_neighbor(rows, cols, i, nl[k]));
            lemma_split_index(cols, j);
            let rj = j / cols;
            let cj = j % cols;
            assert(rj * cols - ri * cols == (rj - ri) * cols) by (nonlinear_arith);
            if rj == ri - 1 {
                assert((rj - ri) * cols == -cols) by (nonlinear_arith)
                    requires
                        rj == ri - 1,
                ;
            } else if rj == ri {
                assert((rj - ri) * cols == 0) by (nonlinear_arith)
                    requires
                        rj == ri,
                ;
            } else {
                assert((rj - ri) * cols == cols) by (nonlinear_arith)
                    requires
                        rj == ri + 1,
                ;
            }
        }
        assert(c.finite() && c.len() <= 8) by {
            let c0 = Set::<int>::empty();
            let c1 = c0.insert(i - cols - 1);
            let c2 = c1.insert(i - cols);
            let c3 = c2.insert(i - cols + 1);
            let c4 = c3.insert(i - 1);
            let c5 = c4.insert(i + 1);
            let c6 = c5.insert(i + cols - 1);
            let c7 = c6.insert(i + cols);
            let c8 = c7.insert(i + cols + 1);
            assert(c8 == c);
            assert(c1.len() <= 1);
            assert(c2.len() <= 2);
            assert(c3.len() <= 3);
            assert(c4.len() <= 4);
            assert(c5.len() <= 5);
            assert(c6.len() <= 6);
            assert(c7.len() <= 7);
            assert(c8.len() <= 8);
        }
        vstd::set_lib::lemma_len_subset(nl.to_set(), c);
    }
}

} // verus!
