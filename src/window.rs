use vstd::prelude::*;
use vstd::arithmetic::div_mod::{lemma_fundamental_div_mod, lemma_fundamental_div_mod_converse};
use crate::board::{cell_index, in_board, MoveDirection, MAX_SIZE};
use crate::cross_point::{ChessType, CrossPointType};
use crate::evaluation_dfa::{count_of, window_score, MAX_WINDOW_SCORE};
use crate::tuple::{on_line, Tuple};

verus! {

// A window is written (axis, row, col): the axis of its line and the
// position of its first cell. Axis 0 runs right, 1 down, 2 down-right and
// 3 down-left. The windows of a board of side `n` are listed axis by axis,
// each axis in row-major order of first cells.

/// Direction in which the windows of axis `a` run.
pub open spec fn axis_md(a: int) -> MoveDirection {
    if a == 0 {
        MoveDirection::MdRight
    } else if a == 1 {
        MoveDirection::MdDown
    } else if a == 2 {
        MoveDirection::MdDownRight
    } else {
        MoveDirection::MdDownLeft
    }
}

/// Number of first positions a line of five has along a side of `n` cells
/// when it advances along that side.
pub open spec fn span(n: int) -> int {
    if n >= 4 {
        n - 4
    } else {
        0
    }
}

/// Number of rows that hold first cells of windows of axis `a`.
pub open spec fn axis_rows(n: int, a: int) -> int {
    if a == 0 {
        n
    } else {
        span(n)
    }
}

/// Number of columns that hold first cells of windows of axis `a`.
pub open spec fn axis_cols(n: int, a: int) -> int {
    if a == 1 {
        n
    } else {
        span(n)
    }
}

/// First column that holds first cells of windows of axis `a`.
pub open spec fn axis_col0(a: int) -> int {
    if a == 3 {
        4
    } else {
        0
    }
}

/// Number of windows of axis `a`.
pub open spec fn axis_count(n: int, a: int) -> int {
    axis_rows(n, a) * axis_cols(n, a)
}

/// Position in the window list of the first window of axis `a`.
pub open spec fn axis_base(n: int, a: int) -> int {
    if a <= 0 {
        0
    } else if a == 1 {
        axis_count(n, 0)
    } else if a == 2 {
        axis_count(n, 0) + axis_count(n, 1)
    } else if a == 3 {
        axis_count(n, 0) + axis_count(n, 1) + axis_count(n, 2)
    } else {
        axis_count(n, 0) + axis_count(n, 1) + axis_count(n, 2) + axis_count(n, 3)
    }
}

/// The windows of axis `a`, in row-major order of first cells.
pub open spec fn axis_windows(n: int, a: int) -> Seq<(int, int, int)> {
    Seq::new(
        axis_count(n, a) as nat,
        |l: int| (a, l / axis_cols(n, a), l % axis_cols(n, a) + axis_col0(a)),
    )
}

/// Every window of a board of side `n`, each listed once.
pub open spec fn windows(n: int) -> Seq<(int, int, int)> {
    axis_windows(n, 0) + axis_windows(n, 1) + axis_windows(n, 2) + axis_windows(n, 3)
}

/// Whether (a, r, c) is a window: its first cell is a first position of axis `a`.
pub open spec fn window_fits(n: int, w: (int, int, int)) -> bool {
    &&& 0 <= w.0 < 4
    &&& 0 <= w.1 < axis_rows(n, w.0)
    &&& axis_col0(w.0) <= w.2 < axis_col0(w.0) + axis_cols(n, w.0)
}

/// Position in the window list of the window (a, r, c).
pub open spec fn window_index(n: int, a: int, r: int, c: int) -> int {
    axis_base(n, a) + r * axis_cols(n, a) + (c - axis_col0(a))
}

/// Position `t` steps from (r, c) along axis `a`; a negative `t` steps back.
pub open spec fn axis_cell(a: int, r: int, c: int, t: int) -> (int, int) {
    if a == 0 {
        (r, c + t)
    } else if a == 1 {
        (r + t, c)
    } else if a == 2 {
        (r + t, c + t)
    } else {
        (r + t, c - t)
    }
}

/// Direction opposite to that of axis `a`.
pub open spec fn axis_back_md(a: int) -> MoveDirection {
    if a == 0 {
        MoveDirection::MdLeft
    } else if a == 1 {
        MoveDirection::MdUp
    } else if a == 2 {
        MoveDirection::MdUpLeft
    } else {
        MoveDirection::MdUpRight
    }
}

/// Position of the `i`-th cell of window `w`.
pub open spec fn window_cell(w: (int, int, int), i: int) -> (int, int) {
    if w.0 == 0 {
        (w.1, w.2 + i)
    } else if w.0 == 1 {
        (w.1 + i, w.2)
    } else if w.0 == 2 {
        (w.1 + i, w.2 + i)
    } else {
        (w.1 + i, w.2 - i)
    }
}

/// States of the five cells of window `w`.
pub open spec fn window_cells(n: int, cells: Seq<CrossPointType>, w: (int, int, int)) -> Seq<
    CrossPointType,
> {
    Seq::new(5, |i: int| cells[cell_index(n, window_cell(w, i).0, window_cell(w, i).1)])
}

/// Which cell of window `w` lies at (r, c), or -1 if none does.
pub open spec fn pos_in_window(w: (int, int, int), r: int, c: int) -> int {
    if w.0 == 0 {
        if w.1 == r && w.2 <= c < w.2 + 5 {
            c - w.2
        } else {
            -1
        }
    } else if w.0 == 1 {
        if w.2 == c && w.1 <= r < w.1 + 5 {
            r - w.1
        } else {
            -1
        }
    } else if w.0 == 2 {
        if r - w.1 == c - w.2 && 0 <= r - w.1 < 5 {
            r - w.1
        } else {
            -1
        }
    } else {
        if r - w.1 == w.2 - c && 0 <= r - w.1 < 5 {
            r - w.1
        } else {
            -1
        }
    }
}

/// Sum of a sequence of integers.
pub open spec fn seq_sum(s: Seq<int>) -> int
    decreases s.len(),
{
    if s.len() == 0 {
        0
    } else {
        seq_sum(s.drop_last()) + s.last()
    }
}

/// Score of every window, in window order.
pub open spec fn window_scores(n: int, cells: Seq<CrossPointType>) -> Seq<int> {
    windows(n).map_values(|w: (int, int, int)| window_score(window_cells(n, cells, w)))
}

/// Score of a position: the sum of the scores of all its windows.
pub open spec fn total_score(n: int, cells: Seq<CrossPointType>) -> int {
    seq_sum(window_scores(n, cells))
}

/// For each window, its score if it holds the cell (r, c), else 0.
pub open spec fn cell_weights(n: int, cells: Seq<CrossPointType>, r: int, c: int) -> Seq<int> {
    windows(n).map_values(
        |w: (int, int, int)|
            if pos_in_window(w, r, c) >= 0 {
                window_score(window_cells(n, cells, w))
            } else {
                0
            },
    )
}

/// Aggregate score of the cell (r, c): the sum of the scores of the windows
/// that hold it.
pub open spec fn cell_score(n: int, cells: Seq<CrossPointType>, r: int, c: int) -> int {
    seq_sum(cell_weights(n, cells, r, c))
}

/// Whether the five cells `s` all hold stones of colour `p`.
pub open spec fn is_five(s: Seq<CrossPointType>, p: ChessType) -> bool {
    count_of(s, CrossPointType::CptChess(p)) == 5
}

/// 1 for each window full of colour `p`, 0 for the others.
pub open spec fn five_flags(n: int, cells: Seq<CrossPointType>, p: ChessType) -> Seq<int> {
    windows(n).map_values(
        |w: (int, int, int)|
            if is_five(window_cells(n, cells, w), p) {
                1int
            } else {
                0int
            },
    )
}

/// Number of windows full of colour `p`.
pub open spec fn five_count(n: int, cells: Seq<CrossPointType>, p: ChessType) -> int {
    seq_sum(five_flags(n, cells, p))
}

/// Whether some window is full of colour `p`.
pub open spec fn has_five(n: int, cells: Seq<CrossPointType>, p: ChessType) -> bool {
    exists|k: int| 0 <= k < windows(n).len() && is_five(window_cells(n, cells, #[trigger] windows(n)[k]), p)
}

/// Tuple `t` holds the cells of window `w`.
pub open spec fn tuple_models(n: int, t: Tuple, w: (int, int, int)) -> bool {
    &&& t.wf(n)
    &&& t.spec_len() == 5
    &&& t.spec_md() == axis_md(w.0)
    &&& t.spec_coords()[0].row == w.1
    &&& t.spec_coords()[0].col == w.2
}

pub proof fn lemma_axis_count_nonneg(n: int, a: int)
    requires
        n >= 0,
    ensures
        axis_count(n, a) >= 0,
        axis_rows(n, a) >= 0,
        axis_cols(n, a) >= 0,
{
    assert(axis_rows(n, a) * axis_cols(n, a) >= 0) by (nonlinear_arith)
        requires
            axis_rows(n, a) >= 0,
            axis_cols(n, a) >= 0,
    ;
}

/// Length of the window list, and the four axes' counts.
pub proof fn lemma_windows_len(n: int)
    requires
        n >= 0,
    ensures
        windows(n).len() == axis_base(n, 4),
        axis_count(n, 0) == n * span(n),
        axis_count(n, 1) == n * span(n),
        axis_count(n, 2) == span(n) * span(n),
        axis_count(n, 3) == span(n) * span(n),
        forall|a: int| 0 <= a < 4 ==> axis_base(n, a) + axis_count(n, a) == #[trigger] axis_base(n, a + 1),
        forall|a: int| 0 <= a <= 4 ==> #[trigger] axis_base(n, a) >= 0,
{
    lemma_axis_count_nonneg(n, 0);
    lemma_axis_count_nonneg(n, 1);
    lemma_axis_count_nonneg(n, 2);
    lemma_axis_count_nonneg(n, 3);
    assert(axis_count(n, 1) == n * span(n)) by (nonlinear_arith)
        requires
            axis_count(n, 1) == span(n) * n,
    ;
}

/// Each listed window is one, at the position its first cell gives it.
pub proof fn lemma_windows_index(n: int, k: int)
    requires
        n >= 0,
        0 <= k < windows(n).len(),
    ensures
        window_fits(n, windows(n)[k]),
        k == window_index(n, windows(n)[k].0, windows(n)[k].1, windows(n)[k].2),
{
    lemma_windows_len(n);
    let a = if k < axis_base(n, 1) {
        0int
    } else if k < axis_base(n, 2) {
        1int
    } else if k < axis_base(n, 3) {
        2int
    } else {
        3int
    };
    let l = k - axis_base(n, a);
    let cols = axis_cols(n, a);
    let rows = axis_rows(n, a);
    assert(windows(n)[k] == axis_windows(n, a)[l]);
    assert(0 <= l < rows * cols);
    assert(cols > 0) by (nonlinear_arith)
        requires
            0 <= l < rows * cols,
            rows >= 0,
            cols >= 0,
    ;
    lemma_fundamental_div_mod(l, cols);
    let q = l / cols;
    let m = l % cols;
    assert(0 <= m < cols);
    assert(l == q * cols + m) by (nonlinear_arith)
        requires
            l == cols * q + m,
    ;
    assert(0 <= q < rows) by (nonlinear_arith)
        requires
            l == q * cols + m,
            0 <= m < cols,
            0 <= l < rows * cols,
    ;
}

/// The window (a, r, c) stands in the list at `window_index(n, a, r, c)`.
pub proof fn lemma_window_at(n: int, a: int, r: int, c: int)
    requires
        n >= 0,
        window_fits(n, (a, r, c)),
    ensures
        0 <= window_index(n, a, r, c) < windows(n).len(),
        axis_base(n, a) <= window_index(n, a, r, c) < axis_base(n, a + 1),
        windows(n)[window_index(n, a, r, c)] == (a, r, c),
{
    lemma_windows_len(n);
    let cols = axis_cols(n, a);
    let rows = axis_rows(n, a);
    let m = c - axis_col0(a);
    let l = r * cols + m;
    assert(0 <= l < rows * cols) by (nonlinear_arith)
        requires
            0 <= r < rows,
            0 <= m < cols,
            l == r * cols + m,
    ;
    lemma_fundamental_div_mod_converse(l, cols, r, m);
    assert(axis_windows(n, a)[l] == (a, r, c));
}

/// Two windows at different list positions differ.
pub proof fn lemma_windows_distinct(n: int, k1: int, k2: int)
    requires
        n >= 0,
        0 <= k1 < windows(n).len(),
        0 <= k2 < windows(n).len(),
        windows(n)[k1] == windows(n)[k2],
    ensures
        k1 == k2,
{
    lemma_windows_index(n, k1);
    lemma_windows_index(n, k2);
}

/// The cells of a window lie on the board.
pub proof fn lemma_window_cells_in_board(n: int, w: (int, int, int), i: int)
    requires
        window_fits(n, w),
        0 <= i < 5,
    ensures
        in_board(n, window_cell(w, i).0, window_cell(w, i).1),
{
}

/// On the board, (r, c) is cell `i` of window `w` exactly when `pos_in_window` says so.
pub proof fn lemma_pos_in_window(n: int, w: (int, int, int), r: int, c: int, i: int)
    requires
        window_fits(n, w),
        in_board(n, r, c),
        0 <= i < 5,
    ensures
        (window_cell(w, i) == (r, c)) == (pos_in_window(w, r, c) == i),
{
}

/// The cell index of (r, c) is that of cell `i` of window `w` exactly when
/// (r, c) is that cell.
pub proof fn lemma_window_cell_index(n: int, w: (int, int, int), r: int, c: int, i: int)
    requires
        window_fits(n, w),
        in_board(n, r, c),
        0 <= i < 5,
    ensures
        (cell_index(n, window_cell(w, i).0, window_cell(w, i).1) == cell_index(n, r, c)) == (
        pos_in_window(w, r, c) == i),
{
    lemma_pos_in_window(n, w, r, c, i);
    if cell_index(n, window_cell(w, i).0, window_cell(w, i).1) == cell_index(n, r, c) {
        crate::board::lemma_cell_index_unique(
            n,
            window_cell(w, i).0,
            window_cell(w, i).1,
            r,
            c,
        );
    }
}

/// A tuple that models a window holds that window's cells.
pub proof fn lemma_tuple_cells(n: int, t: Tuple, w: (int, int, int), cells: Seq<CrossPointType>)
    requires
        tuple_models(n, t, w),
        window_fits(n, w),
    ensures
        t.cells_in(n, cells) == window_cells(n, cells, w),
{
    assert forall|i: int| 0 <= i < 5 implies #[trigger] t.spec_coords()[i].row == window_cell(w, i).0
        && t.spec_coords()[i].col == window_cell(w, i).1 by {
        assert(on_line(t.spec_coords()[i], t.spec_coords()[0], t.spec_md(), i));
    }
    assert(t.cells_in(n, cells) =~= window_cells(n, cells, w));
}

pub proof fn lemma_sum_update(s: Seq<int>, i: int, v: int)
    requires
        0 <= i < s.len(),
    ensures
        seq_sum(s.update(i, v)) == seq_sum(s) - s[i] + v,
    decreases s.len(),
{
    let u = s.update(i, v);
    if i == s.len() - 1 {
        assert(u.drop_last() =~= s.drop_last());
    } else {
        assert(u.drop_last() =~= s.drop_last().update(i, v));
        lemma_sum_update(s.drop_last(), i, v);
    }
}

pub proof fn lemma_sum_take(s: Seq<int>, i: int)
    requires
        0 <= i < s.len(),
    ensures
        seq_sum(s.take(i + 1)) == seq_sum(s.take(i)) + s[i],
{
    assert(s.take(i + 1).drop_last() =~= s.take(i));
}

/// A sum of terms in [0, hi] lies in [0, len * hi].
pub proof fn lemma_sum_bounds(s: Seq<int>, hi: int)
    requires
        hi >= 0,
        forall|i: int| 0 <= i < s.len() ==> 0 <= #[trigger] s[i] <= hi,
    ensures
        0 <= seq_sum(s) <= s.len() * hi,
    decreases s.len(),
{
    if s.len() > 0 {
        lemma_sum_bounds(s.drop_last(), hi);
        assert((s.len() - 1) * hi + hi == s.len() * hi) by (nonlinear_arith);
    }
}

/// A sum of 0/1 flags is positive exactly when some flag is 1.
pub proof fn lemma_sum_flags(s: Seq<int>)
    requires
        forall|i: int| 0 <= i < s.len() ==> #[trigger] s[i] == 0 || s[i] == 1,
    ensures
        (seq_sum(s) > 0) == (exists|i: int| 0 <= i < s.len() && #[trigger] s[i] == 1),
        seq_sum(s) >= 0,
    decreases s.len(),
{
    if s.len() > 0 {
        let t = s.drop_last();
        lemma_sum_flags(t);
        if exists|i: int| 0 <= i < t.len() && #[trigger] t[i] == 1 {
            let i = choose|i: int| 0 <= i < t.len() && #[trigger] t[i] == 1;
            assert(s[i] == 1);
        }
        if exists|i: int| 0 <= i < s.len() && #[trigger] s[i] == 1 {
            let i = choose|i: int| 0 <= i < s.len() && #[trigger] s[i] == 1;
            if i < s.len() - 1 {
                assert(t[i] == 1);
            }
        }
    }
}

/// The score of a position lies between 0 and the largest window score
/// times the number of windows.
pub proof fn lemma_total_score_bounds(n: int, cells: Seq<CrossPointType>)
    requires
        0 <= n <= MAX_SIZE,
    ensures
        0 <= total_score(n, cells) <= 4 * MAX_SIZE * MAX_SIZE * MAX_WINDOW_SCORE,
{
    lemma_windows_len(n);
    let s = window_scores(n, cells);
    assert forall|i: int| 0 <= i < s.len() implies 0 <= #[trigger] s[i] <= MAX_WINDOW_SCORE by {
        crate::evaluation_dfa::lemma_window_score_bounds(window_cells(n, cells, windows(n)[i]));
    }
    lemma_sum_bounds(s, MAX_WINDOW_SCORE as int);
    lemma_windows_len_bound(n);
    assert(s.len() * MAX_WINDOW_SCORE <= 4 * MAX_SIZE * MAX_SIZE * MAX_WINDOW_SCORE) by (nonlinear_arith)
        requires
            0 <= s.len() <= 4 * MAX_SIZE * MAX_SIZE,
    ;
}

pub proof fn lemma_windows_len_bound(n: int)
    requires
        0 <= n <= MAX_SIZE,
    ensures
        windows(n).len() <= 4 * MAX_SIZE * MAX_SIZE,
{
    lemma_windows_len(n);
    assert(n * span(n) + n * span(n) + span(n) * span(n) + span(n) * span(n) <= 4 * MAX_SIZE
        * MAX_SIZE) by (nonlinear_arith)
        requires
            0 <= n <= MAX_SIZE,
            0 <= span(n) <= n,
    ;
}

/// The number of windows full of a colour is at most the number of windows,
/// and positive exactly when some window is full of it.
pub proof fn lemma_five_count(n: int, cells: Seq<CrossPointType>, p: ChessType)
    requires
        0 <= n <= MAX_SIZE,
    ensures
        0 <= five_count(n, cells, p) <= windows(n).len(),
        (five_count(n, cells, p) > 0) == has_five(n, cells, p),
{
    let s = five_flags(n, cells, p);
    lemma_sum_flags(s);
    lemma_sum_bounds(s, 1);
    if has_five(n, cells, p) {
        let k = choose|k: int|
            0 <= k < windows(n).len() && is_five(window_cells(n, cells, #[trigger] windows(n)[k]), p);
        assert(s[k] == 1);
    }
    if exists|i: int| 0 <= i < s.len() && #[trigger] s[i] == 1 {
        let i = choose|i: int| 0 <= i < s.len() && #[trigger] s[i] == 1;
        assert(is_five(window_cells(n, cells, windows(n)[i]), p));
    }
}

/// Window counts: on a board of side `n` at least 5, the horizontal and the
/// vertical axis each have `n * (n - 4)` windows and each diagonal axis
/// `(n - 4) * (n - 4)`; every listed window lies on the board, every
/// placement of five cells in a line on the board is listed, and no window
/// is listed twice.
pub proof fn lemma_window_counts(n: int)
    requires
        n >= 5,
    ensures
        axis_count(n, 0) == n * (n - 4),
        axis_count(n, 1) == n * (n - 4),
        axis_count(n, 2) == (n - 4) * (n - 4),
        axis_count(n, 3) == (n - 4) * (n - 4),
        windows(n).len() == 2 * n * (n - 4) + 2 * (n - 4) * (n - 4),
        forall|k: int, i: int|
            0 <= k < windows(n).len() && 0 <= i < 5 ==> in_board(
                n,
                #[trigger] window_cell(windows(n)[k], i).0,
                window_cell(windows(n)[k], i).1,
            ),
        forall|a: int, r: int, c: int|
            0 <= a < 4 && in_board(n, window_cell((a, r, c), 0).0, window_cell((a, r, c), 0).1)
                && in_board(n, #[trigger] window_cell((a, r, c), 4).0, window_cell((a, r, c), 4).1)
                ==> exists|k: int| 0 <= k < windows(n).len() && #[trigger] windows(n)[k] == (a, r, c),
        forall|k1: int, k2: int|
            0 <= k1 < windows(n).len() && 0 <= k2 < windows(n).len() && #[trigger] windows(n)[k1]
                == #[trigger] windows(n)[k2] ==> k1 == k2,
{
    lemma_windows_len(n);
    assert(2 * n * (n - 4) == n * (n - 4) + n * (n - 4)) by (nonlinear_arith);
    assert(2 * (n - 4) * (n - 4) == (n - 4) * (n - 4) + (n - 4) * (n - 4)) by (nonlinear_arith);
    assert forall|k: int, i: int| 0 <= k < windows(n).len() && 0 <= i < 5 implies in_board(
        n,
        #[trigger] window_cell(windows(n)[k], i).0,
        window_cell(windows(n)[k], i).1,
    ) by {
        lemma_windows_index(n, k);
    }
    assert forall|a: int, r: int, c: int|
        0 <= a < 4 && in_board(n, window_cell((a, r, c), 0).0, window_cell((a, r, c), 0).1)
            && in_board(
            n,
            #[trigger] window_cell((a, r, c), 4).0,
            window_cell((a, r, c), 4).1,
        ) implies exists|k: int| 0 <= k < windows(n).len() && #[trigger] windows(n)[k] == (a, r, c) by {
        lemma_window_at(n, a, r, c);
    }
    assert forall|k1: int, k2: int|
        0 <= k1 < windows(n).len() && 0 <= k2 < windows(n).len() && #[trigger] windows(n)[k1]
            == #[trigger] windows(n)[k2] implies k1 == k2 by {
        lemma_windows_distinct(n, k1, k2);
    }
}

/// Window axis as a direction.
pub fn axis_direction(a: usize) -> (md: MoveDirection)
    requires
        a < 4,
    ensures
        md == axis_md(a as int),
{
    if a == 0 {
        MoveDirection::MdRight
    } else if a == 1 {
        MoveDirection::MdDown
    } else if a == 2 {
        MoveDirection::MdDownRight
    } else {
        MoveDirection::MdDownLeft
    }
}

/// Direction opposite to that of axis `a`.
pub fn axis_back_direction(a: usize) -> (md: MoveDirection)
    requires
        a < 4,
    ensures
        md == axis_back_md(a as int),
{
    if a == 0 {
        MoveDirection::MdLeft
    } else if a == 1 {
        MoveDirection::MdUp
    } else if a == 2 {
        MoveDirection::MdUpLeft
    } else {
        MoveDirection::MdUpRight
    }
}

/// Number of first positions of a line of five along a side of `n` cells.
pub fn span_of(n: usize) -> (r: usize)
    ensures
        r == span(n as int),
{
    if n >= 4 {
        n - 4
    } else {
        0
    }
}

} // verus!
