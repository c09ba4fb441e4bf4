use vstd::prelude::*;
use crate::board::{cell_index, event_after, event_before, event_detail, in_board, Board, BoardEvent, Coord, MAX_SIZE};
use crate::cross_point::{ChessType, CrossPointType};
use crate::evaluation_dfa::{
    count_cells, lemma_count_of_lt, lemma_window_score_bounds, window_score, EvaluationDfa,
    MAX_WINDOW_SCORE,
};
use crate::segment::{deque_cells, segment_cells, segment_push_back, segment_push_front, segment_with_capacity};
use crate::tuple::Tuple;
use slice_deque::SliceDeque;
use crate::utils::{Error, ErrorKind};
use crate::window::{
    axis_back_direction, axis_base, axis_cell, axis_col0, cell_score, cell_weights, axis_cols,
    axis_direction, axis_rows, five_count, five_flags, has_five,
    is_five, lemma_five_count, lemma_pos_in_window, lemma_sum_bounds, lemma_sum_take,
    lemma_sum_update, lemma_total_score_bounds, lemma_tuple_cells, lemma_window_at,
    lemma_window_cell_index, lemma_windows_distinct, lemma_windows_index, lemma_windows_len,
    lemma_windows_len_bound, pos_in_window, seq_sum, span_of, total_score, tuple_models,
    window_cell, window_cells, window_fits, window_scores, windows,
};

verus! {

#[derive(PartialEq, Eq, Structural, Copy, Clone, Debug)]
pub enum GameStatus {
    GsGameOver(ChessType),
    GsGameContinue,
}

/// Status of a position: over when some window is full of one colour.
/// Should both colours have a full window, black is named.
pub open spec fn status_of(n: int, cells: Seq<CrossPointType>) -> GameStatus {
    if has_five(n, cells, ChessType::CtBlack) {
        GameStatus::GsGameOver(ChessType::CtBlack)
    } else if has_five(n, cells, ChessType::CtWhite) {
        GameStatus::GsGameOver(ChessType::CtWhite)
    } else {
        GameStatus::GsGameContinue
    }
}

fn status_for(black_fives: usize, white_fives: usize) -> (r: GameStatus)
    ensures
        r == (if black_fives > 0 {
            GameStatus::GsGameOver(ChessType::CtBlack)
        } else if white_fives > 0 {
            GameStatus::GsGameOver(ChessType::CtWhite)
        } else {
            GameStatus::GsGameContinue
        }),
{
    if black_fives > 0 {
        GameStatus::GsGameOver(ChessType::CtBlack)
    } else if white_fives > 0 {
        GameStatus::GsGameOver(ChessType::CtWhite)
    } else {
        GameStatus::GsGameContinue
    }
}

/// Whether window `w` has been brought up to date once the update has gone
/// through every (axis, position) pair before (a, j).
pub open spec fn visited(w: (int, int, int), r: int, c: int, a: int, j: int) -> bool {
    pos_in_window(w, r, c) >= 0 && (w.0 < a || (w.0 == a && pos_in_window(w, r, c) < j))
}

/// How a change of the cell (r, c) shows in a window: a window that does not
/// hold the cell is unchanged; in one that does, only that cell changes.
pub proof fn lemma_window_change(
    n: int,
    w: (int, int, int),
    r: int,
    c: int,
    cells: Seq<CrossPointType>,
    before: CrossPointType,
)
    requires
        window_fits(n, w),
        in_board(n, r, c),
        cells.len() == n * n,
    ensures
        ({
            let prior = cells.update(cell_index(n, r, c), before);
            let j = pos_in_window(w, r, c);
            &&& j < 0 ==> window_cells(n, prior, w) == window_cells(n, cells, w)
            &&& j >= 0 ==> j < 5 && window_cells(n, cells, w)[j] == cells[cell_index(n, r, c)]
                && window_cells(n, prior, w) == window_cells(n, cells, w).update(j, before)
        }),
{
    let ci = cell_index(n, r, c);
    let prior = cells.update(ci, before);
    let j = pos_in_window(w, r, c);
    crate::board::lemma_cell_index_bounds(n, r, c);
    assert forall|i: int| 0 <= i < 5 implies 0 <= #[trigger] cell_index(
        n,
        window_cell(w, i).0,
        window_cell(w, i).1,
    ) < n * n && (cell_index(n, window_cell(w, i).0, window_cell(w, i).1) == ci) == (j == i) by {
        crate::board::lemma_cell_index_bounds(n, window_cell(w, i).0, window_cell(w, i).1);
        lemma_window_cell_index(n, w, r, c, i);
    }
    if j < 0 {
        assert(window_cells(n, prior, w) =~= window_cells(n, cells, w));
    } else {
        assert(window_cells(n, prior, w) =~= window_cells(n, cells, w).update(j, before));
    }
}

/// Keeps the board and, for it, the list of windows, the running score, the
/// number of full windows of each colour and the game status.
pub struct RuleChecker {
    board: Board,
    status: GameStatus,
    score: i64,
    black_fives: usize,
    white_fives: usize,
    tuples: Vec<Tuple>,
    evaluation_dfa: EvaluationDfa,
}

impl RuleChecker {
    pub closed spec fn spec_board(&self) -> Board {
        self.board
    }

    /// Side of the board.
    pub open spec fn n(&self) -> int {
        self.spec_board().spec_size() as int
    }

    /// Cell states of the board.
    pub open spec fn cells(&self) -> Seq<CrossPointType> {
        self.spec_board().cells()
    }

    /// The tuples are the board's windows, in window order.
    pub closed spec fn tuples_ok(&self) -> bool {
        &&& self.tuples@.len() == windows(self.n()).len()
        &&& forall|k: int|
            0 <= k < self.tuples@.len() ==> tuple_models(
                self.n(),
                #[trigger] self.tuples@[k],
                windows(self.n())[k],
            )
    }

    /// The score, counters and status are those of a board whose cells are `cells`.
    pub closed spec fn tracks(&self, cells: Seq<CrossPointType>) -> bool {
        &&& self.score == total_score(self.n(), cells)
        &&& self.black_fives == five_count(self.n(), cells, ChessType::CtBlack)
        &&& self.white_fives == five_count(self.n(), cells, ChessType::CtWhite)
        &&& self.status == status_of(self.n(), cells)
    }

    pub closed spec fn wf(&self) -> bool {
        &&& self.board.wf()
        &&& self.tuples_ok()
        &&& self.tracks(self.board.cells())
    }

    pub proof fn lemma_wf(&self)
        requires
            self.wf(),
        ensures
            self.spec_board().wf(),
            0 <= self.n() <= MAX_SIZE,
            self.cells().len() == self.n() * self.n(),
    {
        self.board.lemma_wf();
    }

    proof fn lemma_tuple(&self, k: int)
        requires
            self.board.wf(),
            self.tuples_ok(),
            0 <= k < self.tuples@.len(),
        ensures
            window_fits(self.n(), windows(self.n())[k]),
            self.tuples@[k].wf(self.n()),
            self.tuples@[k].cells_in(self.n(), self.cells()) == window_cells(
                self.n(),
                self.cells(),
                windows(self.n())[k],
            ),
    {
        self.board.lemma_wf();
        lemma_windows_index(self.n(), k);
        assert(tuple_models(self.n(), self.tuples@[k], windows(self.n())[k]));
        lemma_tuple_cells(self.n(), self.tuples@[k], windows(self.n())[k], self.cells());
    }

    /// Adds the windows of axis `a`, row by row.
    fn set_tuples(&mut self, a: usize)
        requires
            a < 4,
            old(self).board.wf(),
            old(self).tuples@.len() == axis_base(old(self).n(), a as int),
            forall|k: int|
                0 <= k < old(self).tuples@.len() ==> tuple_models(
                    old(self).n(),
                    #[trigger] old(self).tuples@[k],
                    windows(old(self).n())[k],
                ),
        ensures
            final(self).board == old(self).board,
            final(self).tuples@.len() == axis_base(old(self).n(), a + 1),
            forall|k: int|
                0 <= k < final(self).tuples@.len() ==> tuple_models(
                    old(self).n(),
                    #[trigger] final(self).tuples@[k],
                    windows(old(self).n())[k],
                ),
    {
        let n = self.board.size();
        let ghost ni = n as int;
        proof {
            self.board.lemma_wf();
            lemma_windows_len(ni);
        }
        let sp = span_of(n);
        let rows: usize = if a == 0 {
            n
        } else {
            sp
        };
        let cols: usize = if a == 1 {
            n
        } else {
            sp
        };
        let col0: usize = if a == 3 {
            4
        } else {
            0
        };
        assert(rows == axis_rows(ni, a as int) && cols == axis_cols(ni, a as int) && col0
            == axis_col0(a as int));
        let md = axis_direction(a);
        let mut row: usize = 0;
        while row < rows
            invariant
                a < 4,
                self.board == old(self).board,
                self.board.wf(),
                ni == self.n(),
                n == ni,
                ni <= MAX_SIZE,
                rows == axis_rows(ni, a as int),
                cols == axis_cols(ni, a as int),
                col0 == axis_col0(a as int),
                md == crate::window::axis_md(a as int),
                row <= rows,
                self.tuples@.len() == axis_base(ni, a as int) + row * cols,
                forall|k: int|
                    0 <= k < self.tuples@.len() ==> tuple_models(
                        ni,
                        #[trigger] self.tuples@[k],
                        windows(ni)[k],
                    ),
            decreases rows - row,
        {
            let mut col: usize = col0;
            while col < col0 + cols
                invariant
                    a < 4,
                    self.board == old(self).board,
                    self.board.wf(),
                    ni == self.n(),
                    n == ni,
                    ni <= MAX_SIZE,
                    rows == axis_rows(ni, a as int),
                    cols == axis_cols(ni, a as int),
                    col0 == axis_col0(a as int),
                    md == crate::window::axis_md(a as int),
                    row < rows,
                    col0 <= col <= col0 + cols,
                    self.tuples@.len() == axis_base(ni, a as int) + row * cols + (col - col0),
                    forall|k: int|
                        0 <= k < self.tuples@.len() ==> tuple_models(
                            ni,
                            #[trigger] self.tuples@[k],
                            windows(ni)[k],
                        ),
                decreases col0 + cols - col,
            {
                let ghost w = (a as int, row as int, col as int);
                proof {
                    lemma_window_at(ni, a as int, row as int, col as int);
                    assert forall|i: int| 0 <= i < 5 implies in_board(
                        ni,
                        #[trigger] crate::tuple::line_cell(Coord { row, col }, md, i).0,
                        crate::tuple::line_cell(Coord { row, col }, md, i).1,
                    ) by {
                        crate::window::lemma_window_cells_in_board(ni, w, i);
                    }
                }
                let t = Tuple::create_with_md(5, &self.board, Coord { row, col }, md);
                self.tuples.push(t);
                col = col + 1;
            }
            assert(row * cols + cols == (row + 1) * cols) by (nonlinear_arith);
            row = row + 1;
        }
        proof {
            lemma_window_at_end(ni, a as int);
        }
    }

    /// Builds the window list of the board, axis by axis.
    fn set_all_tuples(&mut self)
        requires
            old(self).board.wf(),
            old(self).tuples@.len() == 0,
        ensures
            final(self).board == old(self).board,
            final(self).tuples_ok(),
    {
        proof {
            self.board.lemma_wf();
            lemma_windows_len(self.n());
        }
        self.set_tuples(0);
        self.set_tuples(1);
        self.set_tuples(2);
        self.set_tuples(3);
    }

    /// The rule checker of `board`, with every counter taken from a full scan.
    pub fn create_with_detail(board: Board) -> (r: RuleChecker)
        requires
            board.wf(),
        ensures
            r.wf(),
            r.spec_board() == board,
    {
        let mut rc = RuleChecker {
            board,
            status: GameStatus::GsGameContinue,
            score: 0,
            black_fives: 0,
            white_fives: 0,
            tuples: Vec::new(),
            evaluation_dfa: EvaluationDfa::new(),
        };
        rc.set_all_tuples();
        rc.score = rc.rescan_score();
        rc.black_fives = rc.count_fives(ChessType::CtBlack);
        rc.white_fives = rc.count_fives(ChessType::CtWhite);
        proof {
            rc.board.lemma_wf();
            lemma_five_count(rc.n(), rc.cells(), ChessType::CtBlack);
            lemma_five_count(rc.n(), rc.cells(), ChessType::CtWhite);
        }
        rc.status = status_for(rc.black_fives, rc.white_fives);
        rc
    }

    pub fn board(&self) -> (r: &Board)
        ensures
            *r == self.spec_board(),
    {
        &self.board
    }

    /// Score of window `index`.
    pub fn get_tuple_score(&self, index: usize) -> (r: i64)
        requires
            self.wf(),
            index < windows(self.n()).len(),
        ensures
            r == window_score(window_cells(self.n(), self.cells(), windows(self.n())[index as int])),
    {
        self.tuple_score(index)
    }

    fn tuple_score(&self, index: usize) -> (r: i64)
        requires
            self.board.wf(),
            self.tuples_ok(),
            index < windows(self.n()).len(),
        ensures
            r == window_score(window_cells(self.n(), self.cells(), windows(self.n())[index as int])),
    {
        proof {
            self.lemma_tuple(index as int);
        }
        let states = self.tuples[index].cross_point_types(&self.board);
        self.evaluation_dfa.evaluate_tuple(states.as_slice())
    }

    /// Score of the position from a scan of every window.
    pub fn full_evaluation(&self) -> (r: i64)
        requires
            self.wf(),
        ensures
            r == total_score(self.n(), self.cells()),
    {
        self.rescan_score()
    }

    fn rescan_score(&self) -> (r: i64)
        requires
            self.board.wf(),
            self.tuples_ok(),
        ensures
            r == total_score(self.n(), self.cells()),
    {
        let ghost s = window_scores(self.n(), self.cells());
        proof {
            self.board.lemma_wf();
            lemma_windows_len_bound(self.n());
        }
        let mut sum: i64 = 0;
        let mut k: usize = 0;
        while k < self.tuples.len()
            invariant
                self.board.wf(),
                self.tuples_ok(),
                s == window_scores(self.n(), self.cells()),
                0 <= self.n() <= MAX_SIZE,
                s.len() <= 4 * MAX_SIZE * MAX_SIZE,
                k <= s.len(),
                sum == seq_sum(s.take(k as int)),
            decreases s.len() - k,
        {
            let v = self.tuple_score(k);
            proof {
                lemma_sum_take(s, k as int);
                let t = s.take(k + 1);
                assert forall|i: int| 0 <= i < t.len() implies 0 <= #[trigger] t[i]
                    <= MAX_WINDOW_SCORE by {
                    lemma_window_score_bounds(window_cells(self.n(), self.cells(), windows(self.n())[i]));
                }
                lemma_sum_bounds(t, MAX_WINDOW_SCORE as int);
                assert(t.len() * MAX_WINDOW_SCORE <= 4 * MAX_SIZE * MAX_SIZE * MAX_WINDOW_SCORE)
                    by (nonlinear_arith)
                    requires
                        t.len() <= 4 * MAX_SIZE * MAX_SIZE,
                ;
            }
            sum = sum + v;
            k = k + 1;
        }
        proof {
            assert(s.take(s.len() as int) =~= s);
        }
        sum
    }

    /// Number of windows full of colour `p`, from a scan of every window.
    fn count_fives(&self, p: ChessType) -> (r: usize)
        requires
            self.board.wf(),
            self.tuples_ok(),
        ensures
            r == five_count(self.n(), self.cells(), p),
    {
        let ghost s = five_flags(self.n(), self.cells(), p);
        proof {
            self.board.lemma_wf();
            lemma_windows_len_bound(self.n());
        }
        let mut num: usize = 0;
        let mut k: usize = 0;
        while k < self.tuples.len()
            invariant
                self.board.wf(),
                self.tuples_ok(),
                s == five_flags(self.n(), self.cells(), p),
                s.len() <= 4 * MAX_SIZE * MAX_SIZE,
                k <= s.len(),
                num == seq_sum(s.take(k as int)),
                num <= k,
            decreases s.len() - k,
        {
            proof {
                self.lemma_tuple(k as int);
                lemma_sum_take(s, k as int);
            }
            if self.tuples[k].count(&self.board, CrossPointType::CptChess(p)) == 5 {
                num = num + 1;
            }
            k = k + 1;
        }
        proof {
            assert(s.take(s.len() as int) =~= s);
        }
        num
    }

    /// Walks the board's links along axis `a` from `coord`, up to four steps
    /// each way and never past the edge, and gathers the states of the cells
    /// passed, in line order. Returns them with the number of cells before
    /// and after `coord`.
    fn axis_segment(&self, row: usize, col: usize, a: usize) -> (r: (
        SliceDeque<CrossPointType>,
        usize,
        usize,
    ))
        requires
            self.board.wf(),
            row < self.n(),
            col < self.n(),
            a < 4,
        ensures
            ({
                let (d, back, fwd) = r;
                let n = self.n();
                let r0 = row as int;
                let c0 = col as int;
                &&& back <= 4 && fwd <= 4
                &&& deque_cells(d).len() == back + 1 + fwd
                &&& forall|t: int|
                    -back <= t <= fwd ==> in_board(
                        n,
                        #[trigger] axis_cell(a as int, r0, c0, t).0,
                        axis_cell(a as int, r0, c0, t).1,
                    ) && deque_cells(d)[back + t] == self.cells()[cell_index(
                        n,
                        axis_cell(a as int, r0, c0, t).0,
                        axis_cell(a as int, r0, c0, t).1,
                    )]
                &&& back < 4 ==> !in_board(
                    n,
                    axis_cell(a as int, r0, c0, -(back + 1)).0,
                    axis_cell(a as int, r0, c0, -(back + 1)).1,
                )
                &&& fwd < 4 ==> !in_board(
                    n,
                    axis_cell(a as int, r0, c0, fwd + 1).0,
                    axis_cell(a as int, r0, c0, fwd + 1).1,
                )
            }),
    {
        let ghost n = self.n();
        let ghost r0 = row as int;
        let ghost c0 = col as int;
        let ghost ai = a as int;
        proof {
            self.board.lemma_wf();
        }
        let coord = Coord { row, col };
        let mut seg = segment_with_capacity(9);
        segment_push_back(&mut seg, self.board.get_cross_point_at(coord).status);
        let back_md = axis_back_direction(a);
        let fwd_md = axis_direction(a);
        let mut back: usize = 0;
        let mut cur = coord;
        let mut open = true;
        while open && back < 4
            invariant
                self.board.wf(),
                n == self.n(),
                0 <= n <= MAX_SIZE,
                a < 4,
                ai == a,
                back_md == crate::window::axis_back_md(ai),
                back <= 4,
                self.board.valid(cur),
                cur.row == axis_cell(ai, r0, c0, -back).0,
                cur.col == axis_cell(ai, r0, c0, -back).1,
                deque_cells(seg).len() == back + 1,
                forall|t: int|
                    -back <= t <= 0 ==> in_board(
                        n,
                        #[trigger] axis_cell(ai, r0, c0, t).0,
                        axis_cell(ai, r0, c0, t).1,
                    ) && deque_cells(seg)[back + t] == self.cells()[cell_index(
                        n,
                        axis_cell(ai, r0, c0, t).0,
                        axis_cell(ai, r0, c0, t).1,
                    )],
                !open ==> !in_board(
                    n,
                    axis_cell(ai, r0, c0, -(back + 1)).0,
                    axis_cell(ai, r0, c0, -(back + 1)).1,
                ),
            decreases if open { 5 - back } else { 0 },
        {
            match self.board.move_by_coord(cur, back_md) {
                Ok(t) => {
                    let ghost before = deque_cells(seg);
                    segment_push_front(&mut seg, self.board.get_cross_point_at(t).status);
                    proof {
                        assert forall|tt: int|
                            -(back + 1) <= tt <= 0 implies in_board(
                            n,
                            #[trigger] axis_cell(ai, r0, c0, tt).0,
                            axis_cell(ai, r0, c0, tt).1,
                        ) && deque_cells(seg)[back + 1 + tt] == self.cells()[cell_index(
                            n,
                            axis_cell(ai, r0, c0, tt).0,
                            axis_cell(ai, r0, c0, tt).1,
                        )] by {
                            if tt > -(back + 1) {
                                assert(deque_cells(seg)[back + 1 + tt] == before[back + tt]);
                            }
                        }
                    }
                    cur = t;
                    back = back + 1;
                },
                Err(_) => {
                    open = false;
                },
            }
        }
        let mut fwd: usize = 0;
        cur = coord;
        open = true;
        while open && fwd < 4
            invariant
                self.board.wf(),
                n == self.n(),
                0 <= n <= MAX_SIZE,
                a < 4,
                ai == a,
                fwd_md == crate::window::axis_md(ai),
                back <= 4,
                fwd <= 4,
                self.board.valid(cur),
                cur.row == axis_cell(ai, r0, c0, fwd as int).0,
                cur.col == axis_cell(ai, r0, c0, fwd as int).1,
                deque_cells(seg).len() == back + 1 + fwd,
                forall|t: int|
                    -back <= t <= fwd ==> in_board(
                        n,
                        #[trigger] axis_cell(ai, r0, c0, t).0,
                        axis_cell(ai, r0, c0, t).1,
                    ) && deque_cells(seg)[back + t] == self.cells()[cell_index(
                        n,
                        axis_cell(ai, r0, c0, t).0,
                        axis_cell(ai, r0, c0, t).1,
                    )],
                back < 4 ==> !in_board(
                    n,
                    axis_cell(ai, r0, c0, -(back + 1)).0,
                    axis_cell(ai, r0, c0, -(back + 1)).1,
                ),
                !open ==> !in_board(
                    n,
                    axis_cell(ai, r0, c0, fwd + 1).0,
                    axis_cell(ai, r0, c0, fwd + 1).1,
                ),
            decreases if open { 5 - fwd } else { 0 },
        {
            match self.board.move_by_coord(cur, fwd_md) {
                Ok(t) => {
                    let ghost before = deque_cells(seg);
                    segment_push_back(&mut seg, self.board.get_cross_point_at(t).status);
                    proof {
                        assert forall|tt: int|
                            -back <= tt <= fwd + 1 implies in_board(
                            n,
                            #[trigger] axis_cell(ai, r0, c0, tt).0,
                            axis_cell(ai, r0, c0, tt).1,
                        ) && deque_cells(seg)[back + tt] == self.cells()[cell_index(
                            n,
                            axis_cell(ai, r0, c0, tt).0,
                            axis_cell(ai, r0, c0, tt).1,
                        )] by {
                            if tt < fwd + 1 {
                                assert(deque_cells(seg)[back + tt] == before[back + tt]);
                            }
                        }
                    }
                    cur = t;
                    fwd = fwd + 1;
                },
                Err(_) => {
                    open = false;
                },
            }
        }
        (seg, back, fwd)
    }

    /// Brings the score, the counters and the status up to date after
    /// `event`, which the board has just recorded. Along each axis the cells
    /// within four steps of the event's cell are gathered by walking the
    /// board's links (past stones of either colour: a window that holds an
    /// opposing stone changes too), and every window among them that holds
    /// the cell is rescored, at most five per axis. The rest of the board is
    /// not looked at.
    #[verifier::rlimit(40)]
    fn board_updated(&mut self, event: BoardEvent)
        requires
            old(self).board.wf(),
            old(self).tuples_ok(),
            old(self).board.valid(event_detail(event).coord),
            old(self).board.cell_at(event_detail(event).coord) == event_after(event),
            old(self).tracks(
                old(self).cells().update(
                    cell_index(
                        old(self).n(),
                        event_detail(event).coord.row as int,
                        event_detail(event).coord.col as int,
                    ),
                    event_before(event),
                ),
            ),
        ensures
            final(self).wf(),
            final(self).board == old(self).board,
    {
        let d = event.get_coord_and_chess();
        let row = d.coord.row;
        let col = d.coord.col;
        let p = d.chess;
        let is_put = match event {
            BoardEvent::BePutChess(_) => true,
            BoardEvent::BeRemoveChess(_) => false,
        };
        let n = self.board.size();
        let ghost ni = n as int;
        let ghost cells = self.cells();
        let ghost ci = cell_index(ni, row as int, col as int);
        let ghost prior = cells.update(ci, event_before(event));
        let ghost ws = windows(ni);
        let ghost q = crate::cross_point::other_chess(p);
        let ghost mut gs = window_scores(ni, prior);
        let ghost mut gf = five_flags(ni, prior, p);
        proof {
            self.board.lemma_wf();
            lemma_windows_len_bound(ni);
            lemma_five_count(ni, prior, p);
        }
        let mut score = self.score;
        let mut fives: usize = if p == ChessType::CtBlack {
            self.black_fives
        } else {
            self.white_fives
        };
        let mut a: usize = 0;
        while a < 4
            invariant
                self.board == old(self).board,
                self.tuples == old(self).tuples,
                self.board.wf(),
                self.tuples_ok(),
                ni == self.n(),
                n == ni,
                0 <= ni <= MAX_SIZE,
                ws == windows(ni),
                ws.len() <= 4 * MAX_SIZE * MAX_SIZE,
                cells == self.cells(),
                cells.len() == ni * ni,
                row < n,
                col < n,
                ci == cell_index(ni, row as int, col as int),
                prior == cells.update(ci, event_before(event)),
                cells[ci] == event_after(event),
                p == event_detail(event).chess,
                is_put == (event is BePutChess),
                a <= 4,
                gs.len() == ws.len(),
                gf.len() == ws.len(),
                forall|k: int|
                    0 <= k < ws.len() ==> #[trigger] gs[k] == if visited(
                        ws[k],
                        row as int,
                        col as int,
                        a as int,
                        0,
                    ) {
                        window_score(window_cells(ni, cells, ws[k]))
                    } else {
                        window_score(window_cells(ni, prior, ws[k]))
                    },
                forall|k: int|
                    0 <= k < ws.len() ==> #[trigger] gf[k] == if (if visited(
                        ws[k],
                        row as int,
                        col as int,
                        a as int,
                        0,
                    ) {
                        is_five(window_cells(ni, cells, ws[k]), p)
                    } else {
                        is_five(window_cells(ni, prior, ws[k]), p)
                    }) {
                        1int
                    } else {
                        0int
                    },
                score == seq_sum(gs),
                fives == seq_sum(gf),
            decreases 4 - a,
        {
            let (seg, back, fwd) = self.axis_segment(row, col, a);
            let seg_slice = segment_cells(&seg);
            let ghost ai = a as int;
            let mut j: usize = 0;
            while j < 5
                invariant
                    back <= 4 && fwd <= 4,
                    ai == a,
                    seg_slice@.len() == back + 1 + fwd,
                    forall|t: int|
                        -back <= t <= fwd ==> in_board(
                            ni,
                            #[trigger] axis_cell(ai, row as int, col as int, t).0,
                            axis_cell(ai, row as int, col as int, t).1,
                        ) && seg_slice@[back + t] == cells[cell_index(
                            ni,
                            axis_cell(ai, row as int, col as int, t).0,
                            axis_cell(ai, row as int, col as int, t).1,
                        )],
                    back < 4 ==> !in_board(
                        ni,
                        axis_cell(ai, row as int, col as int, -(back + 1)).0,
                        axis_cell(ai, row as int, col as int, -(back + 1)).1,
                    ),
                    fwd < 4 ==> !in_board(
                        ni,
                        axis_cell(ai, row as int, col as int, fwd + 1).0,
                        axis_cell(ai, row as int, col as int, fwd + 1).1,
                    ),
                    self.board == old(self).board,
                    self.tuples == old(self).tuples,
                    self.board.wf(),
                    self.tuples_ok(),
                    ni == self.n(),
                    n == ni,
                    0 <= ni <= MAX_SIZE,
                    ws == windows(ni),
                    ws.len() <= 4 * MAX_SIZE * MAX_SIZE,
                    cells == self.cells(),
                    cells.len() == ni * ni,
                    row < n,
                    col < n,
                    ci == cell_index(ni, row as int, col as int),
                    prior == cells.update(ci, event_before(event)),
                    cells[ci] == event_after(event),
                    p == event_detail(event).chess,
                    is_put == (event is BePutChess),
                    a < 4,
                    j <= 5,
                    gs.len() == ws.len(),
                    gf.len() == ws.len(),
                    forall|k: int|
                        0 <= k < ws.len() ==> #[trigger] gs[k] == if visited(
                            ws[k],
                            row as int,
                            col as int,
                            a as int,
                            j as int,
                        ) {
                            window_score(window_cells(ni, cells, ws[k]))
                        } else {
                            window_score(window_cells(ni, prior, ws[k]))
                        },
                    forall|k: int|
                        0 <= k < ws.len() ==> #[trigger] gf[k] == if (if visited(
                            ws[k],
                            row as int,
                            col as int,
                            a as int,
                            j as int,
                        ) {
                            is_five(window_cells(ni, cells, ws[k]), p)
                        } else {
                            is_five(window_cells(ni, prior, ws[k]), p)
                        }) {
                            1int
                        } else {
                            0int
                        },
                    score == seq_sum(gs),
                    fives == seq_sum(gf),
                decreases 5 - j,
            {
                if j <= back && j + fwd >= 4 {
                    // the window of axis `a` that has the cell at position `j`
                    let ghost start = axis_cell(ai, row as int, col as int, -(j as int));
                    let ghost k = crate::window::window_index(ni, ai, start.0, start.1);
                    proof {
                        // its first and last cells are on the board
                        assert(in_board(ni, start.0, start.1));
                        assert(in_board(
                            ni,
                            axis_cell(ai, row as int, col as int, 4 - j).0,
                            axis_cell(ai, row as int, col as int, 4 - j).1,
                        ));
                        lemma_window_at(ni, ai, start.0, start.1);
                    }
                    let ghost w = ws[k];
                    proof {
                        lemma_window_change(ni, w, row as int, col as int, cells, event_before(event));
                    }
                    let first = back - j;
                    let mut states: Vec<CrossPointType> = Vec::new();
                    let mut i: usize = 0;
                    while i < 5
                        invariant
                            i <= 5,
                            first <= 4,
                            first + 5 <= seg_slice@.len(),
                            states@ == seg_slice@.subrange(first as int, first + i),
                        decreases 5 - i,
                    {
                        states.push(seg_slice[first + i]);
                        i = i + 1;
                    }
                    proof {
                        assert forall|i: int| 0 <= i < 5 implies #[trigger] states@[i]
                            == window_cells(ni, cells, w)[i] by {
                            assert(window_cell(w, i) == axis_cell(ai, row as int, col as int, i - j));
                        }
                        assert(states@ =~= window_cells(ni, cells, w));
                    }
                    let full_after = is_put && count_cells(
                        states.as_slice(),
                        CrossPointType::CptChess(p),
                    ) == 5;
                    let delta = self.evaluation_dfa.evaluate_event(states.as_mut_slice(), j, event);
                    let full_before = !is_put && count_cells(
                        states.as_slice(),
                        CrossPointType::CptChess(p),
                    ) == 5;
                    let ghost new_score = window_score(window_cells(ni, cells, w));
                    let ghost new_flag = if is_five(window_cells(ni, cells, w), p) {
                        1int
                } else {
                        0int
                    };
                    proof {
                        // the flag before the event, and after it, in the window
                        if is_put {
                            lemma_count_of_lt(window_cells(ni, prior, w), CrossPointType::CptChess(p), j as int);
                        } else {
                            lemma_count_of_lt(window_cells(ni, cells, w), CrossPointType::CptChess(p), j as int);
                        }
                        assert(!visited(w, row as int, col as int, a as int, j as int));
                        lemma_sum_update(gs, k, new_score);
                        lemma_sum_update(gf, k, new_flag);
                        let gs2 = gs.update(k, new_score);
                        assert forall|kk: int| 0 <= kk < ws.len() implies 0 <= #[trigger] gs2[kk]
                            <= MAX_WINDOW_SCORE by {
                            lemma_window_score_bounds(window_cells(ni, cells, ws[kk]));
                            lemma_window_score_bounds(window_cells(ni, prior, ws[kk]));
                        }
                        lemma_sum_bounds(gs2, MAX_WINDOW_SCORE as int);
                        assert(gs2.len() * MAX_WINDOW_SCORE <= 4 * MAX_SIZE * MAX_SIZE * MAX_WINDOW_SCORE)
                            by (nonlinear_arith)
                            requires
                                gs2.len() <= 4 * MAX_SIZE * MAX_SIZE,
                        ;
                        let gf2 = gf.update(k, new_flag);
                        assert forall|kk: int| 0 <= kk < ws.len() implies 0 <= #[trigger] gf2[kk]
                            <= 1 by {}
                        lemma_sum_bounds(gf2, 1);
                        // only window `k` changes its visited mark
                        assert forall|kk: int| 0 <= kk < ws.len() && kk != k implies visited(
                            #[trigger] ws[kk],
                            row as int,
                            col as int,
                            a as int,
                            j + 1,
                        ) == visited(ws[kk], row as int, col as int, a as int, j as int) by {
                            lemma_windows_index(ni, kk);
                            lemma_windows_index(ni, k);
                            if ws[kk].0 == a && pos_in_window(ws[kk], row as int, col as int) == j {
                                assert(ws[kk] == ws[k]);
                                lemma_windows_distinct(ni, kk, k);
                            }
                        }
                        gs = gs2;
                        gf = gf2;
                    }
                    score = score + delta;
                    if full_after {
                        fives = fives + 1;
                    } else if full_before {
                        fives = fives - 1;
                    }
                } else {
                    proof {
                        // no window of axis `a` has the cell at position `j`: one
                        // of its cells would be the cell where the walk stopped
                        assert forall|kk: int| 0 <= kk < ws.len() implies !(#[trigger] ws[kk].0 == a
                            && pos_in_window(ws[kk], row as int, col as int) == j) by {
                            lemma_windows_index(ni, kk);
                            if ws[kk].0 == a && pos_in_window(ws[kk], row as int, col as int) == j {
                                if j > back {
                                    let i = j - back - 1;
                                    crate::window::lemma_window_cells_in_board(ni, ws[kk], i);
                                    assert(window_cell(ws[kk], i) == axis_cell(ai, row as int, col as int, -(back + 1)));
                                } else {
                                    let i = j + fwd + 1;
                                    crate::window::lemma_window_cells_in_board(ni, ws[kk], i);
                                    assert(window_cell(ws[kk], i) == axis_cell(ai, row as int, col as int, fwd + 1));
                                }
                            }
                        }
                    }
                }
                j = j + 1;
            }
            a = a + 1;
        }
        proof {
            assert forall|k: int| 0 <= k < ws.len() implies #[trigger] gs[k] == window_scores(ni, cells)[k] by {
                lemma_windows_index(ni, k);
                lemma_window_change(ni, ws[k], row as int, col as int, cells, event_before(event));
            }
            assert forall|k: int| 0 <= k < ws.len() implies #[trigger] gf[k] == five_flags(ni, cells, p)[k] by {
                lemma_windows_index(ni, k);
                lemma_window_change(ni, ws[k], row as int, col as int, cells, event_before(event));
            }
            assert(gs =~= window_scores(ni, cells));
            assert(gf =~= five_flags(ni, cells, p));
            // the other colour's full windows are untouched
            assert forall|k: int| 0 <= k < ws.len() implies #[trigger] five_flags(ni, cells, q)[k]
                == five_flags(ni, prior, q)[k] by {
                lemma_windows_index(ni, k);
                let w = ws[k];
                lemma_window_change(ni, w, row as int, col as int, cells, event_before(event));
                let j = pos_in_window(w, row as int, col as int);
                if j >= 0 {
                    lemma_count_of_lt(window_cells(ni, cells, w), CrossPointType::CptChess(q), j);
                    lemma_count_of_lt(window_cells(ni, prior, w), CrossPointType::CptChess(q), j);
                }
            }
            assert(five_flags(ni, cells, q) =~= five_flags(ni, prior, q));
            lemma_five_count(ni, cells, ChessType::CtBlack);
            lemma_five_count(ni, cells, ChessType::CtWhite);
        }
        self.score = score;
        if p == ChessType::CtBlack {
            self.black_fives = fives;
        } else {
            self.white_fives = fives;
        }
        self.status = status_for(self.black_fives, self.white_fives);
    }

    /// Places a stone, then brings the score and status up to date.
    pub fn put_chess_at(&mut self, coord: Coord, chess: ChessType) -> (r: Result<(), Error>)
        requires
            old(self).wf(),
        ensures
            final(self).wf(),
            final(self).n() == old(self).n(),
            !old(self).spec_board().valid(coord) ==> (r matches Err(e) && e.kind
                == ErrorKind::OutOfBounds),
            old(self).spec_board().valid(coord) && old(self).spec_board().cell_at(coord)
                != CrossPointType::CptEmpty ==> (r matches Err(e) && e.kind
                == ErrorKind::CellOccupied),
            old(self).spec_board().valid(coord) && old(self).spec_board().cell_at(coord)
                == CrossPointType::CptEmpty ==> r is Ok,
            r is Ok ==> final(self).cells() == old(self).cells().update(
                cell_index(old(self).n(), coord.row as int, coord.col as int),
                CrossPointType::CptChess(chess),
            ),
            r is Err ==> final(self).cells() == old(self).cells(),
    {
        proof {
            self.board.lemma_wf();
        }
        let ghost was_empty = self.board.valid(coord) && self.board.cell_at(coord)
            == CrossPointType::CptEmpty;
        match self.board.put_chess_at(coord, chess) {
            Ok(event) => {
                assert(was_empty);
                assert(event == BoardEvent::BePutChess(crate::board::CoordAndChess { coord, chess }));
                proof {
                    let ci = cell_index(self.n(), coord.row as int, coord.col as int);
                    crate::board::lemma_cell_index_bounds(self.n(), coord.row as int, coord.col as int);
                    assert(self.cells().update(ci, CrossPointType::CptEmpty) =~= old(self).cells());
                }
                self.board_updated(event);
                Ok(())
            },
            Err(e) => Err(e),
        }
    }

    /// Takes a stone off, then brings the score and status up to date.
    /// Returns the colour that was there.
    pub fn remove_chess_at(&mut self, coord: Coord) -> (r: Result<ChessType, Error>)
        requires
            old(self).wf(),
        ensures
            final(self).wf(),
            final(self).n() == old(self).n(),
            !old(self).spec_board().valid(coord) ==> (r matches Err(e) && e.kind
                == ErrorKind::OutOfBounds),
            old(self).spec_board().valid(coord) && old(self).spec_board().cell_at(coord)
                == CrossPointType::CptEmpty ==> (r matches Err(e) && e.kind == ErrorKind::CellEmpty),
            old(self).spec_board().valid(coord) ==> forall|c: ChessType|
                old(self).spec_board().cell_at(coord) == CrossPointType::CptChess(c) ==> r == Ok::<
                    ChessType,
                    Error,
                >(c),
            r is Ok ==> final(self).cells() == old(self).cells().update(
                cell_index(old(self).n(), coord.row as int, coord.col as int),
                CrossPointType::CptEmpty,
            ),
            r is Err ==> final(self).cells() == old(self).cells(),
    {
        proof {
            self.board.lemma_wf();
        }
        let ghost was_valid = self.board.valid(coord);
        let ghost was = self.board.cell_at(coord);
        match self.board.remove_chess_at(coord) {
            Ok(event) => {
                let chess = event.get_chess();
                assert(was_valid && was != CrossPointType::CptEmpty);
                assert(was == CrossPointType::CptChess(chess));
                proof {
                    let ci = cell_index(self.n(), coord.row as int, coord.col as int);
                    crate::board::lemma_cell_index_bounds(self.n(), coord.row as int, coord.col as int);
                    assert(self.cells().update(ci, CrossPointType::CptChess(chess)) =~= old(self).cells());
                }
                self.board_updated(event);
                Ok(chess)
            },
            Err(e) => Err(e),
        }
    }

    /// Status of the position from a scan of every window.
    pub fn check_game_status(&self) -> (r: GameStatus)
        requires
            self.wf(),
        ensures
            r == status_of(self.n(), self.cells()),
    {
        let black = self.count_fives(ChessType::CtBlack);
        let white = self.count_fives(ChessType::CtWhite);
        proof {
            self.board.lemma_wf();
            lemma_five_count(self.n(), self.cells(), ChessType::CtBlack);
            lemma_five_count(self.n(), self.cells(), ChessType::CtWhite);
        }
        status_for(black, white)
    }

    /// Status of the position, as kept up to date move by move.
    pub fn game_status(&self) -> (r: GameStatus)
        requires
            self.wf(),
        ensures
            r == status_of(self.n(), self.cells()),
    {
        self.status
    }

    /// Score of the position, as kept up to date move by move.
    pub fn get_evaluation(&self) -> (r: i64)
        requires
            self.wf(),
        ensures
            r == total_score(self.n(), self.cells()),
    {
        self.score
    }

    /// Number of windows on the board.
    pub fn window_count(&self) -> (r: usize)
        requires
            self.wf(),
        ensures
            r == windows(self.n()).len(),
    {
        self.tuples.len()
    }

    /// Aggregate score of every cell, in cell order.
    fn cell_scores(&self) -> (r: Vec<i64>)
        requires
            self.wf(),
        ensures
            r@.len() == self.n() * self.n(),
            forall|xr: int, xc: int|
                in_board(self.n(), xr, xc) ==> #[trigger] r@[cell_index(self.n(), xr, xc)]
                    == cell_score(self.n(), self.cells(), xr, xc),
    {
        let n = self.board.size();
        let total = self.board.cp_count();
        let ghost ni = n as int;
        let ghost cells = self.cells();
        let ghost ws = windows(ni);
        proof {
            self.board.lemma_wf();
            lemma_windows_len_bound(ni);
        }
        let mut cp_score: Vec<i64> = Vec::new();
        while cp_score.len() < total
            invariant
                cp_score@.len() <= total,
                forall|x: int| 0 <= x < cp_score@.len() ==> #[trigger] cp_score@[x] == 0,
            decreases total - cp_score@.len(),
        {
            cp_score.push(0);
        }
        proof {
            assert forall|xr: int, xc: int| in_board(ni, xr, xc) implies #[trigger] cp_score@[cell_index(
                ni,
                xr,
                xc,
            )] == seq_sum(cell_weights(ni, cells, xr, xc).take(0)) by {
                crate::board::lemma_cell_index_bounds(ni, xr, xc);
            }
        }
        let mut k: usize = 0;
        while k < self.tuples.len()
            invariant
                self.wf(),
                ni == self.n(),
                n == ni,
                0 <= ni <= MAX_SIZE,
                total == ni * ni,
                cells == self.cells(),
                ws == windows(ni),
                ws.len() <= 4 * MAX_SIZE * MAX_SIZE,
                k <= ws.len(),
                cp_score@.len() == total,
                forall|xr: int, xc: int|
                    in_board(ni, xr, xc) ==> #[trigger] cp_score@[cell_index(ni, xr, xc)] == seq_sum(
                        cell_weights(ni, cells, xr, xc).take(k as int),
                    ),
            decreases ws.len() - k,
        {
            let s = self.tuple_score(k);
            let t = &self.tuples[k];
            let ghost w = ws[k as int];
            proof {
                self.lemma_tuple(k as int);
                lemma_window_score_bounds(window_cells(ni, cells, w));
            }
            let mut i: usize = 0;
            while i < 5
                invariant
                    self.wf(),
                    ni == self.n(),
                    n == ni,
                    0 <= ni <= MAX_SIZE,
                    total == ni * ni,
                    cells == self.cells(),
                    ws == windows(ni),
                    ws.len() <= 4 * MAX_SIZE * MAX_SIZE,
                    k < ws.len(),
                    w == ws[k as int],
                    *t == self.tuples@[k as int],
                    window_fits(ni, w),
                    tuple_models(ni, *t, w),
                    s == window_score(window_cells(ni, cells, w)),
                    0 <= s <= MAX_WINDOW_SCORE,
                    i <= 5,
                    cp_score@.len() == total,
                    forall|xr: int, xc: int|
                        in_board(ni, xr, xc) ==> #[trigger] cp_score@[cell_index(ni, xr, xc)]
                            == seq_sum(cell_weights(ni, cells, xr, xc).take(k as int)) + if 0
                            <= pos_in_window(w, xr, xc) < i {
                            s as int
                        } else {
                            0
                        },
                decreases 5 - i,
            {
                let c = t.coord_at(i);
                proof {
                    assert(crate::tuple::on_line(t.spec_coords()[i as int], t.spec_coords()[0], t.spec_md(), i as int));
                    assert(c.row == window_cell(w, i as int).0 && c.col == window_cell(w, i as int).1);
                    crate::window::lemma_window_cells_in_board(ni, w, i as int);
                    lemma_pos_in_window(ni, w, c.row as int, c.col as int, i as int);
                    crate::board::lemma_cell_index_bounds(ni, c.row as int, c.col as int);
                    let wt = cell_weights(ni, cells, c.row as int, c.col as int).take(k as int);
                    assert forall|x: int| 0 <= x < wt.len() implies 0 <= #[trigger] wt[x]
                        <= MAX_WINDOW_SCORE by {
                        lemma_window_score_bounds(window_cells(ni, cells, ws[x]));
                    }
                    lemma_sum_bounds(wt, MAX_WINDOW_SCORE as int);
                    assert(wt.len() * MAX_WINDOW_SCORE + MAX_WINDOW_SCORE <= 4 * MAX_SIZE * MAX_SIZE
                        * MAX_WINDOW_SCORE) by (nonlinear_arith)
                        requires
                            wt.len() < 4 * MAX_SIZE * MAX_SIZE,
                    ;
                }
                let idx = c.row * n + c.col;
                let ghost before = cp_score@;
                cp_score[idx] = cp_score[idx] + s;
                proof {
                    assert forall|xr: int, xc: int| in_board(ni, xr, xc) implies #[trigger] cp_score@[cell_index(
                        ni,
                        xr,
                        xc,
                    )] == seq_sum(cell_weights(ni, cells, xr, xc).take(k as int)) + if 0
                        <= pos_in_window(w, xr, xc) < i + 1 {
                        s as int
                    } else {
                        0
                    } by {
                        lemma_pos_in_window(ni, w, xr, xc, i as int);
                        crate::board::lemma_cell_index_bounds(ni, xr, xc);
                        if cell_index(ni, xr, xc) == idx {
                            crate::board::lemma_cell_index_unique(ni, xr, xc, c.row as int, c.col as int);
                        } else {
                            assert(before[cell_index(ni, xr, xc)] == cp_score@[cell_index(ni, xr, xc)]);
                            if xr == c.row && xc == c.col {
                                assert(false);
                            }
                        }
                    }
                }
                i = i + 1;
            }
            proof {
                assert forall|xr: int, xc: int| in_board(ni, xr, xc) implies #[trigger] cp_score@[cell_index(
                    ni,
                    xr,
                    xc,
                )] == seq_sum(cell_weights(ni, cells, xr, xc).take(k + 1)) by {
                    lemma_sum_take(cell_weights(ni, cells, xr, xc), k as int);
                }
            }
            k = k + 1;
        }
        proof {
            assert forall|xr: int, xc: int| in_board(ni, xr, xc) implies #[trigger] cp_score@[cell_index(
                ni,
                xr,
                xc,
            )] == cell_score(ni, cells, xr, xc) by {
                let wt = cell_weights(ni, cells, xr, xc);
                assert(wt.take(wt.len() as int) =~= wt);
            }
        }
        cp_score
    }

    /// The empty cell with the highest aggregate score, the first in
    /// row-major order among equals; `None` when no cell is empty.
    pub fn get_simple_play(&self) -> (r: Option<Coord>)
        requires
            self.wf(),
        ensures
            match r {
                None => forall|xr: int, xc: int|
                    in_board(self.n(), xr, xc) ==> #[trigger] self.cells()[cell_index(self.n(), xr, xc)]
                        != CrossPointType::CptEmpty,
                Some(b) => {
                    &&& self.spec_board().valid(b)
                    &&& self.spec_board().cell_at(b) == CrossPointType::CptEmpty
                    &&& forall|xr: int, xc: int|
                        in_board(self.n(), xr, xc) && #[trigger] self.cells()[cell_index(
                            self.n(),
                            xr,
                            xc,
                        )] == CrossPointType::CptEmpty ==> cell_score(self.n(), self.cells(), xr, xc)
                            <= cell_score(self.n(), self.cells(), b.row as int, b.col as int) && (
                        cell_index(self.n(), xr, xc) < cell_index(
                            self.n(),
                            b.row as int,
                            b.col as int,
                        ) ==> cell_score(self.n(), self.cells(), xr, xc) < cell_score(
                            self.n(),
                            self.cells(),
                            b.row as int,
                            b.col as int,
                        ))
                },
            },
    {
        let n = self.board.size();
        let ghost ni = n as int;
        let ghost cells = self.cells();
        let cp_score = self.cell_scores();
        proof {
            self.board.lemma_wf();
        }
        let mut best: Option<Coord> = None;
        let mut best_score: i64 = 0;
        let mut row: usize = 0;
        while row < n
            invariant
                self.wf(),
                ni == self.n(),
                n == ni,
                0 <= ni <= MAX_SIZE,
                cells == self.cells(),
                cells.len() == ni * ni,
                row <= n,
                cp_score@.len() == ni * ni,
                forall|xr: int, xc: int|
                    in_board(ni, xr, xc) ==> #[trigger] cp_score@[cell_index(ni, xr, xc)]
                        == cell_score(ni, cells, xr, xc),
                match best {
                    None => forall|xr: int, xc: int|
                        in_board(ni, xr, xc) && xr < row ==> #[trigger] cells[cell_index(ni, xr, xc)]
                            != CrossPointType::CptEmpty,
                    Some(b) => {
                        &&& b.row < row && b.col < n
                        &&& cells[cell_index(ni, b.row as int, b.col as int)] == CrossPointType::CptEmpty
                        &&& best_score == cell_score(ni, cells, b.row as int, b.col as int)
                        &&& forall|xr: int, xc: int|
                            in_board(ni, xr, xc) && xr < row && #[trigger] cells[cell_index(ni, xr, xc)]
                                == CrossPointType::CptEmpty ==> cell_score(ni, cells, xr, xc)
                                <= best_score && (cell_index(ni, xr, xc) < cell_index(
                                ni,
                                b.row as int,
                                b.col as int,
                            ) ==> cell_score(ni, cells, xr, xc) < best_score)
                    },
                },
            decreases n - row,
        {
            let mut col: usize = 0;
            while col < n
                invariant
                    self.wf(),
                    ni == self.n(),
                    n == ni,
                    0 <= ni <= MAX_SIZE,
                    cells == self.cells(),
                    cells.len() == ni * ni,
                    row < n,
                    col <= n,
                    cp_score@.len() == ni * ni,
                    forall|xr: int, xc: int|
                        in_board(ni, xr, xc) ==> #[trigger] cp_score@[cell_index(ni, xr, xc)]
                            == cell_score(ni, cells, xr, xc),
                    match best {
                        None => forall|xr: int, xc: int|
                            in_board(ni, xr, xc) && (xr < row || (xr == row && xc < col))
                                ==> #[trigger] cells[cell_index(ni, xr, xc)] != CrossPointType::CptEmpty,
                        Some(b) => {
                            &&& (b.row < row || (b.row == row && b.col < col)) && b.col < n
                            &&& cells[cell_index(ni, b.row as int, b.col as int)]
                                == CrossPointType::CptEmpty
                            &&& best_score == cell_score(ni, cells, b.row as int, b.col as int)
                            &&& forall|xr: int, xc: int|
                                in_board(ni, xr, xc) && (xr < row || (xr == row && xc < col))
                                    && #[trigger] cells[cell_index(ni, xr, xc)]
                                    == CrossPointType::CptEmpty ==> cell_score(ni, cells, xr, xc)
                                    <= best_score && (cell_index(ni, xr, xc) < cell_index(
                                    ni,
                                    b.row as int,
                                    b.col as int,
                                ) ==> cell_score(ni, cells, xr, xc) < best_score)
                        },
                    },
                decreases n - col,
            {
                let coord = Coord { row, col };
                proof {
                    crate::board::lemma_cell_index_bounds(ni, row as int, col as int);
                    assert(ni * ni <= MAX_SIZE * MAX_SIZE) by (nonlinear_arith)
                        requires
                            0 <= ni <= MAX_SIZE,
                    ;
                }
                if !self.board.have_chess_at(coord) {
                    let idx = row * n + col;
                    let v = cp_score[idx];
                    let take = match best {
                        None => true,
                        Some(_) => v > best_score,
                    };
                    if take {
                        proof {
                            assert forall|xr: int, xc: int|
                                in_board(ni, xr, xc) && (xr < row || (xr == row && xc < col))
                                    && #[trigger] cells[cell_index(ni, xr, xc)]
                                    == CrossPointType::CptEmpty implies cell_index(ni, xr, xc)
                                < cell_index(ni, row as int, col as int) by {
                                if xr < row {
                                    assert((xr + 1) * ni <= row * ni) by (nonlinear_arith)
                                        requires
                                            xr + 1 <= row,
                                            ni >= 0,
                                    ;
                                    assert(xr * ni + ni == (xr + 1) * ni) by (nonlinear_arith);
                                }
                            }
                        }
                        best = Some(coord);
                        best_score = v;
                    } else {
                        proof {
                            let b = best.unwrap();
                            if b.row < row {
                                assert((b.row + 1) * ni <= row * ni) by (nonlinear_arith)
                                    requires
                                        b.row + 1 <= row,
                                        ni >= 0,
                                ;
                                assert(b.row * ni + ni == (b.row + 1) * ni) by (nonlinear_arith);
                            }
                        }
                    }
                }
                col = col + 1;
            }
            row = row + 1;
        }
        best
    }
}

/// On a board with no stone no window is full, so the game goes on.
pub proof fn lemma_empty_board_continues(n: int, cells: Seq<CrossPointType>)
    requires
        0 <= n <= MAX_SIZE,
        cells.len() == n * n,
        forall|i: int| 0 <= i < cells.len() ==> cells[i] == CrossPointType::CptEmpty,
    ensures
        status_of(n, cells) == GameStatus::GsGameContinue,
{
    assert forall|k: int, p: ChessType|
        0 <= k < windows(n).len() implies !#[trigger] is_five(window_cells(n, cells, windows(n)[k]), p) by {
        lemma_windows_index(n, k);
        crate::window::lemma_window_cells_in_board(n, windows(n)[k], 0);
        let c = window_cell(windows(n)[k], 0);
        crate::board::lemma_cell_index_bounds(n, c.0, c.1);
        lemma_count_of_lt(window_cells(n, cells, windows(n)[k]), CrossPointType::CptChess(p), 0);
    }
}

/// Placing a stone on an empty cell and then taking it off again gives back
/// the position, so the score (and status) are what they were.
pub proof fn lemma_place_remove_restores_score(
    n: int,
    cells: Seq<CrossPointType>,
    r: int,
    c: int,
    p: ChessType,
)
    requires
        in_board(n, r, c),
        cells.len() == n * n,
        cells[cell_index(n, r, c)] == CrossPointType::CptEmpty,
    ensures
        ({
            let i = cell_index(n, r, c);
            let back = cells.update(i, CrossPointType::CptChess(p)).update(i, CrossPointType::CptEmpty);
            &&& total_score(n, back) == total_score(n, cells)
            &&& status_of(n, back) == status_of(n, cells)
        }),
{
    let i = cell_index(n, r, c);
    crate::board::lemma_cell_index_bounds(n, r, c);
    assert(cells.update(i, CrossPointType::CptChess(p)).update(i, CrossPointType::CptEmpty) =~= cells);
}

/// The cells after stones of colour `p` are placed on the first `m` cells of window `w`.
pub open spec fn fill_window(
    n: int,
    cells: Seq<CrossPointType>,
    w: (int, int, int),
    p: ChessType,
    m: nat,
) -> Seq<CrossPointType>
    decreases m,
{
    if m == 0 {
        cells
    } else {
        fill_window(n, cells, w, p, (m - 1) as nat).update(
            cell_index(n, window_cell(w, m - 1).0, window_cell(w, m - 1).1),
            CrossPointType::CptChess(p),
        )
    }
}

proof fn lemma_fill_window(
    n: int,
    cells: Seq<CrossPointType>,
    w: (int, int, int),
    p: ChessType,
    m: nat,
)
    requires
        n >= 0,
        window_fits(n, w),
        cells.len() == n * n,
        m <= 5,
    ensures
        fill_window(n, cells, w, p, m).len() == cells.len(),
        forall|t: int|
            0 <= t < m ==> #[trigger] fill_window(n, cells, w, p, m)[cell_index(
                n,
                window_cell(w, t).0,
                window_cell(w, t).1,
            )] == CrossPointType::CptChess(p),
        forall|y: int|
            0 <= y < cells.len() && #[trigger] fill_window(n, cells, w, p, m)[y] != cells[y]
                ==> exists|t: int|
                0 <= t < m && y == #[trigger] cell_index(n, window_cell(w, t).0, window_cell(w, t).1),
    decreases m,
{
    if m > 0 {
        let mm = (m - 1) as nat;
        lemma_fill_window(n, cells, w, p, mm);
        crate::window::lemma_window_cells_in_board(n, w, mm as int);
        crate::board::lemma_cell_index_bounds(n, window_cell(w, mm as int).0, window_cell(w, mm as int).1);
        let prev = fill_window(n, cells, w, p, mm);
        let x = cell_index(n, window_cell(w, mm as int).0, window_cell(w, mm as int).1);
        assert forall|t: int| 0 <= t < m implies #[trigger] fill_window(n, cells, w, p, m)[cell_index(
            n,
            window_cell(w, t).0,
            window_cell(w, t).1,
        )] == CrossPointType::CptChess(p) by {
            crate::window::lemma_window_cells_in_board(n, w, t);
            crate::board::lemma_cell_index_bounds(n, window_cell(w, t).0, window_cell(w, t).1);
        }
        assert forall|y: int|
            0 <= y < cells.len() && #[trigger] fill_window(n, cells, w, p, m)[y] != cells[y] implies exists|t: int|
            0 <= t < m && y == #[trigger] cell_index(n, window_cell(w, t).0, window_cell(w, t).1) by {
            if y != x {
                assert(prev[y] != cells[y]);
                let t = choose|t: int|
                    0 <= t < mm && y == #[trigger] cell_index(n, window_cell(w, t).0, window_cell(w, t).1);
            }
        }
    }
}

/// A window full of colour `c` has every cell of colour `c`.
proof fn lemma_five_cells(s: Seq<CrossPointType>, c: ChessType, t: int)
    requires
        s.len() == 5,
        is_five(s, c),
        0 <= t < 5,
    ensures
        s[t] == CrossPointType::CptChess(c),
{
    if s[t] != CrossPointType::CptChess(c) {
        lemma_count_of_lt(s, CrossPointType::CptChess(c), t);
    }
}

/// When the five cells of window `v` all lie in window `w`, they cover
/// every cell of `w`, so cell `i` of `w` is among them.
proof fn lemma_window_in_window(
    w: (int, int, int),
    v: (int, int, int),
    i: int,
    m0: int,
    m1: int,
    m2: int,
    m3: int,
    m4: int,
)
    requires
        0 <= w.0 < 4,
        0 <= v.0 < 4,
        0 <= i < 5,
        0 <= m0 < 5,
        0 <= m1 < 5,
        0 <= m2 < 5,
        0 <= m3 < 5,
        0 <= m4 < 5,
        window_cell(v, 0) == window_cell(w, m0),
        window_cell(v, 1) == window_cell(w, m1),
        window_cell(v, 2) == window_cell(w, m2),
        window_cell(v, 3) == window_cell(w, m3),
        window_cell(v, 4) == window_cell(w, m4),
    ensures
        m0 == i || m1 == i || m2 == i || m3 == i || m4 == i,
{
}

/// Where window `v` is full of colour `c` after stones of colour `p` went
/// on all five cells of window `w`, and `c` is not `p`, `v` was already full
/// of `c` before.
proof fn lemma_other_five_was_there(
    n: int,
    cells: Seq<CrossPointType>,
    w: (int, int, int),
    p: ChessType,
    c: ChessType,
    v: (int, int, int),
    after: Seq<CrossPointType>,
)
    requires
        0 <= n,
        window_fits(n, w),
        window_fits(n, v),
        cells.len() == n * n,
        c != p,
        after.len() == cells.len(),
        forall|y: int|
            0 <= y < cells.len() && after[y] != cells[y] ==> after[y] == CrossPointType::CptEmpty
                || after[y] == CrossPointType::CptChess(p),
        is_five(window_cells(n, after, v), c),
    ensures
        is_five(window_cells(n, cells, v), c),
{
    assert forall|t: int| 0 <= t < 5 implies #[trigger] window_cells(n, cells, v)[t]
        == CrossPointType::CptChess(c) by {
        lemma_five_cells(window_cells(n, after, v), c, t);
        crate::window::lemma_window_cells_in_board(n, v, t);
        crate::board::lemma_cell_index_bounds(n, window_cell(v, t).0, window_cell(v, t).1);
    }
    crate::evaluation_dfa::lemma_count_of_all(window_cells(n, cells, v), CrossPointType::CptChess(c));
}

/// Five stones of one colour placed in a row along any axis, on a position
/// where the game was going on, end the game in that colour's favour. If
/// that colour had no other stone on the board, taking any one of the five
/// away again lets the game go on.
pub proof fn lemma_five_in_a_row(
    n: int,
    cells: Seq<CrossPointType>,
    w: (int, int, int),
    p: ChessType,
    i: int,
)
    requires
        0 <= n <= MAX_SIZE,
        cells.len() == n * n,
        window_fits(n, w),
        status_of(n, cells) == GameStatus::GsGameContinue,
        forall|t: int|
            0 <= t < 5 ==> #[trigger] cells[cell_index(n, window_cell(w, t).0, window_cell(w, t).1)]
                == CrossPointType::CptEmpty,
        0 <= i < 5,
    ensures
        status_of(n, fill_window(n, cells, w, p, 5)) == GameStatus::GsGameOver(p),
        (forall|y: int| 0 <= y < cells.len() ==> cells[y] != CrossPointType::CptChess(p)) ==> status_of(
            n,
            fill_window(n, cells, w, p, 5).update(
                cell_index(n, window_cell(w, i).0, window_cell(w, i).1),
                CrossPointType::CptEmpty,
            ),
        ) == GameStatus::GsGameContinue,
{
    let placed = fill_window(n, cells, w, p, 5);
    let q = crate::cross_point::other_chess(p);
    lemma_fill_window(n, cells, w, p, 5);
    lemma_window_at(n, w.0, w.1, w.2);
    let k = crate::window::window_index(n, w.0, w.1, w.2);
    // the window itself is full of `p`
    crate::evaluation_dfa::lemma_count_of_all(window_cells(n, placed, w), CrossPointType::CptChess(p));
    assert(is_five(window_cells(n, placed, windows(n)[k]), p));
    // the other colour gained no full window
    assert forall|y: int| 0 <= y < cells.len() && placed[y] != cells[y] implies placed[y]
        == CrossPointType::CptEmpty || placed[y] == CrossPointType::CptChess(p) by {
        let t = choose|t: int| 0 <= t < 5 && y == #[trigger] cell_index(n, window_cell(w, t).0, window_cell(w, t).1);
        assert(placed[cell_index(n, window_cell(w, t).0, window_cell(w, t).1)] == CrossPointType::CptChess(p));
    }
    if has_five(n, placed, q) {
        let kk = choose|kk: int| 0 <= kk < windows(n).len() && is_five(window_cells(n, placed, #[trigger] windows(n)[kk]), q);
        lemma_windows_index(n, kk);
        lemma_other_five_was_there(n, cells, w, p, q, windows(n)[kk], placed);
        assert(has_five(n, cells, q));
    }
    let x = cell_index(n, window_cell(w, i).0, window_cell(w, i).1);
    let removed = placed.update(x, CrossPointType::CptEmpty);
    if forall|y: int| 0 <= y < cells.len() ==> cells[y] != CrossPointType::CptChess(p) {
        crate::window::lemma_window_cells_in_board(n, w, i);
        crate::board::lemma_cell_index_bounds(n, window_cell(w, i).0, window_cell(w, i).1);
        assert forall|y: int| 0 <= y < cells.len() && removed[y] != cells[y] implies removed[y]
            == CrossPointType::CptEmpty || removed[y] == CrossPointType::CptChess(p) by {
            if y != x {
                assert(placed[y] != cells[y]);
            }
        }
        if has_five(n, removed, q) {
            let kk = choose|kk: int| 0 <= kk < windows(n).len() && is_five(window_cells(n, removed, #[trigger] windows(n)[kk]), q);
            lemma_windows_index(n, kk);
            lemma_other_five_was_there(n, cells, w, p, q, windows(n)[kk], removed);
            assert(has_five(n, cells, q));
        }
        if has_five(n, removed, p) {
            let kk = choose|kk: int| 0 <= kk < windows(n).len() && is_five(window_cells(n, removed, #[trigger] windows(n)[kk]), p);
            let v = windows(n)[kk];
            lemma_windows_index(n, kk);
            // every cell of `v` is one of the four stones left in `w`
            assert forall|t: int| #![trigger window_cell(v, t)] 0 <= t < 5 implies exists|m: int|
                0 <= m < 5 && m != i && #[trigger] window_cell(w, m) == window_cell(v, t) by {
                lemma_five_cells(window_cells(n, removed, v), p, t);
                crate::window::lemma_window_cells_in_board(n, v, t);
                let y = cell_index(n, window_cell(v, t).0, window_cell(v, t).1);
                crate::board::lemma_cell_index_bounds(n, window_cell(v, t).0, window_cell(v, t).1);
                assert(removed[y] == CrossPointType::CptChess(p));
                assert(y != x);
                assert(placed[y] != cells[y]);
                let m = choose|m: int| 0 <= m < 5 && y == #[trigger] cell_index(n, window_cell(w, m).0, window_cell(w, m).1);
                crate::window::lemma_window_cells_in_board(n, w, m);
                crate::board::lemma_cell_index_unique(
                    n,
                    window_cell(v, t).0,
                    window_cell(v, t).1,
                    window_cell(w, m).0,
                    window_cell(w, m).1,
                );
                if m == i {
                    assert(y == x);
                }
            }
            let m0 = choose|m: int| 0 <= m < 5 && m != i && #[trigger] window_cell(w, m) == window_cell(v, 0);
            let m1 = choose|m: int| 0 <= m < 5 && m != i && #[trigger] window_cell(w, m) == window_cell(v, 1);
            let m2 = choose|m: int| 0 <= m < 5 && m != i && #[trigger] window_cell(w, m) == window_cell(v, 2);
            let m3 = choose|m: int| 0 <= m < 5 && m != i && #[trigger] window_cell(w, m) == window_cell(v, 3);
            let m4 = choose|m: int| 0 <= m < 5 && m != i && #[trigger] window_cell(w, m) == window_cell(v, 4);
            lemma_window_in_window(w, v, i, m0, m1, m2, m3, m4);
        }
    }
}

/// After the last row of axis `a`, the list has reached the next axis.
proof fn lemma_window_at_end(n: int, a: int)
    requires
        0 <= n,
        0 <= a < 4,
    ensures
        axis_base(n, a) + axis_rows(n, a) * axis_cols(n, a) == axis_base(n, a + 1),
{
    lemma_windows_len(n);
}

} // verus!
