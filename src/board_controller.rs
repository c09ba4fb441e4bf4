use vstd::prelude::*;
use crate::board::{cell_index, in_board, Board, Coord, CoordAndChess, MAX_SIZE};
use crate::cross_point::{other_chess, ChessType, CrossPointType};
use crate::rule_checker::{status_of, GameStatus, RuleChecker};
use crate::utils::{Error, ErrorKind};

verus! {

/// Colour that plays the `k`-th move of a game (counting from 0): black opens.
pub open spec fn turn_of(k: int) -> ChessType {
    if k % 2 == 0 {
        ChessType::CtBlack
    } else {
        ChessType::CtWhite
    }
}

/// Name of a colour.
pub open spec fn chess_name(c: ChessType) -> Seq<char> {
    match c {
        ChessType::CtBlack => "black"@,
        ChessType::CtWhite => "white"@,
    }
}

/// Each move stands on the board, on a cell that holds its stone, in the
/// colour whose turn it was.
pub open spec fn steps_on_cells(n: int, cells: Seq<CrossPointType>, steps: Seq<CoordAndChess>) -> bool {
    forall|j: int|
        0 <= j < steps.len() ==> {
            &&& in_board(n, (#[trigger] steps[j]).coord.row as int, steps[j].coord.col as int)
            &&& cells[cell_index(n, steps[j].coord.row as int, steps[j].coord.col as int)]
                == CrossPointType::CptChess(steps[j].chess)
            &&& steps[j].chess == turn_of(j)
        }
}

/// No two moves share a cell.
pub open spec fn steps_distinct(steps: Seq<CoordAndChess>) -> bool {
    forall|i: int, j: int|
        0 <= i < j < steps.len() ==> (#[trigger] steps[i]).coord != (#[trigger] steps[j]).coord
}

/// Every stone of the board is one of the moves.
pub open spec fn stones_are_steps(n: int, cells: Seq<CrossPointType>, steps: Seq<CoordAndChess>) -> bool {
    forall|xr: int, xc: int|
        in_board(n, xr, xc) && #[trigger] cells[cell_index(n, xr, xc)] != CrossPointType::CptEmpty
            ==> exists|j: int|
            0 <= j < steps.len() && (#[trigger] steps[j]).coord.row == xr && steps[j].coord.col == xc
}

/// The moves `steps` are exactly the stones of the board of side `n` whose
/// cells are `cells`.
#[verifier::opaque]
pub open spec fn steps_match(n: int, cells: Seq<CrossPointType>, steps: Seq<CoordAndChess>) -> bool {
    &&& steps_on_cells(n, cells, steps)
    &&& steps_distinct(steps)
    &&& stones_are_steps(n, cells, steps)
}

proof fn lemma_push_on_cells(
    n: int,
    cells: Seq<CrossPointType>,
    steps: Seq<CoordAndChess>,
    coord: Coord,
    chess: ChessType,
)
    requires
        steps_on_cells(n, cells, steps),
        stones_are_steps(n, cells, steps),
        steps_distinct(steps),
        cells.len() == n * n,
        in_board(n, coord.row as int, coord.col as int),
        cells[cell_index(n, coord.row as int, coord.col as int)] == CrossPointType::CptEmpty,
        chess == turn_of(steps.len() as int),
    ensures
        steps_on_cells(
            n,
            cells.update(cell_index(n, coord.row as int, coord.col as int), CrossPointType::CptChess(chess)),
            steps.push(CoordAndChess { coord, chess }),
        ),
        steps_distinct(steps.push(CoordAndChess { coord, chess })),
{
    let row = coord.row as int;
    let col = coord.col as int;
    let ci = cell_index(n, row, col);
    let cells2 = cells.update(ci, CrossPointType::CptChess(chess));
    let steps2 = steps.push(CoordAndChess { coord, chess });
    let len = steps.len() as int;
    crate::board::lemma_cell_index_bounds(n, row, col);
    assert forall|j: int| 0 <= j < steps2.len() implies {
        &&& in_board(n, (#[trigger] steps2[j]).coord.row as int, steps2[j].coord.col as int)
        &&& cells2[cell_index(n, steps2[j].coord.row as int, steps2[j].coord.col as int)]
            == CrossPointType::CptChess(steps2[j].chess)
        &&& steps2[j].chess == turn_of(j)
    } by {
        if j < len {
            assert(steps2[j] == steps[j]);
            let sj = steps[j];
            crate::board::lemma_cell_index_bounds(n, sj.coord.row as int, sj.coord.col as int);
            if cell_index(n, sj.coord.row as int, sj.coord.col as int) == ci {
                crate::board::lemma_cell_index_unique(n, sj.coord.row as int, sj.coord.col as int, row, col);
            }
        }
    }
    assert forall|i: int, j: int|
        0 <= i < j < steps2.len() implies (#[trigger] steps2[i]).coord != (#[trigger] steps2[j]).coord by {
        assert(steps2[i] == steps[i]);
        if j < len {
            assert(steps2[j] == steps[j]);
        } else {
            let si = steps[i];
            assert(in_board(n, si.coord.row as int, si.coord.col as int));
        }
    }
}

proof fn lemma_push_stones(
    n: int,
    cells: Seq<CrossPointType>,
    steps: Seq<CoordAndChess>,
    coord: Coord,
    chess: ChessType,
)
    requires
        stones_are_steps(n, cells, steps),
        cells.len() == n * n,
        in_board(n, coord.row as int, coord.col as int),
    ensures
        stones_are_steps(
            n,
            cells.update(cell_index(n, coord.row as int, coord.col as int), CrossPointType::CptChess(chess)),
            steps.push(CoordAndChess { coord, chess }),
        ),
{
    let row = coord.row as int;
    let col = coord.col as int;
    let ci = cell_index(n, row, col);
    let cells2 = cells.update(ci, CrossPointType::CptChess(chess));
    let steps2 = steps.push(CoordAndChess { coord, chess });
    let len = steps.len() as int;
    crate::board::lemma_cell_index_bounds(n, row, col);
    assert forall|xr: int, xc: int|
        in_board(n, xr, xc) && #[trigger] cells2[cell_index(n, xr, xc)] != CrossPointType::CptEmpty
            implies exists|j: int|
        0 <= j < steps2.len() && (#[trigger] steps2[j]).coord.row == xr && steps2[j].coord.col == xc by {
        if xr == row && xc == col {
            assert(steps2[len].coord.row == xr);
        } else {
            crate::board::lemma_cell_index_bounds(n, xr, xc);
            if cell_index(n, xr, xc) == ci {
                crate::board::lemma_cell_index_unique(n, xr, xc, row, col);
            }
            assert(cells[cell_index(n, xr, xc)] != CrossPointType::CptEmpty);
            let j = choose|j: int|
                0 <= j < steps.len() && (#[trigger] steps[j]).coord.row == xr && steps[j].coord.col == xc;
            assert(steps2[j] == steps[j]);
        }
    }
}

/// Playing on an empty cell in the colour whose turn it is adds a move that matches.
proof fn lemma_steps_push(
    n: int,
    cells: Seq<CrossPointType>,
    steps: Seq<CoordAndChess>,
    coord: Coord,
    chess: ChessType,
)
    requires
        steps_match(n, cells, steps),
        cells.len() == n * n,
        in_board(n, coord.row as int, coord.col as int),
        cells[cell_index(n, coord.row as int, coord.col as int)] == CrossPointType::CptEmpty,
        chess == turn_of(steps.len() as int),
    ensures
        steps_match(
            n,
            cells.update(cell_index(n, coord.row as int, coord.col as int), CrossPointType::CptChess(chess)),
            steps.push(CoordAndChess { coord, chess }),
        ),
{
    reveal(steps_match);
    lemma_push_on_cells(n, cells, steps, coord, chess);
    lemma_push_stones(n, cells, steps, coord, chess);
}

proof fn lemma_pop_on_cells(n: int, cells: Seq<CrossPointType>, steps: Seq<CoordAndChess>)
    requires
        steps_on_cells(n, cells, steps),
        steps_distinct(steps),
        cells.len() == n * n,
        steps.len() > 0,
    ensures
        steps_on_cells(
            n,
            cells.update(
                cell_index(n, steps.last().coord.row as int, steps.last().coord.col as int),
                CrossPointType::CptEmpty,
            ),
            steps.drop_last(),
        ),
        steps_distinct(steps.drop_last()),
{
    let len = steps.len() - 1;
    let last = steps[len];
    let lr = last.coord.row as int;
    let lc = last.coord.col as int;
    let li = cell_index(n, lr, lc);
    let cells2 = cells.update(li, CrossPointType::CptEmpty);
    let steps2 = steps.drop_last();
    assert(in_board(n, lr, lc));
    crate::board::lemma_cell_index_bounds(n, lr, lc);
    assert forall|j: int| 0 <= j < steps2.len() implies {
        &&& in_board(n, (#[trigger] steps2[j]).coord.row as int, steps2[j].coord.col as int)
        &&& cells2[cell_index(n, steps2[j].coord.row as int, steps2[j].coord.col as int)]
            == CrossPointType::CptChess(steps2[j].chess)
        &&& steps2[j].chess == turn_of(j)
    } by {
        assert(steps2[j] == steps[j]);
        let sj = steps[j];
        assert(sj.coord != last.coord);
        crate::board::lemma_cell_index_bounds(n, sj.coord.row as int, sj.coord.col as int);
        if cell_index(n, sj.coord.row as int, sj.coord.col as int) == li {
            crate::board::lemma_cell_index_unique(n, sj.coord.row as int, sj.coord.col as int, lr, lc);
        }
    }
    assert forall|i: int, j: int|
        0 <= i < j < steps2.len() implies (#[trigger] steps2[i]).coord != (#[trigger] steps2[j]).coord by {
        assert(steps2[i] == steps[i]);
        assert(steps2[j] == steps[j]);
    }
}

proof fn lemma_pop_stones(n: int, cells: Seq<CrossPointType>, steps: Seq<CoordAndChess>)
    requires
        stones_are_steps(n, cells, steps),
        steps_distinct(steps),
        cells.len() == n * n,
        steps.len() > 0,
        in_board(n, steps.last().coord.row as int, steps.last().coord.col as int),
    ensures
        stones_are_steps(
            n,
            cells.update(
                cell_index(n, steps.last().coord.row as int, steps.last().coord.col as int),
                CrossPointType::CptEmpty,
            ),
            steps.drop_last(),
        ),
{
    let len = steps.len() - 1;
    let last = steps[len];
    let lr = last.coord.row as int;
    let lc = last.coord.col as int;
    let li = cell_index(n, lr, lc);
    let cells2 = cells.update(li, CrossPointType::CptEmpty);
    let steps2 = steps.drop_last();
    crate::board::lemma_cell_index_bounds(n, lr, lc);
    assert forall|xr: int, xc: int|
        in_board(n, xr, xc) && #[trigger] cells2[cell_index(n, xr, xc)] != CrossPointType::CptEmpty
            implies exists|j: int|
        0 <= j < steps2.len() && (#[trigger] steps2[j]).coord.row == xr && steps2[j].coord.col == xc by {
        crate::board::lemma_cell_index_bounds(n, xr, xc);
        assert(cell_index(n, xr, xc) != li);
        assert(cells[cell_index(n, xr, xc)] != CrossPointType::CptEmpty);
        let j = choose|j: int|
            0 <= j < steps.len() && (#[trigger] steps[j]).coord.row == xr && steps[j].coord.col == xc;
        assert(j != len);
        assert(steps2[j] == steps[j]);
    }
}

/// Taking the last move off its cell leaves the other moves matching.
proof fn lemma_steps_pop(n: int, cells: Seq<CrossPointType>, steps: Seq<CoordAndChess>)
    requires
        steps_match(n, cells, steps),
        cells.len() == n * n,
        steps.len() > 0,
    ensures
        ({
            let last = steps.last();
            let li = cell_index(n, last.coord.row as int, last.coord.col as int);
            &&& in_board(n, last.coord.row as int, last.coord.col as int)
            &&& cells[li] == CrossPointType::CptChess(last.chess)
            &&& last.chess == turn_of(steps.len() - 1)
            &&& steps_match(n, cells.update(li, CrossPointType::CptEmpty), steps.drop_last())
        }),
{
    reveal(steps_match);
    assert(steps[steps.len() - 1] == steps.last());
    lemma_pop_on_cells(n, cells, steps);
    lemma_pop_stones(n, cells, steps);
}

/// With no move played, the board is empty.
proof fn lemma_no_steps_empty(n: int, cells: Seq<CrossPointType>, steps: Seq<CoordAndChess>)
    requires
        steps_match(n, cells, steps),
        steps.len() == 0,
    ensures
        forall|xr: int, xc: int|
            in_board(n, xr, xc) ==> #[trigger] cells[cell_index(n, xr, xc)] == CrossPointType::CptEmpty,
{
    reveal(steps_match);
    assert forall|xr: int, xc: int| in_board(n, xr, xc) implies #[trigger] cells[cell_index(n, xr, xc)]
        == CrossPointType::CptEmpty by {
        if cells[cell_index(n, xr, xc)] != CrossPointType::CptEmpty {
            let j = choose|j: int|
                0 <= j < steps.len() && (#[trigger] steps[j]).coord.row == xr && steps[j].coord.col == xc;
        }
    }
}

/// A game: the rule checker with its board, whose turn it is, and the moves
/// played so far, so that they can be taken back.
pub struct BoardController {
    chess: ChessType,
    rule_checker: RuleChecker,
    steps: Vec<CoordAndChess>,
}

impl BoardController {
    pub closed spec fn spec_chess(&self) -> ChessType {
        self.chess
    }

    pub closed spec fn spec_rule_checker(&self) -> RuleChecker {
        self.rule_checker
    }

    /// The moves played, oldest first.
    pub closed spec fn spec_steps(&self) -> Seq<CoordAndChess> {
        self.steps@
    }

    pub open spec fn n(&self) -> int {
        self.spec_rule_checker().n()
    }

    pub open spec fn cells(&self) -> Seq<CrossPointType> {
        self.spec_rule_checker().cells()
    }

    /// The stones on the board are exactly the moves played, which
    /// alternate in colour starting with black.
    pub closed spec fn wf(&self) -> bool {
        &&& self.rule_checker.wf()
        &&& self.chess == turn_of(self.steps@.len() as int)
        &&& steps_match(self.n(), self.cells(), self.steps@)
    }

    /// A new game on an empty board of side `size`; black to play.
    pub fn create_with_size(size: usize) -> (r: BoardController)
        requires
            size <= MAX_SIZE,
        ensures
            r.wf(),
            r.n() == size,
            r.spec_chess() == ChessType::CtBlack,
            r.spec_steps().len() == 0,
            r.cells().len() == size * size,
            forall|i: int| 0 <= i < r.cells().len() ==> r.cells()[i] == CrossPointType::CptEmpty,
            status_of(r.n(), r.cells()) == GameStatus::GsGameContinue,
    {
        let board = Board::create_with_size(size);
        let rule_checker = RuleChecker::create_with_detail(board);
        let r = BoardController { chess: ChessType::CtBlack, rule_checker, steps: Vec::new() };
        proof {
            r.rule_checker.lemma_wf();
            crate::rule_checker::lemma_empty_board_continues(r.n(), r.cells());
            reveal(steps_match);
            assert forall|xr: int, xc: int|
                in_board(r.n(), xr, xc) implies #[trigger] r.cells()[cell_index(r.n(), xr, xc)]
                == CrossPointType::CptEmpty by {
                crate::board::lemma_cell_index_bounds(r.n(), xr, xc);
            }
        }
        r
    }

    /// A new game on an empty board of side 15; black to play.
    pub fn new() -> (r: BoardController)
        ensures
            r.wf(),
            r.n() == 15,
            r.spec_chess() == ChessType::CtBlack,
            r.spec_steps().len() == 0,
            r.cells().len() == 225,
            forall|i: int| 0 <= i < r.cells().len() ==> r.cells()[i] == CrossPointType::CptEmpty,
            status_of(r.n(), r.cells()) == GameStatus::GsGameContinue,
    {
        Self::create_with_size(15)
    }

    /// What holds of every game: its rule checker is well formed, the board
    /// has `n * n` cells, and the colour to play follows from the number of
    /// moves played.
    pub proof fn lemma_wf(&self)
        requires
            self.wf(),
        ensures
            self.spec_rule_checker().wf(),
            0 <= self.n() <= MAX_SIZE,
            self.cells().len() == self.n() * self.n(),
            self.spec_chess() == turn_of(self.spec_steps().len() as int),
    {
        self.rule_checker.lemma_wf();
    }

    /// The rule checker, for the queries on the position.
    pub fn rule_checker(&self) -> (r: &RuleChecker)
        requires
            self.wf(),
        ensures
            *r == self.spec_rule_checker(),
            r.wf(),
    {
        &self.rule_checker
    }

    fn chess_type_to_str(&self, chess: ChessType) -> (r: &'static str)
        ensures
            r@ == chess_name(chess),
    {
        match chess {
            ChessType::CtBlack => "black",
            ChessType::CtWhite => "white",
        }
    }

    /// Name of the colour to play.
    pub fn get_current_chess(&self) -> (r: String)
        ensures
            r@ == chess_name(self.spec_chess()),
    {
        self.chess_type_to_str(self.chess).to_string()
    }

    /// Plays the colour to move at (row, col) and passes the turn.
    pub fn put_chess(&mut self, row: i32, col: i32) -> (r: Result<(), Error>)
        requires
            old(self).wf(),
        ensures
            final(self).wf(),
            final(self).n() == old(self).n(),
            ({
                let n = old(self).n();
                let on = 0 <= row < n && 0 <= col < n;
                let i = cell_index(n, row as int, col as int);
                &&& !on ==> (r matches Err(e) && e.kind == ErrorKind::OutOfBounds)
                &&& on && old(self).cells()[i] != CrossPointType::CptEmpty ==> (r matches Err(e)
                    && e.kind == ErrorKind::CellOccupied)
                &&& on && old(self).cells()[i] == CrossPointType::CptEmpty ==> r is Ok
                &&& r is Ok ==> {
                    &&& final(self).cells() == old(self).cells().update(
                        i,
                        CrossPointType::CptChess(old(self).spec_chess()),
                    )
                    &&& final(self).spec_chess() == other_chess(old(self).spec_chess())
                    &&& final(self).spec_steps() == old(self).spec_steps().push(
                        CoordAndChess {
                            coord: Coord { row: row as usize, col: col as usize },
                            chess: old(self).spec_chess(),
                        },
                    )
                }
                &&& r is Err ==> final(self).cells() == old(self).cells() && final(self).spec_chess()
                    == old(self).spec_chess() && final(self).spec_steps() == old(self).spec_steps()
            }),
    {
        if row < 0 || col < 0 {
            return Err(Error::create_with_detail(ErrorKind::OutOfBounds, "coord is not valid"));
        }
        let coord = Coord::from_i32s(row, col);
        let chess = self.chess;
        let ghost n = self.n();
        proof {
            self.rule_checker.lemma_wf();
        }
        let ghost old_steps = self.steps@;
        match self.rule_checker.put_chess_at(coord, chess) {
            Ok(()) => {
                proof {
                    lemma_steps_push(n, old(self).cells(), old_steps, coord, chess);
                }
                self.steps.push(CoordAndChess { coord, chess });
                self.chess = chess.get_different_chess();
                Ok(())
            },
            Err(e) => Err(e),
        }
    }

    /// Takes back the last move: the stone leaves the board and its colour
    /// is to play again. Returns where it stood, or `None` when no move was played.
    pub fn remove_last_chess(&mut self) -> (r: Option<(i32, i32)>)
        requires
            old(self).wf(),
        ensures
            final(self).wf(),
            final(self).n() == old(self).n(),
            old(self).spec_steps().len() == 0 ==> r is None && *final(self) == *old(self),
            old(self).spec_steps().len() > 0 ==> {
                let last = old(self).spec_steps().last();
                &&& r == Some((last.coord.row as i32, last.coord.col as i32))
                &&& final(self).spec_steps() == old(self).spec_steps().drop_last()
                &&& final(self).spec_chess() == last.chess
                &&& final(self).cells() == old(self).cells().update(
                    cell_index(old(self).n(), last.coord.row as int, last.coord.col as int),
                    CrossPointType::CptEmpty,
                )
            },
    {
        if self.steps.len() == 0 {
            return None;
        }
        let ghost n = self.n();
        let ghost old_steps = self.steps@;
        let last = self.steps.pop().unwrap();
        proof {
            assert(old_steps[old_steps.len() - 1] == last);
            self.rule_checker.lemma_wf();
        }
        proof {
            lemma_steps_pop(n, self.cells(), old_steps);
        }
        let removed = self.rule_checker.remove_chess_at(last.coord);
        assert(removed is Ok);
        self.chess = last.chess;
        proof {
            assert(self.steps@ =~= old_steps.drop_last());
        }
        Some((last.coord.row as i32, last.coord.col as i32))
    }

    /// Whether some colour has five in a row.
    pub fn have_game_over(&self) -> (r: bool)
        requires
            self.wf(),
        ensures
            r == (status_of(self.n(), self.cells()) != GameStatus::GsGameContinue),
    {
        match self.rule_checker.game_status() {
            GameStatus::GsGameOver(_) => true,
            GameStatus::GsGameContinue => false,
        }
    }

    /// Name of the colour that has five in a row, if one has.
    pub fn get_winner(&self) -> (r: Option<String>)
        requires
            self.wf(),
        ensures
            match status_of(self.n(), self.cells()) {
                GameStatus::GsGameOver(c) => r is Some && r.unwrap()@ == chess_name(c),
                GameStatus::GsGameContinue => r is None,
            },
    {
        match self.rule_checker.game_status() {
            GameStatus::GsGameOver(c) => Some(self.chess_type_to_str(c).to_string()),
            GameStatus::GsGameContinue => None,
        }
    }

    /// Takes back every move, newest first, leaving an empty board with
    /// black to play.
    pub fn restart_game(&mut self)
        requires
            old(self).wf(),
        ensures
            final(self).wf(),
            final(self).n() == old(self).n(),
            final(self).spec_steps().len() == 0,
            final(self).spec_chess() == ChessType::CtBlack,
            forall|xr: int, xc: int|
                in_board(final(self).n(), xr, xc) ==> #[trigger] final(self).cells()[cell_index(
                    final(self).n(),
                    xr,
                    xc,
                )] == CrossPointType::CptEmpty,
    {
        let mut len = self.steps.len();
        while len > 0
            invariant
                self.wf(),
                self.n() == old(self).n(),
                len == self.steps@.len(),
            decreases len,
        {
            self.remove_last_chess();
            len = len - 1;
        }
        proof {
            self.rule_checker.lemma_wf();
            lemma_no_steps_empty(self.n(), self.cells(), self.steps@);
        }
    }
}

} // verus!
