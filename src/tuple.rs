use vstd::prelude::*;
use crate::board::{cell_index, in_board, neighbor, Board, Coord, MoveDirection, MAX_SIZE};
use crate::cross_point::{ChessType, CrossPointType};
use crate::evaluation_dfa::{count_of, count_cells};

verus! {

/// Position (row, column) of the `i`-th cell of the line that starts at
/// `start` and runs in direction `md`.
pub open spec fn line_cell(start: Coord, md: MoveDirection, i: int) -> (int, int) {
    let r = start.row as int;
    let c = start.col as int;
    match md {
        MoveDirection::MdUp => (r - i, c),
        MoveDirection::MdDown => (r + i, c),
        MoveDirection::MdLeft => (r, c - i),
        MoveDirection::MdRight => (r, c + i),
        MoveDirection::MdUpLeft => (r - i, c - i),
        MoveDirection::MdUpRight => (r - i, c + i),
        MoveDirection::MdDownLeft => (r + i, c - i),
        MoveDirection::MdDownRight => (r + i, c + i),
    }
}

/// Whether `c` is the `i`-th cell of the line from `start` in direction `md`.
pub open spec fn on_line(c: Coord, start: Coord, md: MoveDirection, i: int) -> bool {
    c.row == line_cell(start, md, i).0 && c.col == line_cell(start, md, i).1
}

/// Whether the first `len` cells of that line all lie on a board of side `n`.
pub open spec fn line_fits(n: int, start: Coord, md: MoveDirection, len: int) -> bool {
    forall|i: int| 0 <= i < len ==> in_board(n, #[trigger] line_cell(start, md, i).0, line_cell(start, md, i).1)
}

/// A run of consecutive cells along one direction, held as positions on the board.
pub struct Tuple {
    size: usize,
    md: MoveDirection,
    coords: Vec<Coord>,
}

impl Tuple {
    pub closed spec fn spec_len(&self) -> nat {
        self.size as nat
    }

    pub closed spec fn spec_md(&self) -> MoveDirection {
        self.md
    }

    pub closed spec fn spec_coords(&self) -> Seq<Coord> {
        self.coords@
    }

    /// The run starts at its first position and follows its direction, on a
    /// board of side `n`.
    pub open spec fn wf(&self, n: int) -> bool {
        &&& 1 <= self.spec_len() <= MAX_SIZE
        &&& self.spec_coords().len() == self.spec_len()
        &&& forall|i: int|
            0 <= i < self.spec_len() ==> on_line(
                #[trigger] self.spec_coords()[i],
                self.spec_coords()[0],
                self.spec_md(),
                i,
            ) && in_board(n, self.spec_coords()[i].row as int, self.spec_coords()[i].col as int)
    }

    /// States of the run's cells on a board of side `n` whose cells are `cells`.
    pub open spec fn cells_in(&self, n: int, cells: Seq<CrossPointType>) -> Seq<CrossPointType> {
        Seq::new(
            self.spec_len(),
            |i: int|
                cells[cell_index(n, self.spec_coords()[i].row as int, self.spec_coords()[i].col as int)],
        )
    }

    /// The run of `size` cells from `coord` in direction `md`, which must lie on the board.
    pub fn create_with_md(size: usize, board: &Board, coord: Coord, md: MoveDirection) -> (r: Tuple)
        requires
            board.wf(),
            size >= 1,
            line_fits(board.spec_size() as int, coord, md, size as int),
        ensures
            r.wf(board.spec_size() as int),
            r.spec_len() == size,
            r.spec_md() == md,
            r.spec_coords()[0] == coord,
    {
        let ghost n = board.spec_size() as int;
        proof {
            board.lemma_wf();
            assert(in_board(n, line_cell(coord, md, 0).0, line_cell(coord, md, 0).1));
            assert(in_board(n, line_cell(coord, md, size - 1).0, line_cell(coord, md, size - 1).1));
        }
        let mut coords: Vec<Coord> = Vec::new();
        coords.push(coord);
        let mut cur = coord;
        let mut i: usize = 1;
        while i < size
            invariant
                board.wf(),
                n == board.spec_size(),
                n <= MAX_SIZE,
                1 <= i <= size,
                line_fits(n, coord, md, size as int),
                coords@.len() == i,
                coords@[0] == coord,
                cur == coords@[i - 1],
                forall|j: int| 0 <= j < i ==> on_line(#[trigger] coords@[j], coord, md, j),
            decreases size - i,
        {
            assert(in_board(n, line_cell(coord, md, i as int).0, line_cell(coord, md, i as int).1));
            assert(in_board(n, line_cell(coord, md, i - 1).0, line_cell(coord, md, i - 1).1));
            assert(on_line(coords@[i - 1], coord, md, i - 1));
            let ghost next = line_cell(coord, md, i as int);
            assert(0 <= next.0 && 0 <= next.1);
            assert(neighbor(n, cur, md) == Some(Coord { row: next.0 as usize, col: next.1 as usize }));
            let res = board.move_by_coord(cur, md);
            match res {
                Ok(t) => {
                    assert(t.row == next.0 && t.col == next.1);
                    cur = t;
                },
                Err(_) => {
                    assert(false);
                },
            }
            let ghost before = coords@;
            coords.push(cur);
            assert(coords@[i as int].row == next.0 && coords@[i as int].col == next.1);
            assert forall|j: int| 0 <= j < i + 1 implies on_line(#[trigger] coords@[j], coord, md, j) by {
                if j < i {
                    assert(coords@[j] == before[j]);
                }
            }
            i = i + 1;
        }
        Tuple { size, md, coords }
    }

    pub fn coord_at(&self, index: usize) -> (r: Coord)
        requires
            self.spec_coords().len() == self.spec_len(),
            index < self.spec_len(),
        ensures
            r == self.spec_coords()[index as int],
    {
        self.coords[index]
    }

    pub fn is_index_valid(&self, index: usize) -> (r: bool)
        ensures
            r == (index < self.spec_len()),
    {
        index < self.size
    }

    pub fn have_chess_at(&self, board: &Board, index: usize) -> (r: bool)
        requires
            board.wf(),
            self.wf(board.spec_size() as int),
            index < self.spec_len(),
        ensures
            r == (self.cells_in(board.spec_size() as int, board.cells())[index as int]
                != CrossPointType::CptEmpty),
    {
        board.have_chess_at(self.coords[index])
    }

    pub fn get_chess_at(&self, board: &Board, index: usize) -> (r: ChessType)
        requires
            board.wf(),
            self.wf(board.spec_size() as int),
            index < self.spec_len(),
            self.cells_in(board.spec_size() as int, board.cells())[index as int]
                != CrossPointType::CptEmpty,
        ensures
            self.cells_in(board.spec_size() as int, board.cells())[index as int]
                == CrossPointType::CptChess(r),
    {
        board.get_chess_at(self.coords[index])
    }

    pub fn get_cross_point_type_at(&self, board: &Board, index: usize) -> (r: CrossPointType)
        requires
            board.wf(),
            self.wf(board.spec_size() as int),
            index < self.spec_len(),
        ensures
            r == self.cells_in(board.spec_size() as int, board.cells())[index as int],
    {
        board.get_cross_point_at(self.coords[index]).status
    }

    /// States of the run's cells, in order.
    pub fn cross_point_types(&self, board: &Board) -> (r: Vec<CrossPointType>)
        requires
            board.wf(),
            self.wf(board.spec_size() as int),
        ensures
            r@ == self.cells_in(board.spec_size() as int, board.cells()),
    {
        let mut v: Vec<CrossPointType> = Vec::new();
        let mut i: usize = 0;
        while i < self.size
            invariant
                board.wf(),
                self.wf(board.spec_size() as int),
                i <= self.spec_len(),
                v@ =~= self.cells_in(board.spec_size() as int, board.cells()).take(i as int),
            decreases self.spec_len() - i,
        {
            v.push(self.get_cross_point_type_at(board, i));
            i = i + 1;
        }
        v
    }

    /// Number of the run's cells in state `cpt`.
    pub fn count(&self, board: &Board, cpt: CrossPointType) -> (r: u32)
        requires
            board.wf(),
            self.wf(board.spec_size() as int),
        ensures
            r == count_of(self.cells_in(board.spec_size() as int, board.cells()), cpt),
    {
        let v = self.cross_point_types(board);
        let num = count_cells(v.as_slice(), cpt);
        proof {
            crate::evaluation_dfa::lemma_count_of_le(v@, cpt);
        }
        num as u32
    }

    /// Whether `coord` is one of the run's cells.
    pub fn have_include(&self, coord: Coord) -> (r: bool)
        requires
            self.spec_coords().len() == self.spec_len(),
        ensures
            r == exists|i: int| 0 <= i < self.spec_len() && self.spec_coords()[i] == coord,
    {
        let mut i: usize = 0;
        while i < self.size
            invariant
                self.spec_coords().len() == self.spec_len(),
                i <= self.spec_len(),
                forall|j: int| 0 <= j < i ==> self.spec_coords()[j] != coord,
            decreases self.spec_len() - i,
        {
            if self.coords[i] == coord {
                return true;
            }
            i = i + 1;
        }
        false
    }
}

} // verus!
