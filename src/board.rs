use vstd::prelude::*;
use crate::cross_point::{ChessType, CrossPoint, CrossPointType};
use crate::utils::{Error, ErrorKind};

verus! {

/// Largest side length of a board; keeps every index, count and score in range.
pub const MAX_SIZE: usize = 1000;

/// One of the eight compass directions.
#[derive(PartialEq, Eq, Structural, Copy, Clone, Debug, Hash)]
pub enum MoveDirection {
    MdUp,
    MdDown,
    MdLeft,
    MdRight,
    MdUpLeft,
    MdUpRight,
    MdDownLeft,
    MdDownRight,
}

/// Change of (row, column) made by one step in `md`.
pub open spec fn md_delta(md: MoveDirection) -> (int, int) {
    match md {
        MoveDirection::MdUp => (-1, 0),
        MoveDirection::MdDown => (1, 0),
        MoveDirection::MdLeft => (0, -1),
        MoveDirection::MdRight => (0, 1),
        MoveDirection::MdUpLeft => (-1, -1),
        MoveDirection::MdUpRight => (-1, 1),
        MoveDirection::MdDownLeft => (1, -1),
        MoveDirection::MdDownRight => (1, 1),
    }
}

/// Slot of a direction in a cell's link table.
pub open spec fn md_index(md: MoveDirection) -> int {
    match md {
        MoveDirection::MdUp => 0,
        MoveDirection::MdDown => 1,
        MoveDirection::MdLeft => 2,
        MoveDirection::MdRight => 3,
        MoveDirection::MdUpLeft => 4,
        MoveDirection::MdUpRight => 5,
        MoveDirection::MdDownLeft => 6,
        MoveDirection::MdDownRight => 7,
    }
}

/// The direction stored in slot `i` of a link table.
pub open spec fn md_of(i: int) -> MoveDirection {
    if i == 0 {
        MoveDirection::MdUp
    } else if i == 1 {
        MoveDirection::MdDown
    } else if i == 2 {
        MoveDirection::MdLeft
    } else if i == 3 {
        MoveDirection::MdRight
    } else if i == 4 {
        MoveDirection::MdUpLeft
    } else if i == 5 {
        MoveDirection::MdUpRight
    } else if i == 6 {
        MoveDirection::MdDownLeft
    } else {
        MoveDirection::MdDownRight
    }
}

fn direction_at(d: usize) -> (md: MoveDirection)
    requires
        d < 8,
    ensures
        md == md_of(d as int),
        md_index(md) == d,
{
    if d == 0 {
        MoveDirection::MdUp
    } else if d == 1 {
        MoveDirection::MdDown
    } else if d == 2 {
        MoveDirection::MdLeft
    } else if d == 3 {
        MoveDirection::MdRight
    } else if d == 4 {
        MoveDirection::MdUpLeft
    } else if d == 5 {
        MoveDirection::MdUpRight
    } else if d == 6 {
        MoveDirection::MdDownLeft
    } else {
        MoveDirection::MdDownRight
    }
}

fn direction_slot(md: MoveDirection) -> (d: usize)
    ensures
        d == md_index(md),
        d < 8,
{
    match md {
        MoveDirection::MdUp => 0,
        MoveDirection::MdDown => 1,
        MoveDirection::MdLeft => 2,
        MoveDirection::MdRight => 3,
        MoveDirection::MdUpLeft => 4,
        MoveDirection::MdUpRight => 5,
        MoveDirection::MdDownLeft => 6,
        MoveDirection::MdDownRight => 7,
    }
}

/// A grid position.
#[derive(PartialEq, Eq, Structural, Copy, Clone, Debug)]
pub struct Coord {
    pub row: usize,
    pub col: usize,
}

/// Whether (r, c) lies on a board of side `n`.
pub open spec fn in_board(n: int, r: int, c: int) -> bool {
    0 <= r < n && 0 <= c < n
}

/// Row-major index of (r, c) on a board of side `n`.
pub open spec fn cell_index(n: int, r: int, c: int) -> int {
    r * n + c
}

/// The position one step from `c` in direction `md`, if it lies on a board of side `n`.
pub open spec fn neighbor(n: int, c: Coord, md: MoveDirection) -> Option<Coord> {
    let r = c.row + md_delta(md).0;
    let k = c.col + md_delta(md).1;
    if in_board(n, r, k) {
        Some(Coord { row: r as usize, col: k as usize })
    } else {
        None
    }
}

/// Index of the neighbouring cell, if there is one.
pub open spec fn neighbor_index(n: int, c: Coord, md: MoveDirection) -> Option<usize> {
    match neighbor(n, c, md) {
        Some(t) => Some(cell_index(n, t.row as int, t.col as int) as usize),
        None => None,
    }
}

pub proof fn lemma_cell_index_bounds(n: int, r: int, c: int)
    requires
        in_board(n, r, c),
    ensures
        0 <= cell_index(n, r, c) < n * n,
{
    assert(0 <= r * n + c < n * n) by (nonlinear_arith)
        requires
            0 <= r < n,
            0 <= c < n,
    ;
}

/// Distinct positions have distinct indices.
pub proof fn lemma_cell_index_unique(n: int, r1: int, c1: int, r2: int, c2: int)
    requires
        0 <= c1 < n,
        0 <= c2 < n,
        cell_index(n, r1, c1) == cell_index(n, r2, c2),
    ensures
        r1 == r2,
        c1 == c2,
{
    assert(r1 == r2) by (nonlinear_arith)
        requires
            0 <= c1 < n,
            0 <= c2 < n,
            r1 * n + c1 == r2 * n + c2,
    ;
}

impl Coord {
    pub fn from_i32s(row_i: i32, col_i: i32) -> (r: Coord)
        requires
            row_i >= 0,
            col_i >= 0,
        ensures
            r.row == row_i,
            r.col == col_i,
    {
        Coord { row: row_i as usize, col: col_i as usize }
    }

    pub fn as_i32s(&self) -> (r: (i32, i32))
        requires
            self.row <= i32::MAX,
            self.col <= i32::MAX,
        ensures
            r.0 == self.row,
            r.1 == self.col,
    {
        (self.row as i32, self.col as i32)
    }
}

/// A position together with a stone colour.
#[derive(PartialEq, Eq, Structural, Copy, Clone, Debug)]
pub struct CoordAndChess {
    pub coord: Coord,
    pub chess: ChessType,
}

/// The adjacency record of one cell: the cell's index in the board's cell
/// array, its position, and for each direction the index of the neighbour.
#[derive(Debug)]
pub struct CrossPointLinkedList {
    cross_point: usize,
    coord: Coord,
    link_map: Vec<Option<usize>>,
}

impl CrossPointLinkedList {
    pub closed spec fn spec_cross_point(&self) -> usize {
        self.cross_point
    }

    pub closed spec fn spec_coord(&self) -> Coord {
        self.coord
    }

    /// Index of the neighbour in direction `md`, if one was linked.
    pub closed spec fn spec_next(&self, md: MoveDirection) -> Option<usize> {
        self.link_map@[md_index(md)]
    }

    pub closed spec fn wf(&self) -> bool {
        self.link_map@.len() == 8
    }

    pub fn create(cross_point: usize, coord: Coord) -> (r: CrossPointLinkedList)
        ensures
            r.wf(),
            r.spec_cross_point() == cross_point,
            r.spec_coord() == coord,
            forall|md: MoveDirection| #[trigger] r.spec_next(md) == None::<usize>,
    {
        let mut link_map: Vec<Option<usize>> = Vec::new();
        let mut i: usize = 0;
        while i < 8
            invariant
                i <= 8,
                link_map@.len() == i,
                forall|j: int| 0 <= j < i ==> link_map@[j] == None::<usize>,
            decreases 8 - i,
        {
            link_map.push(None);
            i = i + 1;
        }
        CrossPointLinkedList { cross_point, coord, link_map }
    }

    pub fn insert_link(&mut self, md: MoveDirection, destination: usize)
        requires
            old(self).wf(),
        ensures
            final(self).wf(),
            final(self).spec_cross_point() == old(self).spec_cross_point(),
            final(self).spec_coord() == old(self).spec_coord(),
            final(self).spec_next(md) == Some(destination),
            forall|m: MoveDirection|
                m != md ==> #[trigger] final(self).spec_next(m) == old(self).spec_next(m),
    {
        let d = direction_slot(md);
        self.link_map.set(d, Some(destination));
        assert forall|m: MoveDirection| m != md implies #[trigger] self.spec_next(m)
            == old(self).spec_next(m) by {
            assert(md_index(m) != md_index(md));
        }
    }

    pub fn get_next(&self, md: MoveDirection) -> (r: Option<usize>)
        requires
            self.wf(),
        ensures
            r == self.spec_next(md),
    {
        let d = direction_slot(md);
        self.link_map[d]
    }

    pub fn get_cross_point(&self) -> (r: usize)
        ensures
            r == self.spec_cross_point(),
    {
        self.cross_point
    }

    pub fn get_coord(&self) -> (r: Coord)
        ensures
            r == self.spec_coord(),
    {
        self.coord
    }
}

/// A change made to the board: a stone placed, or a stone removed (with the
/// colour it had).
#[derive(PartialEq, Eq, Structural, Copy, Clone, Debug)]
pub enum BoardEvent {
    BePutChess(CoordAndChess),
    BeRemoveChess(CoordAndChess),
}

/// The position and colour that an event carries.
pub open spec fn event_detail(e: BoardEvent) -> CoordAndChess {
    match e {
        BoardEvent::BePutChess(d) => d,
        BoardEvent::BeRemoveChess(d) => d,
    }
}

/// State of the event's cell once the event has happened.
pub open spec fn event_after(e: BoardEvent) -> CrossPointType {
    match e {
        BoardEvent::BePutChess(d) => CrossPointType::CptChess(d.chess),
        BoardEvent::BeRemoveChess(_) => CrossPointType::CptEmpty,
    }
}

/// State of the event's cell before the event happened.
pub open spec fn event_before(e: BoardEvent) -> CrossPointType {
    match e {
        BoardEvent::BePutChess(_) => CrossPointType::CptEmpty,
        BoardEvent::BeRemoveChess(d) => CrossPointType::CptChess(d.chess),
    }
}

impl BoardEvent {
    pub fn get_coord_and_chess(&self) -> (r: CoordAndChess)
        ensures
            r == event_detail(*self),
    {
        match self {
            BoardEvent::BePutChess(d) => *d,
            BoardEvent::BeRemoveChess(d) => *d,
        }
    }

    pub fn get_coord(&self) -> (r: Coord)
        ensures
            r == event_detail(*self).coord,
    {
        match self {
            BoardEvent::BePutChess(d) => d.coord,
            BoardEvent::BeRemoveChess(d) => d.coord,
        }
    }

    pub fn get_chess(&self) -> (r: ChessType)
        ensures
            r == event_detail(*self).chess,
    {
        match self {
            BoardEvent::BePutChess(d) => d.chess,
            BoardEvent::BeRemoveChess(d) => d.chess,
        }
    }
}


/// The position one step from `coord` in direction `md` on a board of side
/// `size`, computed from the coordinates.
fn step_coord(size: usize, coord: Coord, md: MoveDirection) -> (r: Result<Coord, Error>)
    requires
        size <= MAX_SIZE,
        coord.row < size,
        coord.col < size,
    ensures
        match r {
            Ok(t) => neighbor(size as int, coord, md) == Some(t),
            Err(e) => neighbor(size as int, coord, md) == None::<Coord> && e.kind
                == ErrorKind::NoNeighbor,
        },
{
    let (mut row_i, mut col_i) = coord.as_i32s();
    match md {
        MoveDirection::MdUp => row_i = row_i - 1,
        MoveDirection::MdDown => row_i = row_i + 1,
        MoveDirection::MdLeft => col_i = col_i - 1,
        MoveDirection::MdRight => col_i = col_i + 1,
        MoveDirection::MdUpLeft => {
            row_i = row_i - 1;
            col_i = col_i - 1;
        },
        MoveDirection::MdUpRight => {
            row_i = row_i - 1;
            col_i = col_i + 1;
        },
        MoveDirection::MdDownLeft => {
            row_i = row_i + 1;
            col_i = col_i - 1;
        },
        MoveDirection::MdDownRight => {
            row_i = row_i + 1;
            col_i = col_i + 1;
        },
    }
    if row_i < 0 || col_i < 0 {
        return Err(Error::create_with_detail(ErrorKind::NoNeighbor, "moved to out of bound"));
    }
    let t = Coord::from_i32s(row_i, col_i);
    if t.row < size && t.col < size {
        Ok(t)
    } else {
        Err(Error::create_with_detail(ErrorKind::NoNeighbor, "moved to out of bound"))
    }
}

/// Something that wants to hear of every change made to a board.
pub trait BoardObserver: Sized {
    /// The observer once it has handled `event`.
    spec fn handled(&self, event: BoardEvent) -> Self;

    fn board_updated(&mut self, event: BoardEvent)
        ensures
            *final(self) == old(self).handled(event),
    ;
}

/// The observer `o` once it has handled `event` `k` times.
pub open spec fn handled_times<O: BoardObserver>(o: O, event: BoardEvent, k: nat) -> O
    decreases k,
{
    if k == 0 {
        o
    } else {
        handled_times(o, event, (k - 1) as nat).handled(event)
    }
}

/// How many times `id` is registered in `ids`.
pub open spec fn id_count(ids: Seq<usize>, id: usize) -> nat
    decreases ids.len(),
{
    if ids.len() == 0 {
        0
    } else {
        id_count(ids.drop_last(), id) + if ids.last() == id {
            1nat
        } else {
            0nat
        }
    }
}

/// The grid: cell states in row-major order, plus for every cell its
/// adjacency record, plus the ids of the observers that subscribed, in the
/// order they did. Only the board changes cell states.
pub struct Board {
    size: usize,
    cp_count: usize,
    cross_points: Vec<CrossPoint>,
    cross_point_linked_lists: Vec<CrossPointLinkedList>,
    observers: Vec<usize>,
}

impl Board {
    pub closed spec fn spec_size(&self) -> nat {
        self.size as nat
    }

    /// Ids of the subscribed observers, in the order they subscribed.
    pub closed spec fn spec_observers(&self) -> Seq<usize> {
        self.observers@
    }

    /// Cell states in row-major order.
    pub closed spec fn cells(&self) -> Seq<CrossPointType> {
        self.cross_points@.map_values(|p: CrossPoint| p.status)
    }

    /// State of the cell at `c`.
    pub open spec fn cell_at(&self, c: Coord) -> CrossPointType {
        self.cells()[cell_index(self.spec_size() as int, c.row as int, c.col as int)]
    }

    pub open spec fn valid(&self, c: Coord) -> bool {
        c.row < self.spec_size() && c.col < self.spec_size()
    }

    /// The adjacency record of cell `i`.
    pub closed spec fn link_at(&self, i: int) -> CrossPointLinkedList {
        self.cross_point_linked_lists@[i]
    }

    pub closed spec fn wf(&self) -> bool {
        &&& self.size <= MAX_SIZE
        &&& self.cp_count == self.size * self.size
        &&& self.cross_points@.len() == self.cp_count
        &&& self.cross_point_linked_lists@.len() == self.cp_count
        &&& forall|i: int|
            0 <= i < self.cp_count ==> Self::link_ok(
                self.size as int,
                i,
                #[trigger] self.cross_point_linked_lists@[i],
            )
    }

    /// The adjacency record of cell `i` is the one its position calls for.
    pub open spec fn link_ok(n: int, i: int, l: CrossPointLinkedList) -> bool {
        &&& l.wf()
        &&& l.spec_cross_point() == i
        &&& in_board(n, l.spec_coord().row as int, l.spec_coord().col as int)
        &&& cell_index(n, l.spec_coord().row as int, l.spec_coord().col as int) == i
        &&& forall|md: MoveDirection| #[trigger]
            l.spec_next(md) == neighbor_index(n, l.spec_coord(), md)
    }

    pub proof fn lemma_wf(&self)
        requires
            self.wf(),
        ensures
            self.spec_size() <= MAX_SIZE,
            self.cells().len() == self.spec_size() * self.spec_size(),
    {
    }

    fn create_empty(size: usize) -> (b: Board)
        requires
            size <= MAX_SIZE,
        ensures
            b.wf(),
            b.spec_size() == size,
            b.cells() == Seq::new((size * size) as nat, |i: int| CrossPointType::CptEmpty),
    {
        assert(size * size <= MAX_SIZE * MAX_SIZE) by (nonlinear_arith)
            requires
                size <= MAX_SIZE,
        ;
        let mut b = Board {
            size,
            cp_count: size * size,
            cross_points: Vec::new(),
            cross_point_linked_lists: Vec::new(),
            observers: Vec::new(),
        };
        b.initial_cross_points();
        b
    }

    /// A standard board of side 15.
    pub fn new() -> (b: Board)
        ensures
            b.wf(),
            b.spec_size() == 15,
            b.cells() == Seq::new(225, |i: int| CrossPointType::CptEmpty),
    {
        Self::create_empty(15)
    }

    pub fn create_with_size(size: usize) -> (b: Board)
        requires
            size <= MAX_SIZE,
        ensures
            b.wf(),
            b.spec_size() == size,
            b.cells() == Seq::new((size * size) as nat, |i: int| CrossPointType::CptEmpty),
    {
        Self::create_empty(size)
    }

    pub fn size(&self) -> (r: usize)
        ensures
            r == self.spec_size(),
    {
        self.size
    }

    pub fn cp_count(&self) -> (r: usize)
        requires
            self.wf(),
        ensures
            r == self.spec_size() * self.spec_size(),
    {
        self.cp_count
    }

    pub fn is_index_valid(&self, coord: Coord) -> (r: bool)
        ensures
            r == self.valid(coord),
    {
        coord.row < self.size && coord.col < self.size
    }

    pub fn coord_to_index(&self, coord: Coord) -> (r: usize)
        requires
            self.wf(),
            self.valid(coord),
        ensures
            r == cell_index(self.spec_size() as int, coord.row as int, coord.col as int),
            r < self.cells().len(),
    {
        proof {
            lemma_cell_index_bounds(self.size as int, coord.row as int, coord.col as int);
        }
        coord.row * self.size + coord.col
    }

    pub fn have_chess_at(&self, coord: Coord) -> (r: bool)
        requires
            self.wf(),
            self.valid(coord),
        ensures
            r == (self.cell_at(coord) != CrossPointType::CptEmpty),
    {
        let i = self.coord_to_index(coord);
        self.cross_points[i].have_chess()
    }

    pub fn get_chess_at(&self, coord: Coord) -> (r: ChessType)
        requires
            self.wf(),
            self.valid(coord),
            self.cell_at(coord) != CrossPointType::CptEmpty,
        ensures
            self.cell_at(coord) == CrossPointType::CptChess(r),
    {
        let i = self.coord_to_index(coord);
        self.cross_points[i].get_chess()
    }

    /// Places a stone on an empty cell and returns the event that records it.
    /// The observers hear of it only when the event is handed to
    /// `notify_observers`; `put_chess_and_notify` does both.
    pub fn put_chess_at(&mut self, coord: Coord, chess: ChessType) -> (r: Result<
        BoardEvent,
        Error,
    >)
        requires
            old(self).wf(),
        ensures
            final(self).wf(),
            final(self).spec_size() == old(self).spec_size(),
            !old(self).valid(coord) ==> (r matches Err(e) && e.kind == ErrorKind::OutOfBounds),
            old(self).valid(coord) && old(self).cell_at(coord) != CrossPointType::CptEmpty
                ==> (r matches Err(e) && e.kind == ErrorKind::CellOccupied),
            old(self).valid(coord) && old(self).cell_at(coord) == CrossPointType::CptEmpty
                ==> r == Ok::<BoardEvent, Error>(
                BoardEvent::BePutChess(CoordAndChess { coord, chess }),
            ),
            final(self).spec_observers() == old(self).spec_observers(),
            r is Ok ==> final(self).cells() == old(self).cells().update(
                cell_index(old(self).spec_size() as int, coord.row as int, coord.col as int),
                CrossPointType::CptChess(chess),
            ),
            r is Err ==> final(self).cells() == old(self).cells(),
    {
        if !self.is_index_valid(coord) {
            return Err(Error::create_with_detail(ErrorKind::OutOfBounds, "coord is not valid"));
        }
        let i = self.coord_to_index(coord);
        let mut cp = self.cross_points[i];
        if cp.have_chess() {
            return Err(
                Error::create_with_detail(ErrorKind::CellOccupied, "there already have a chess"),
            );
        }
        cp.put_chess(chess);
        self.cross_points.set(i, cp);
        proof {
            assert(self.cells() =~= old(self).cells().update(i as int, CrossPointType::CptChess(chess)));
        }
        Ok(BoardEvent::BePutChess(CoordAndChess { coord, chess }))
    }

    /// Takes the stone off a cell and returns the event that records it,
    /// carrying the colour that was there. The observers hear of it only when
    /// the event is handed to `notify_observers`; `remove_chess_and_notify`
    /// does both.
    pub fn remove_chess_at(&mut self, coord: Coord) -> (r: Result<BoardEvent, Error>)
        requires
            old(self).wf(),
        ensures
            final(self).wf(),
            final(self).spec_size() == old(self).spec_size(),
            !old(self).valid(coord) ==> (r matches Err(e) && e.kind == ErrorKind::OutOfBounds),
            old(self).valid(coord) && old(self).cell_at(coord) == CrossPointType::CptEmpty
                ==> (r matches Err(e) && e.kind == ErrorKind::CellEmpty),
            old(self).valid(coord) ==> forall|c: ChessType|
                old(self).cell_at(coord) == CrossPointType::CptChess(c) ==> r == Ok::<
                    BoardEvent,
                    Error,
                >(BoardEvent::BeRemoveChess(CoordAndChess { coord, chess: c })),
            final(self).spec_observers() == old(self).spec_observers(),
            r is Ok ==> final(self).cells() == old(self).cells().update(
                cell_index(old(self).spec_size() as int, coord.row as int, coord.col as int),
                CrossPointType::CptEmpty,
            ),
            r is Err ==> final(self).cells() == old(self).cells(),
    {
        if !self.is_index_valid(coord) {
            return Err(Error::create_with_detail(ErrorKind::OutOfBounds, "coord is not valid"));
        }
        let i = self.coord_to_index(coord);
        let mut cp = self.cross_points[i];
        if !cp.have_chess() {
            return Err(
                Error::create_with_detail(ErrorKind::CellEmpty, "no chess to remove here"),
            );
        }
        let chess = cp.get_chess();
        cp.remove_chess();
        self.cross_points.set(i, cp);
        proof {
            assert(self.cells() =~= old(self).cells().update(i as int, CrossPointType::CptEmpty));
        }
        Ok(BoardEvent::BeRemoveChess(CoordAndChess { coord, chess }))
    }

    /// State of the cell at `coord`.
    pub fn get_cross_point_type_at(&self, coord: Coord) -> (r: Result<CrossPointType, Error>)
        requires
            self.wf(),
        ensures
            !self.valid(coord) ==> (r matches Err(e) && e.kind == ErrorKind::OutOfBounds),
            self.valid(coord) ==> r == Ok::<CrossPointType, Error>(self.cell_at(coord)),
    {
        if !self.is_index_valid(coord) {
            return Err(Error::create_with_detail(ErrorKind::OutOfBounds, "coord is not valid"));
        }
        let i = self.coord_to_index(coord);
        Ok(self.cross_points[i].get_cross_point_type())
    }

    /// The neighbour of `coord` in direction `md`, read from the adjacency table.
    pub fn move_by_coord(&self, coord: Coord, md: MoveDirection) -> (r: Result<Coord, Error>)
        requires
            self.wf(),
            self.valid(coord),
        ensures
            match r {
                Ok(t) => neighbor(self.spec_size() as int, coord, md) == Some(t),
                Err(e) => neighbor(self.spec_size() as int, coord, md) == None::<Coord> && e.kind
                    == ErrorKind::NoNeighbor,
            },
    {
        let l = self.get_cross_point_l_at(coord);
        match l.get_next(md) {
            Some(j) => {
                let ghost n = self.size as int;
                let ghost nb = neighbor(n, coord, md).unwrap();
                proof {
                    lemma_cell_index_bounds(n, nb.row as int, nb.col as int);
                }
                let t = self.cross_point_linked_lists[j].get_coord();
                proof {
                    let lt = self.cross_point_linked_lists@[j as int];
                    assert(Self::link_ok(n, j as int, lt));
                    lemma_cell_index_unique(n, nb.row as int, nb.col as int, t.row as int, t.col as int);
                }
                Ok(t)
            },
            None => Err(Error::create_with_detail(ErrorKind::NoNeighbor, "moved to out of bound")),
        }
    }

    /// The adjacency record of the neighbour of `coord` in direction `md`.
    pub fn move_by_cross_point_l(&self, coord: Coord, md: MoveDirection) -> (r: Result<
        &CrossPointLinkedList,
        Error,
    >)
        requires
            self.wf(),
            self.valid(coord),
        ensures
            match r {
                Ok(l) => neighbor(self.spec_size() as int, coord, md) == Some(l.spec_coord())
                    && l.spec_cross_point() == cell_index(
                    self.spec_size() as int,
                    l.spec_coord().row as int,
                    l.spec_coord().col as int,
                ),
                Err(e) => neighbor(self.spec_size() as int, coord, md) == None::<Coord> && e.kind
                    == ErrorKind::NoNeighbor,
            },
    {
        match self.move_by_coord(coord, md) {
            Ok(t) => Ok(self.get_cross_point_l_at(t)),
            Err(e) => Err(e),
        }
    }

    /// A copy of the cell at `coord`.
    pub fn get_cross_point_at(&self, coord: Coord) -> (r: CrossPoint)
        requires
            self.wf(),
            self.valid(coord),
        ensures
            r.status == self.cell_at(coord),
    {
        let i = self.coord_to_index(coord);
        self.cross_points[i]
    }

    /// The adjacency record of the cell at `coord`.
    pub fn get_cross_point_l_at(&self, coord: Coord) -> (r: &CrossPointLinkedList)
        requires
            self.wf(),
            self.valid(coord),
        ensures
            r.wf(),
            r.spec_coord() == coord,
            r.spec_cross_point() == cell_index(
                self.spec_size() as int,
                coord.row as int,
                coord.col as int,
            ),
            forall|md: MoveDirection| #[trigger]
                r.spec_next(md) == neighbor_index(self.spec_size() as int, coord, md),
    {
        let i = self.coord_to_index(coord);
        let l = &self.cross_point_linked_lists[i];
        proof {
            assert(Self::link_ok(self.size as int, i as int, *l));
            lemma_cell_index_unique(
                self.size as int,
                coord.row as int,
                coord.col as int,
                l.coord.row as int,
                l.coord.col as int,
            );
        }
        l
    }

    /// Subscribes the observer with id `observer`; it is told of changes
    /// after those that subscribed before it.
    pub fn add_observers(&mut self, observer: usize)
        requires
            old(self).wf(),
        ensures
            final(self).wf(),
            final(self).spec_size() == old(self).spec_size(),
            final(self).cells() == old(self).cells(),
            final(self).spec_observers() == old(self).spec_observers().push(observer),
    {
        self.observers.push(observer);
    }

    /// Unsubscribes every entry of the observer with id `observer`.
    pub fn remove_observers(&mut self, observer: usize)
        requires
            old(self).wf(),
        ensures
            final(self).wf(),
            final(self).spec_size() == old(self).spec_size(),
            final(self).cells() == old(self).cells(),
            final(self).spec_observers() == old(self).spec_observers().filter(
                |x: usize| x != observer,
            ),
    {
        let ghost all = self.observers@;
        let mut kept: Vec<usize> = Vec::new();
        let mut i: usize = 0;
        while i < self.observers.len()
            invariant
                self.observers@ == all,
                i <= all.len(),
                kept@ == all.take(i as int).filter(|x: usize| x != observer),
            decreases all.len() - i,
        {
            proof {
                reveal(Seq::filter);
                assert(all.take(i + 1).drop_last() =~= all.take(i as int));
            }
            let id = self.observers[i];
            if id != observer {
                kept.push(id);
            }
            i = i + 1;
        }
        proof {
            assert(all.take(all.len() as int) =~= all);
        }
        self.observers = kept;
    }

    /// Tells `event` to each subscribed observer, in the order they
    /// subscribed; an id is the observer's place in `subscribers`, and an id
    /// with no observer there is passed over. Each observer handles the event
    /// once for each time its id is registered; the others are left as they were.
    pub fn notify_observers<O: BoardObserver>(&self, event: BoardEvent, subscribers: &mut Vec<O>)
        ensures
            final(subscribers)@.len() == old(subscribers)@.len(),
            forall|id: usize|
                id < old(subscribers)@.len() ==> #[trigger] final(subscribers)@[id as int]
                    == handled_times(
                    old(subscribers)@[id as int],
                    event,
                    id_count(self.spec_observers(), id),
                ),
            forall|id: usize|
                id < old(subscribers)@.len() && id_count(self.spec_observers(), id) == 0
                    ==> #[trigger] final(subscribers)@[id as int] == old(subscribers)@[id as int],
            forall|id: usize|
                id < old(subscribers)@.len() && id_count(self.spec_observers(), id) == 1
                    ==> #[trigger] final(subscribers)@[id as int] == old(subscribers)@[id as int].handled(event),
    {
        let ghost ids = self.observers@;
        let mut i: usize = 0;
        while i < self.observers.len()
            invariant
                ids == self.observers@,
                i <= ids.len(),
                subscribers@.len() == old(subscribers)@.len(),
                forall|id: usize|
                    id < subscribers@.len() ==> #[trigger] subscribers@[id as int] == handled_times(
                        old(subscribers)@[id as int],
                        event,
                        id_count(ids.take(i as int), id),
                    ),
            decreases ids.len() - i,
        {
            proof {
                assert(ids.take(i + 1).drop_last() =~= ids.take(i as int));
            }
            let id = self.observers[i];
            if id < subscribers.len() {
                subscribers[id].board_updated(event);
            }
            i = i + 1;
        }
        proof {
            assert(ids.take(ids.len() as int) =~= ids);
            assert forall|id: usize|
                id < old(subscribers)@.len() && id_count(ids, id) == 1 implies #[trigger] subscribers@[id as int]
                == old(subscribers)@[id as int].handled(event) by {
                assert(handled_times(old(subscribers)@[id as int], event, 0) == old(subscribers)@[id as int]);
            }
        }
    }

    /// Places a stone as `put_chess_at` does and, when it went on, tells the
    /// event to the subscribed observers as `notify_observers` does.
    pub fn put_chess_and_notify<O: BoardObserver>(
        &mut self,
        coord: Coord,
        chess: ChessType,
        subscribers: &mut Vec<O>,
    ) -> (r: Result<BoardEvent, Error>)
        requires
            old(self).wf(),
        ensures
            final(self).wf(),
            final(self).spec_size() == old(self).spec_size(),
            final(self).spec_observers() == old(self).spec_observers(),
            !old(self).valid(coord) ==> (r matches Err(e) && e.kind == ErrorKind::OutOfBounds),
            old(self).valid(coord) && old(self).cell_at(coord) != CrossPointType::CptEmpty
                ==> (r matches Err(e) && e.kind == ErrorKind::CellOccupied),
            old(self).valid(coord) && old(self).cell_at(coord) == CrossPointType::CptEmpty
                ==> r == Ok::<BoardEvent, Error>(
                BoardEvent::BePutChess(CoordAndChess { coord, chess }),
            ),
            r is Ok ==> final(self).cells() == old(self).cells().update(
                cell_index(old(self).spec_size() as int, coord.row as int, coord.col as int),
                CrossPointType::CptChess(chess),
            ),
            r is Err ==> final(self).cells() == old(self).cells(),
            final(subscribers)@.len() == old(subscribers)@.len(),
            r is Err ==> final(subscribers)@ == old(subscribers)@,
            r is Ok ==> forall|id: usize|
                id < old(subscribers)@.len() ==> #[trigger] final(subscribers)@[id as int]
                    == handled_times(
                    old(subscribers)@[id as int],
                    r->Ok_0,
                    id_count(old(self).spec_observers(), id),
                ),
    {
        let r = self.put_chess_at(coord, chess);
        match r {
            Ok(e) => {
                self.notify_observers(e, subscribers);
                Ok(e)
            },
            Err(e) => Err(e),
        }
    }

    /// Takes a stone off as `remove_chess_at` does and, when it came off,
    /// tells the event to the subscribed observers as `notify_observers` does.
    pub fn remove_chess_and_notify<O: BoardObserver>(
        &mut self,
        coord: Coord,
        subscribers: &mut Vec<O>,
    ) -> (r: Result<BoardEvent, Error>)
        requires
            old(self).wf(),
        ensures
            final(self).wf(),
            final(self).spec_size() == old(self).spec_size(),
            final(self).spec_observers() == old(self).spec_observers(),
            !old(self).valid(coord) ==> (r matches Err(e) && e.kind == ErrorKind::OutOfBounds),
            old(self).valid(coord) && old(self).cell_at(coord) == CrossPointType::CptEmpty
                ==> (r matches Err(e) && e.kind == ErrorKind::CellEmpty),
            old(self).valid(coord) ==> forall|c: ChessType|
                old(self).cell_at(coord) == CrossPointType::CptChess(c) ==> r == Ok::<
                    BoardEvent,
                    Error,
                >(BoardEvent::BeRemoveChess(CoordAndChess { coord, chess: c })),
            r is Ok ==> final(self).cells() == old(self).cells().update(
                cell_index(old(self).spec_size() as int, coord.row as int, coord.col as int),
                CrossPointType::CptEmpty,
            ),
            r is Err ==> final(self).cells() == old(self).cells(),
            final(subscribers)@.len() == old(subscribers)@.len(),
            r is Err ==> final(subscribers)@ == old(subscribers)@,
            r is Ok ==> forall|id: usize|
                id < old(subscribers)@.len() ==> #[trigger] final(subscribers)@[id as int]
                    == handled_times(
                    old(subscribers)@[id as int],
                    r->Ok_0,
                    id_count(old(self).spec_observers(), id),
                ),
    {
        let r = self.remove_chess_at(coord);
        match r {
            Ok(e) => {
                self.notify_observers(e, subscribers);
                Ok(e)
            },
            Err(e) => Err(e),
        }
    }

    /// The neighbour of `coord` in direction `md`, computed from the coordinates.
    pub fn move_to(&self, coord: Coord, md: MoveDirection) -> (r: Result<Coord, Error>)
        requires
            self.wf(),
            self.valid(coord),
        ensures
            match r {
                Ok(t) => neighbor(self.spec_size() as int, coord, md) == Some(t),
                Err(e) => neighbor(self.spec_size() as int, coord, md) == None::<Coord> && e.kind
                    == ErrorKind::NoNeighbor,
            },
    {
        step_coord(self.size, coord, md)
    }

    /// Fills an empty board of the recorded size: every cell empty, every
    /// adjacency record linked to its neighbours.
    fn initial_cross_points(&mut self)
        requires
            old(self).size <= MAX_SIZE,
            old(self).cp_count == old(self).size * old(self).size,
            old(self).cross_points@.len() == 0,
            old(self).cross_point_linked_lists@.len() == 0,
        ensures
            final(self).wf(),
            final(self).size == old(self).size,
            final(self).cells() == Seq::new(
                (old(self).size * old(self).size) as nat,
                |i: int| CrossPointType::CptEmpty,
            ),
    {
        let size = self.size;
        let ghost n = size as int;
        let mut row: usize = 0;
        while row < size
            invariant
                size == self.size,
                n == size,
                size <= MAX_SIZE,
                self.cp_count == size * size,
                row <= size,
                self.cross_points@.len() == row * size,
                self.cross_point_linked_lists@.len() == row * size,
                forall|i: int|
                    0 <= i < row * size ==> #[trigger] self.cross_points@[i].status
                        == CrossPointType::CptEmpty,
                forall|i: int|
                    0 <= i < row * size ==> Self::link_ok(
                        n,
                        i,
                        #[trigger] self.cross_point_linked_lists@[i],
                    ),
            decreases size - row,
        {
            let mut col: usize = 0;
            while col < size
                invariant
                    size == self.size,
                    n == size,
                    size <= MAX_SIZE,
                    self.cp_count == size * size,
                    row < size,
                    col <= size,
                    self.cross_points@.len() == row * size + col,
                    self.cross_point_linked_lists@.len() == row * size + col,
                    forall|i: int|
                        0 <= i < row * size + col ==> #[trigger] self.cross_points@[i].status
                            == CrossPointType::CptEmpty,
                    forall|i: int|
                        0 <= i < row * size + col ==> Self::link_ok(
                            n,
                            i,
                            #[trigger] self.cross_point_linked_lists@[i],
                        ),
                decreases size - col,
            {
                proof {
                    lemma_cell_index_bounds(n, row as int, col as int);
                }
                let coord = Coord { row, col };
                let index = row * size + col;
                let mut node = CrossPointLinkedList::create(index, coord);
                let mut d: usize = 0;
                while d < 8
                    invariant
                        size <= MAX_SIZE,
                        n == size,
                        row < size,
                        col < size,
                        d <= 8,
                        node.wf(),
                        coord == (Coord { row, col }),
                        node.spec_cross_point() == index,
                        node.spec_coord() == coord,
                        forall|j: int|
                            0 <= j < d ==> #[trigger] node.spec_next(md_of(j)) == neighbor_index(
                                n,
                                coord,
                                md_of(j),
                            ),
                        forall|j: int| d <= j < 8 ==> #[trigger] node.spec_next(md_of(j)) == None::<usize>,
                    decreases 8 - d,
                {
                    let md = direction_at(d);
                    match step_coord(size, coord, md) {
                        Ok(t) => {
                            proof {
                                lemma_cell_index_bounds(n, t.row as int, t.col as int);
                                assert(n * n <= MAX_SIZE * MAX_SIZE) by (nonlinear_arith)
                                    requires
                                        0 <= n <= MAX_SIZE,
                                ;
                            }
                            node.insert_link(md, t.row * size + t.col);
                        },
                        Err(_) => {},
                    }
                    assert forall|j: int| 0 <= j < d + 1 implies #[trigger] node.spec_next(md_of(j))
                        == neighbor_index(n, coord, md_of(j)) by {
                        assert(md_index(md_of(j)) == j);
                    }
                    assert forall|j: int| d + 1 <= j < 8 implies #[trigger] node.spec_next(md_of(j))
                        == None::<usize> by {
                        assert(md_index(md_of(j)) == j);
                    }
                    d = d + 1;
                }
                assert forall|md: MoveDirection| #[trigger]
                    node.spec_next(md) == neighbor_index(n, coord, md) by {
                    assert(md_of(md_index(md)) == md);
                    assert(node.spec_next(md_of(md_index(md))) == neighbor_index(n, coord, md_of(md_index(md))));
                }
                self.cross_points.push(CrossPoint::new());
                self.cross_point_linked_lists.push(node);
                col = col + 1;
            }
            assert((row + 1) * size == row * size + size) by (nonlinear_arith);
            row = row + 1;
        }
        assert(self.cells() =~= Seq::new((size * size) as nat, |i: int| CrossPointType::CptEmpty));
    }
}

} // verus!
