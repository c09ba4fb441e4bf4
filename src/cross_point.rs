use vstd::prelude::*;

verus! {

/// One of the two colours of stones.
#[derive(PartialEq, Eq, Structural, Copy, Clone, Debug, Hash)]
pub enum ChessType {
    CtBlack,
    CtWhite,
}

/// The opposing colour.
pub open spec fn other_chess(c: ChessType) -> ChessType {
    match c {
        ChessType::CtBlack => ChessType::CtWhite,
        ChessType::CtWhite => ChessType::CtBlack,
    }
}

impl ChessType {
    pub fn get_different_chess(&self) -> (r: ChessType)
        ensures
            r == other_chess(*self),
            other_chess(r) == *self,
    {
        match *self {
            ChessType::CtBlack => ChessType::CtWhite,
            ChessType::CtWhite => ChessType::CtBlack,
        }
    }
}

/// State of one intersection of the grid.
#[derive(PartialEq, Eq, Structural, Copy, Clone, Debug, Hash)]
pub enum CrossPointType {
    CptEmpty,
    CptChess(ChessType),
}

/// One intersection of the grid. It only ever goes from empty to occupied
/// and back; replacing one stone by another is not an operation it has.
#[derive(PartialEq, Eq, Structural, Copy, Clone, Debug)]
pub struct CrossPoint {
    pub status: CrossPointType,
}

impl CrossPoint {
    pub fn new() -> (r: CrossPoint)
        ensures
            r.status == CrossPointType::CptEmpty,
    {
        CrossPoint { status: CrossPointType::CptEmpty }
    }

    pub fn create_with_chess(chess: ChessType) -> (r: CrossPoint)
        ensures
            r.status == CrossPointType::CptChess(chess),
    {
        CrossPoint { status: CrossPointType::CptChess(chess) }
    }

    pub fn have_chess(&self) -> (r: bool)
        ensures
            r == (self.status != CrossPointType::CptEmpty),
    {
        match self.status {
            CrossPointType::CptEmpty => false,
            CrossPointType::CptChess(_) => true,
        }
    }

    pub fn get_chess(&self) -> (r: ChessType)
        requires
            self.status != CrossPointType::CptEmpty,
        ensures
            self.status == CrossPointType::CptChess(r),
    {
        match self.status {
            CrossPointType::CptChess(c) => c,
            CrossPointType::CptEmpty => ChessType::CtBlack,
        }
    }

    pub fn put_chess(&mut self, chess: ChessType)
        requires
            old(self).status == CrossPointType::CptEmpty,
        ensures
            final(self).status == CrossPointType::CptChess(chess),
    {
        self.status = CrossPointType::CptChess(chess);
    }

    pub fn remove_chess(&mut self)
        requires
            old(self).status != CrossPointType::CptEmpty,
        ensures
            final(self).status == CrossPointType::CptEmpty,
    {
        self.status = CrossPointType::CptEmpty;
    }

    pub fn get_cross_point_type(&self) -> (r: CrossPointType)
        ensures
            r == self.status,
    {
        self.status
    }
}

} // verus!
