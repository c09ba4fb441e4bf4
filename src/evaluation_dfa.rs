use vstd::prelude::*;
use crate::board::{event_before, BoardEvent};
use crate::cross_point::{ChessType, CrossPointType};

verus! {

/// Score of a window that holds no stone: the potential of open space.
pub const NONE_SCORE: i64 = 7;

/// Score of a window that holds stones of both colours: it can never be won.
pub const BOTH_SCORE: i64 = 0;

/// Largest score a single window can have.
pub const MAX_WINDOW_SCORE: i64 = 800000;

/// Number of cells of `s` equal to `x`.
pub open spec fn count_of(s: Seq<CrossPointType>, x: CrossPointType) -> nat
    decreases s.len(),
{
    if s.len() == 0 {
        0
    } else {
        count_of(s.drop_last(), x) + if s.last() == x {
            1nat
        } else {
            0nat
        }
    }
}

/// Score of a window holding `k` black stones and no white one.
pub open spec fn black_score(k: int) -> int {
    if k == 1 {
        15
    } else if k == 2 {
        400
    } else if k == 3 {
        1800
    } else if k == 4 {
        100000
    } else {
        0
    }
}

/// Score of a window holding `k` white stones and no black one.
pub open spec fn white_score(k: int) -> int {
    if k == 1 {
        35
    } else if k == 2 {
        800
    } else if k == 3 {
        15000
    } else if k == 4 {
        800000
    } else {
        0
    }
}

/// Score of a window from its stone counts.
pub open spec fn score_of_counts(black: int, white: int) -> int {
    if black > 0 && white > 0 {
        BOTH_SCORE as int
    } else if black > 0 {
        black_score(black)
    } else if white > 0 {
        white_score(white)
    } else {
        NONE_SCORE as int
    }
}

/// Score of the window whose cells are `s`.
pub open spec fn window_score(s: Seq<CrossPointType>) -> int {
    score_of_counts(
        count_of(s, CrossPointType::CptChess(ChessType::CtBlack)) as int,
        count_of(s, CrossPointType::CptChess(ChessType::CtWhite)) as int,
    )
}

pub proof fn lemma_window_score_bounds(s: Seq<CrossPointType>)
    ensures
        0 <= window_score(s) <= MAX_WINDOW_SCORE,
{
}

pub proof fn lemma_count_of_le(s: Seq<CrossPointType>, x: CrossPointType)
    ensures
        count_of(s, x) <= s.len(),
    decreases s.len(),
{
    if s.len() > 0 {
        lemma_count_of_le(s.drop_last(), x);
    }
}

/// A cell that differs from `x` keeps the count of `x` below the length.
pub proof fn lemma_count_of_lt(s: Seq<CrossPointType>, x: CrossPointType, j: int)
    requires
        0 <= j < s.len(),
        s[j] != x,
    ensures
        count_of(s, x) < s.len(),
    decreases s.len(),
{
    lemma_count_of_le(s.drop_last(), x);
    if j < s.len() - 1 {
        lemma_count_of_lt(s.drop_last(), x, j);
    }
}

/// A cell equal to `x` makes the count of `x` positive.
pub proof fn lemma_count_of_pos(s: Seq<CrossPointType>, x: CrossPointType, j: int)
    requires
        0 <= j < s.len(),
        s[j] == x,
    ensures
        count_of(s, x) > 0,
    decreases s.len(),
{
    if j < s.len() - 1 {
        lemma_count_of_pos(s.drop_last(), x, j);
    }
}

/// When every cell equals `x`, the count of `x` is the length.
pub proof fn lemma_count_of_all(s: Seq<CrossPointType>, x: CrossPointType)
    requires
        forall|i: int| 0 <= i < s.len() ==> s[i] == x,
    ensures
        count_of(s, x) == s.len(),
    decreases s.len(),
{
    if s.len() > 0 {
        lemma_count_of_all(s.drop_last(), x);
    }
}

/// A window that holds stones of both colours scores exactly the dead-window
/// score, 0, whatever the counts.
pub proof fn lemma_dead_window_scores_zero(s: Seq<CrossPointType>, i: int, j: int)
    requires
        0 <= i < s.len(),
        0 <= j < s.len(),
        s[i] == CrossPointType::CptChess(ChessType::CtBlack),
        s[j] == CrossPointType::CptChess(ChessType::CtWhite),
    ensures
        window_score(s) == BOTH_SCORE,
        window_score(s) == 0,
{
    lemma_count_of_pos(s, CrossPointType::CptChess(ChessType::CtBlack), i);
    lemma_count_of_pos(s, CrossPointType::CptChess(ChessType::CtWhite), j);
}

fn black_table(k: usize) -> (r: i64)
    ensures
        r == black_score(k as int),
{
    if k == 1 {
        15
    } else if k == 2 {
        400
    } else if k == 3 {
        1800
    } else if k == 4 {
        100000
    } else {
        0
    }
}

fn white_table(k: usize) -> (r: i64)
    ensures
        r == white_score(k as int),
{
    if k == 1 {
        35
    } else if k == 2 {
        800
    } else if k == 3 {
        15000
    } else if k == 4 {
        800000
    } else {
        0
    }
}

/// Counts the cells of `s` equal to `x`.
pub fn count_cells(s: &[CrossPointType], x: CrossPointType) -> (r: usize)
    ensures
        r == count_of(s@, x),
{
    let mut num: usize = 0;
    let mut i: usize = 0;
    while i < s.len()
        invariant
            i <= s@.len(),
            num == count_of(s@.take(i as int), x),
            num <= i,
        decreases s@.len() - i,
    {
        proof {
            assert(s@.take(i as int + 1).drop_last() =~= s@.take(i as int));
        }
        if s[i] == x {
            num = num + 1;
        }
        i = i + 1;
    }
    proof {
        assert(s@.take(s@.len() as int) =~= s@);
    }
    num
}

/// Scores windows from their stone counts with a fixed table per colour.
pub struct EvaluationDfa {}

impl EvaluationDfa {
    pub fn new() -> (r: EvaluationDfa) {
        EvaluationDfa {  }
    }

    /// Score of the window whose cells are `cross_points`.
    pub fn evaluate_tuple(&self, cross_points: &[CrossPointType]) -> (r: i64)
        requires
            cross_points@.len() == 5,
        ensures
            r == window_score(cross_points@),
    {
        let black = count_cells(cross_points, CrossPointType::CptChess(ChessType::CtBlack));
        let white = count_cells(cross_points, CrossPointType::CptChess(ChessType::CtWhite));
        if black > 0 {
            if white > 0 {
                BOTH_SCORE
            } else {
                black_table(black)
            }
        } else if white > 0 {
            white_table(white)
        } else {
            NONE_SCORE
        }
    }

    /// Change of a window's score made by `event`, the window being as it
    /// stands after the event with the event's cell at `index`. On exit that
    /// cell is put back as it was before the event.
    pub fn evaluate_event(
        &self,
        cross_points: &mut [CrossPointType],
        index: usize,
        event: BoardEvent,
    ) -> (r: i64)
        requires
            old(cross_points)@.len() == 5,
            index < 5,
        ensures
            final(cross_points)@ == old(cross_points)@.update(index as int, event_before(event)),
            r == window_score(old(cross_points)@) - window_score(final(cross_points)@),
    {
        let new_score = self.evaluate_tuple(cross_points);
        match event {
            BoardEvent::BePutChess(_) => {
                cross_points[index] = CrossPointType::CptEmpty;
            },
            BoardEvent::BeRemoveChess(d) => {
                cross_points[index] = CrossPointType::CptChess(d.chess);
            },
        }
        let old_score = self.evaluate_tuple(cross_points);
        new_score - old_score
    }
}

} // verus!
