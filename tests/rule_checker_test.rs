use gomoku_core::board::{Board, BoardEvent, Coord, CoordAndChess};
use gomoku_core::cross_point::ChessType;
use gomoku_core::cross_point::ChessType::{CtBlack, CtWhite};
use gomoku_core::cross_point::CrossPointType::{CptChess, CptEmpty};
use gomoku_core::evaluation_dfa::EvaluationDfa;
use gomoku_core::rule_checker::GameStatus::{GsGameContinue, GsGameOver};
use gomoku_core::rule_checker::RuleChecker;
use gomoku_core::utils::ErrorKind;

fn put(rc: &mut RuleChecker, row: usize, col: usize, chess: ChessType) {
    rc.put_chess_at(Coord { row, col }, chess).unwrap();
}

fn remove(rc: &mut RuleChecker, row: usize, col: usize) {
    rc.remove_chess_at(Coord { row, col }).unwrap();
}

fn consistent(rc: &RuleChecker) {
    assert_eq!(rc.get_evaluation(), rc.full_evaluation());
    assert_eq!(rc.game_status(), rc.check_game_status());
}

#[test]
fn check_game_status() {
    for row in 0..10 {
        for col in 0..10 {
            let board = Board::new();
            let mut rule_checker = RuleChecker::create_with_detail(board);
            let rc = &mut rule_checker;

            put(rc, row + 0, col + 0, CtBlack);
            put(rc, row + 0, col + 1, CtWhite);
            put(rc, row + 0, col + 3, CtBlack);
            put(rc, row + 0, col + 4, CtWhite);
            put(rc, row + 1, col + 0, CtWhite);
            put(rc, row + 1, col + 2, CtBlack);
            put(rc, row + 1, col + 3, CtWhite);
            put(rc, row + 2, col + 1, CtBlack);
            put(rc, row + 2, col + 2, CtWhite);
            put(rc, row + 2, col + 4, CtBlack);
            put(rc, row + 3, col + 0, CtBlack);
            put(rc, row + 3, col + 1, CtWhite);
            put(rc, row + 3, col + 3, CtBlack);
            put(rc, row + 3, col + 4, CtWhite);
            put(rc, row + 4, col + 2, CtBlack);
            put(rc, row + 4, col + 3, CtWhite);
            assert_eq!(rc.check_game_status(), GsGameContinue);

            put(rc, row + 4, col + 0, CtWhite);
            assert_eq!(rc.check_game_status(), GsGameOver(CtWhite));
            assert_eq!(rc.game_status(), GsGameOver(CtWhite));

            remove(rc, row + 2, col + 2);
            put(rc, row + 1, col + 1, CtBlack);
            put(rc, row + 2, col + 2, CtBlack);
            put(rc, row + 4, col + 4, CtBlack);
            assert_eq!(rc.check_game_status(), GsGameOver(CtBlack));
            assert_eq!(rc.game_status(), GsGameOver(CtBlack));

            remove(rc, row + 0, col + 0);
            put(rc, row + 0, col + 2, CtBlack);
            put(rc, row + 3, col + 2, CtBlack);
            assert_eq!(rc.check_game_status(), GsGameOver(CtBlack));
            assert_eq!(rc.game_status(), GsGameOver(CtBlack));

            remove(rc, row + 1, col + 1);
            remove(rc, row + 1, col + 2);
            put(rc, row + 1, col + 1, CtWhite);
            put(rc, row + 1, col + 2, CtWhite);
            put(rc, row + 1, col + 4, CtWhite);
            assert_eq!(rc.check_game_status(), GsGameOver(CtWhite));
            assert_eq!(rc.game_status(), GsGameOver(CtWhite));
        }
    }
}

#[test]
fn update_evaluation_by_event() {
    let board = Board::create_with_size(15);
    let mut rule_checker = RuleChecker::create_with_detail(board);
    let rc = &mut rule_checker;

    put(rc, 13, 7, CtWhite);
    put(rc, 13, 9, CtWhite);
    put(rc, 13, 8, CtBlack);
    consistent(rc);
}

#[test]
fn rule_checker_observer_test_it_works() {
    let board = Board::new();
    let mut rule_checker = RuleChecker::create_with_detail(board);
    let rc = &mut rule_checker;
    let start = rc.get_evaluation();

    put(rc, 0, 0, CtBlack);
    consistent(rc);
    put(rc, 0, 1, CtBlack);
    consistent(rc);
    remove(rc, 0, 0);
    consistent(rc);
    remove(rc, 0, 1);
    consistent(rc);
    assert_eq!(rc.get_evaluation(), start);
}

#[test]
fn window_counts_per_size() {
    for n in 5..=15usize {
        let rc = RuleChecker::create_with_detail(Board::create_with_size(n));
        let straight = n * (n - 4);
        let diagonal = (n - 4) * (n - 4);
        assert_eq!(rc.window_count(), 2 * straight + 2 * diagonal);
    }
    assert_eq!(RuleChecker::create_with_detail(Board::create_with_size(5)).window_count(), 12);
    assert_eq!(RuleChecker::create_with_detail(Board::create_with_size(15)).window_count(), 572);
    for n in 0..5usize {
        assert_eq!(RuleChecker::create_with_detail(Board::create_with_size(n)).window_count(), 0);
    }
}

#[test]
fn empty_board_score() {
    // every window of an empty board scores 7
    let rc = RuleChecker::create_with_detail(Board::new());
    assert_eq!(rc.get_evaluation(), 7 * 572);
    assert_eq!(rc.full_evaluation(), 7 * 572);
    assert_eq!(rc.get_tuple_score(0), 7);
}

#[test]
fn five_in_a_row_on_each_axis() {
    // (start, step) for horizontal, vertical and both diagonals
    let lines: [((usize, usize), (isize, isize)); 4] =
        [((7, 3), (0, 1)), ((2, 9), (1, 0)), ((4, 4), (1, 1)), ((3, 12), (1, -1))];
    for chess in [CtBlack, CtWhite] {
        for ((r0, c0), (dr, dc)) in lines.iter() {
            for removed in 0..5 {
                let mut rc = RuleChecker::create_with_detail(Board::new());
                let cell = |i: isize| {
                    ((*r0 as isize + dr * i) as usize, (*c0 as isize + dc * i) as usize)
                };
                for i in 0..5 {
                    assert_eq!(rc.game_status(), GsGameContinue);
                    let (r, c) = cell(i);
                    put(&mut rc, r, c, chess);
                    consistent(&rc);
                }
                assert_eq!(rc.game_status(), GsGameOver(chess));
                let (r, c) = cell(removed);
                remove(&mut rc, r, c);
                consistent(&rc);
                assert_eq!(rc.game_status(), GsGameContinue);
            }
        }
    }
}

#[test]
fn place_then_remove_restores_score() {
    let mut rc = RuleChecker::create_with_detail(Board::new());
    put(&mut rc, 7, 7, CtBlack);
    put(&mut rc, 7, 8, CtWhite);
    put(&mut rc, 6, 8, CtBlack);
    for r in 0..15 {
        for c in 0..15 {
            if rc.board().have_chess_at(Coord { row: r, col: c }) {
                continue;
            }
            for chess in [CtBlack, CtWhite] {
                let before = rc.get_evaluation();
                let status = rc.game_status();
                put(&mut rc, r, c, chess);
                remove(&mut rc, r, c);
                assert_eq!(rc.get_evaluation(), before);
                assert_eq!(rc.game_status(), status);
            }
        }
    }
}

#[test]
fn incremental_score_matches_rescan() {
    let mut seed: u64 = 0x2545F4914F6CDD1D;
    let mut next = move || {
        seed ^= seed << 13;
        seed ^= seed >> 7;
        seed ^= seed << 17;
        seed
    };
    for n in 5..=15usize {
        let mut rc = RuleChecker::create_with_detail(Board::create_with_size(n));
        for _ in 0..200 {
            let r = (next() % n as u64) as usize;
            let c = (next() % n as u64) as usize;
            let coord = Coord { row: r, col: c };
            if rc.board().have_chess_at(coord) {
                rc.remove_chess_at(coord).unwrap();
            } else {
                let chess = if next() % 2 == 0 { CtBlack } else { CtWhite };
                rc.put_chess_at(coord, chess).unwrap();
            }
            consistent(&rc);
        }
    }
}

#[test]
fn dead_window_scores_zero() {
    let dfa = EvaluationDfa::new();
    assert_eq!(dfa.evaluate_tuple(&[CptChess(CtBlack), CptChess(CtWhite), CptEmpty, CptEmpty, CptEmpty]), 0);
    assert_eq!(
        dfa.evaluate_tuple(&[
            CptChess(CtBlack),
            CptChess(CtBlack),
            CptChess(CtBlack),
            CptChess(CtBlack),
            CptChess(CtWhite)
        ]),
        0
    );
    // on a board: a row holding both colours adds nothing
    let mut rc = RuleChecker::create_with_detail(Board::create_with_size(5));
    put(&mut rc, 0, 0, CtBlack);
    put(&mut rc, 0, 4, CtWhite);
    assert_eq!(rc.get_tuple_score(0), 0);
}

#[test]
fn window_score_table() {
    let dfa = EvaluationDfa::new();
    let e = CptEmpty;
    let b = CptChess(CtBlack);
    let w = CptChess(CtWhite);
    assert_eq!(dfa.evaluate_tuple(&[e, e, e, e, e]), 7);
    assert_eq!(dfa.evaluate_tuple(&[b, e, e, e, e]), 15);
    assert_eq!(dfa.evaluate_tuple(&[b, b, e, e, e]), 400);
    assert_eq!(dfa.evaluate_tuple(&[b, b, e, b, e]), 1800);
    assert_eq!(dfa.evaluate_tuple(&[b, b, b, b, e]), 100000);
    assert_eq!(dfa.evaluate_tuple(&[b, b, b, b, b]), 0);
    assert_eq!(dfa.evaluate_tuple(&[e, w, e, e, e]), 35);
    assert_eq!(dfa.evaluate_tuple(&[w, w, e, e, e]), 800);
    assert_eq!(dfa.evaluate_tuple(&[w, e, w, w, e]), 15000);
    assert_eq!(dfa.evaluate_tuple(&[w, w, w, w, e]), 800000);
    assert_eq!(dfa.evaluate_tuple(&[w, w, w, w, w]), 0);
}

#[test]
fn evaluate_event_gives_window_delta() {
    let dfa = EvaluationDfa::new();
    let at = CoordAndChess { coord: Coord { row: 0, col: 0 }, chess: CtWhite };
    let mut cells = [CptChess(CtWhite), CptChess(CtWhite), CptEmpty, CptEmpty, CptEmpty];
    assert_eq!(dfa.evaluate_event(&mut cells, 1, BoardEvent::BePutChess(at)), 800 - 35);
    assert_eq!(cells, [CptChess(CtWhite), CptEmpty, CptEmpty, CptEmpty, CptEmpty]);
    let mut cells = [CptChess(CtBlack), CptEmpty, CptEmpty, CptEmpty, CptEmpty];
    assert_eq!(dfa.evaluate_event(&mut cells, 4, BoardEvent::BeRemoveChess(at)), 15 - 0);
    assert_eq!(cells[4], CptChess(CtWhite));
}

#[test]
fn diagonal_five_on_small_board() {
    let mut rc = RuleChecker::create_with_detail(Board::create_with_size(5));
    for i in 0..4 {
        put(&mut rc, i, i, CtBlack);
        assert_eq!(rc.game_status(), GsGameContinue);
        assert_eq!(rc.check_game_status(), GsGameContinue);
    }
    put(&mut rc, 4, 4, CtBlack);
    assert_eq!(rc.game_status(), GsGameOver(CtBlack));
    assert_eq!(rc.check_game_status(), GsGameOver(CtBlack));
}

#[test]
fn open_four_outscores_blocked_four() {
    let mut open = RuleChecker::create_with_detail(Board::create_with_size(15));
    for c in 5..9 {
        put(&mut open, 7, c, CtWhite);
    }
    let mut blocked = RuleChecker::create_with_detail(Board::create_with_size(15));
    for c in 5..9 {
        put(&mut blocked, 7, c, CtWhite);
    }
    put(&mut blocked, 7, 4, CtBlack);
    assert!(open.get_evaluation() > blocked.get_evaluation());
    consistent(&open);
    consistent(&blocked);
}

#[test]
fn rule_checker_errors() {
    let mut rc = RuleChecker::create_with_detail(Board::create_with_size(6));
    let before = rc.get_evaluation();
    let e = rc.put_chess_at(Coord { row: 6, col: 0 }, CtBlack).unwrap_err();
    assert_eq!(e.kind, ErrorKind::OutOfBounds);
    let e = rc.remove_chess_at(Coord { row: 2, col: 2 }).unwrap_err();
    assert_eq!(e.kind, ErrorKind::CellEmpty);
    put(&mut rc, 2, 2, CtWhite);
    let e = rc.put_chess_at(Coord { row: 2, col: 2 }, CtBlack).unwrap_err();
    assert_eq!(e.kind, ErrorKind::CellOccupied);
    assert_eq!(rc.remove_chess_at(Coord { row: 2, col: 2 }), Ok(CtWhite));
    assert_eq!(rc.get_evaluation(), before);
}

#[test]
fn suggested_move() {
    // on an empty board the first cell lying in 20 windows wins the tie
    let rc = RuleChecker::create_with_detail(Board::new());
    assert_eq!(rc.get_simple_play(), Some(Coord { row: 4, col: 4 }));

    let mut rc = RuleChecker::create_with_detail(Board::new());
    put(&mut rc, 7, 5, CtWhite);
    put(&mut rc, 7, 6, CtWhite);
    put(&mut rc, 7, 7, CtWhite);
    put(&mut rc, 7, 8, CtWhite);
    let m = rc.get_simple_play().unwrap();
    assert!(m == Coord { row: 7, col: 4 } || m == Coord { row: 7, col: 9 });
    assert_eq!(m, Coord { row: 7, col: 4 });

    // a full board has no empty cell
    let mut rc = RuleChecker::create_with_detail(Board::create_with_size(3));
    for r in 0..3 {
        for c in 0..3 {
            put(&mut rc, r, c, if (r + c) % 2 == 0 { CtBlack } else { CtWhite });
        }
    }
    assert_eq!(rc.get_simple_play(), None);
}
