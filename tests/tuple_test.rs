use gomoku_core::board::MoveDirection::{
    MdDown, MdDownLeft, MdDownRight, MdLeft, MdRight, MdUp, MdUpLeft, MdUpRight,
};
use gomoku_core::board::{Board, Coord};
use gomoku_core::cross_point::ChessType;
use gomoku_core::cross_point::ChessType::{CtBlack, CtWhite};
use gomoku_core::cross_point::CrossPointType::{CptChess, CptEmpty};
use gomoku_core::tuple::Tuple;

#[test]
fn tuple_test_it_works() {
    let mut board = Board::create_with_size(5);
    for row in 0..5 {
        for col in 0..5 {
            match (row * 5 + col) % 3 {
                0 => {
                    board.put_chess_at(Coord { row, col }, ChessType::CtBlack).unwrap();
                }
                1 => {
                    board.put_chess_at(Coord { row, col }, ChessType::CtWhite).unwrap();
                }
                _ => {}
            }
        }
    }

    let tuple1 = Tuple::create_with_md(5, &board, Coord { row: 0, col: 0 }, MdRight);
    let tuple2 = Tuple::create_with_md(5, &board, Coord { row: 0, col: 0 }, MdDown);
    let tuple3 = Tuple::create_with_md(5, &board, Coord { row: 0, col: 0 }, MdDownRight);
    let tuple4 = Tuple::create_with_md(5, &board, Coord { row: 0, col: 4 }, MdDownLeft);

    let tuple_r1 = Tuple::create_with_md(5, &board, Coord { row: 4, col: 4 }, MdLeft);
    let tuple_r2 = Tuple::create_with_md(5, &board, Coord { row: 4, col: 4 }, MdUp);
    let tuple_r3 = Tuple::create_with_md(5, &board, Coord { row: 4, col: 4 }, MdUpLeft);
    let tuple_r4 = Tuple::create_with_md(5, &board, Coord { row: 4, col: 0 }, MdUpRight);

    let b = &board;
    assert_eq!(tuple1.get_cross_point_type_at(b, 0), CptChess(CtBlack));
    assert_eq!(tuple1.get_cross_point_type_at(b, 2), CptEmpty);
    assert_eq!(tuple1.get_cross_point_type_at(b, 1), CptChess(CtWhite));
    assert_eq!(tuple1.get_cross_point_type_at(b, 3), CptChess(CtBlack));
    assert_eq!(tuple1.get_cross_point_type_at(b, 4), CptChess(CtWhite));

    assert_eq!(tuple2.get_cross_point_type_at(b, 0), CptChess(CtBlack));
    assert_eq!(tuple2.get_cross_point_type_at(b, 1), CptEmpty);
    assert_eq!(tuple2.get_cross_point_type_at(b, 2), CptChess(CtWhite));
    assert_eq!(tuple2.get_cross_point_type_at(b, 3), CptChess(CtBlack));
    assert_eq!(tuple2.get_cross_point_type_at(b, 4), CptEmpty);

    assert_eq!(tuple3.get_cross_point_type_at(b, 0), CptChess(CtBlack));
    assert_eq!(tuple3.get_cross_point_type_at(b, 1), CptChess(CtBlack));
    assert_eq!(tuple3.get_cross_point_type_at(b, 2), CptChess(CtBlack));
    assert_eq!(tuple3.get_cross_point_type_at(b, 3), CptChess(CtBlack));
    assert_eq!(tuple3.get_cross_point_type_at(b, 4), CptChess(CtBlack));

    assert_eq!(tuple4.get_cross_point_type_at(b, 0), CptChess(CtWhite));
    assert_eq!(tuple4.get_cross_point_type_at(b, 1), CptEmpty);
    assert_eq!(tuple4.get_cross_point_type_at(b, 2), CptChess(CtBlack));
    assert_eq!(tuple4.get_cross_point_type_at(b, 3), CptChess(CtWhite));
    assert_eq!(tuple4.get_cross_point_type_at(b, 4), CptEmpty);

    assert_eq!(tuple_r1.get_cross_point_type_at(b, 0), CptChess(CtBlack));
    assert_eq!(tuple_r1.get_cross_point_type_at(b, 1), CptEmpty);
    assert_eq!(tuple_r1.get_cross_point_type_at(b, 2), CptChess(CtWhite));
    assert_eq!(tuple_r1.get_cross_point_type_at(b, 3), CptChess(CtBlack));
    assert_eq!(tuple_r1.get_cross_point_type_at(b, 4), CptEmpty);

    assert_eq!(tuple_r2.get_cross_point_type_at(b, 0), CptChess(CtBlack));
    assert_eq!(tuple_r2.get_cross_point_type_at(b, 1), CptChess(CtWhite));
    assert_eq!(tuple_r2.get_cross_point_type_at(b, 2), CptEmpty);
    assert_eq!(tuple_r2.get_cross_point_type_at(b, 3), CptChess(CtBlack));
    assert_eq!(tuple_r2.get_cross_point_type_at(b, 4), CptChess(CtWhite));

    assert_eq!(tuple_r3.get_cross_point_type_at(b, 0), CptChess(CtBlack));
    assert_eq!(tuple_r3.get_cross_point_type_at(b, 1), CptChess(CtBlack));
    assert_eq!(tuple_r3.get_cross_point_type_at(b, 2), CptChess(CtBlack));
    assert_eq!(tuple_r3.get_cross_point_type_at(b, 3), CptChess(CtBlack));
    assert_eq!(tuple_r3.get_cross_point_type_at(b, 4), CptChess(CtBlack));

    assert_eq!(tuple_r4.get_cross_point_type_at(b, 0), CptEmpty);
    assert_eq!(tuple_r4.get_cross_point_type_at(b, 1), CptChess(CtWhite));
    assert_eq!(tuple_r4.get_cross_point_type_at(b, 2), CptChess(CtBlack));
    assert_eq!(tuple_r4.get_cross_point_type_at(b, 3), CptEmpty);
    assert_eq!(tuple_r4.get_cross_point_type_at(b, 4), CptChess(CtWhite));

    assert_eq!(tuple1.count(b, CptChess(CtBlack)), 2);
    assert_eq!(tuple1.count(b, CptChess(CtWhite)), 2);
    assert_eq!(tuple1.count(b, CptEmpty), 1);
    assert_eq!(tuple2.count(b, CptChess(CtBlack)), 2);
    assert_eq!(tuple2.count(b, CptChess(CtWhite)), 1);
    assert_eq!(tuple2.count(b, CptEmpty), 2);
    assert_eq!(tuple3.count(b, CptChess(CtBlack)), 5);
    assert_eq!(tuple3.count(b, CptChess(CtWhite)), 0);
    assert_eq!(tuple3.count(b, CptEmpty), 0);
    assert_eq!(tuple4.count(b, CptChess(CtBlack)), 1);
    assert_eq!(tuple4.count(b, CptChess(CtWhite)), 2);
    assert_eq!(tuple4.count(b, CptEmpty), 2);
    assert_eq!(tuple_r1.count(b, CptChess(CtBlack)), 2);
    assert_eq!(tuple_r1.count(b, CptChess(CtWhite)), 1);
    assert_eq!(tuple_r1.count(b, CptEmpty), 2);
    assert_eq!(tuple_r2.count(b, CptChess(CtBlack)), 2);
    assert_eq!(tuple_r2.count(b, CptChess(CtWhite)), 2);
    assert_eq!(tuple_r2.count(b, CptEmpty), 1);
    assert_eq!(tuple_r3.count(b, CptChess(CtBlack)), 5);
    assert_eq!(tuple_r3.count(b, CptChess(CtWhite)), 0);
    assert_eq!(tuple_r3.count(b, CptEmpty), 0);
    assert_eq!(tuple_r4.count(b, CptChess(CtBlack)), 1);
    assert_eq!(tuple_r4.count(b, CptChess(CtWhite)), 2);
    assert_eq!(tuple_r4.count(b, CptEmpty), 2);

    for row in 0..5 {
        for col in 0..5 {
            let c = Coord { row, col };
            assert_eq!(tuple1.have_include(c), row == 0);
            assert_eq!(tuple2.have_include(c), col == 0);
            assert_eq!(tuple3.have_include(c), row == col);
            assert_eq!(tuple4.have_include(c), row + col == 4);
            assert_eq!(tuple_r1.have_include(c), row == 4);
            assert_eq!(tuple_r2.have_include(c), col == 4);
            assert_eq!(tuple_r3.have_include(c), row == col);
            assert_eq!(tuple_r4.have_include(c), row + col == 4);
        }
    }
}

#[test]
fn tuple_accessors() {
    let mut board = Board::create_with_size(6);
    board.put_chess_at(Coord { row: 1, col: 2 }, CtWhite).unwrap();
    let t = Tuple::create_with_md(3, &board, Coord { row: 0, col: 1 }, MdDownRight);
    assert!(t.is_index_valid(2));
    assert!(!t.is_index_valid(3));
    assert_eq!(t.coord_at(1), Coord { row: 1, col: 2 });
    assert!(t.have_chess_at(&board, 1));
    assert!(!t.have_chess_at(&board, 0));
    assert_eq!(t.get_chess_at(&board, 1), CtWhite);
    assert_eq!(t.cross_point_types(&board), vec![CptEmpty, CptChess(CtWhite), CptEmpty]);
}
