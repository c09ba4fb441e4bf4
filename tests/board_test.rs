use gomoku_core::board::{Board, BoardEvent, Coord, CoordAndChess, MoveDirection};
use gomoku_core::board::MoveDirection::{
    MdDown, MdDownLeft, MdDownRight, MdLeft, MdRight, MdUp, MdUpLeft, MdUpRight,
};
use gomoku_core::cross_point::{ChessType, CrossPointType};
use gomoku_core::utils::ErrorKind;

#[test]
fn size() {
    let b = Board::new();
    assert_eq!(b.size(), 15);
    assert_eq!(b.cp_count(), 225);

    for i in 0..100 {
        let b = Board::create_with_size(i);
        assert_eq!(b.size(), i);
        assert_eq!(b.cp_count(), i * i);
    }
}

#[test]
fn index_valid() {
    let b = Board::new();

    for i in 0..20 {
        for j in 0..20 {
            if i < 15 && j < 15 {
                assert_eq!(b.is_index_valid(Coord { row: i, col: j }), true);
            } else {
                assert_eq!(b.is_index_valid(Coord { row: i, col: j }), false);
            }
        }
    }
}

#[test]
fn chess() {
    let mut b = Board::create_with_size(3);

    for i in 0..3 {
        for j in 0..3 {
            assert_eq!(b.have_chess_at(Coord { row: i, col: j }), false);
            b.put_chess_at(Coord { row: i, col: j }, ChessType::CtBlack).unwrap();
            assert_eq!(b.have_chess_at(Coord { row: i, col: j }), true);
            assert_eq!(b.get_chess_at(Coord { row: i, col: j }), ChessType::CtBlack);
            b.remove_chess_at(Coord { row: i, col: j }).unwrap();
            assert_eq!(b.have_chess_at(Coord { row: i, col: j }), false);
            b.put_chess_at(Coord { row: i, col: j }, ChessType::CtWhite).unwrap();
            assert_eq!(b.have_chess_at(Coord { row: i, col: j }), true);
            assert_eq!(b.get_chess_at(Coord { row: i, col: j }), ChessType::CtWhite);
        }
    }
}

#[test]
fn move_to() {
    let b = Board::new();

    for i in 1..14 {
        for j in 1..14 {
            assert_eq!(b.move_to(Coord { row: i, col: j }, MdUp), Ok(Coord { row: i - 1, col: j }));
            assert_eq!(b.move_to(Coord { row: i, col: j }, MdDown), Ok(Coord { row: i + 1, col: j }));
            assert_eq!(b.move_to(Coord { row: i, col: j }, MdLeft), Ok(Coord { row: i, col: j - 1 }));
            assert_eq!(b.move_to(Coord { row: i, col: j }, MdRight), Ok(Coord { row: i, col: j + 1 }));
            assert_eq!(
                b.move_to(Coord { row: i, col: j }, MdUpLeft),
                Ok(Coord { row: i - 1, col: j - 1 })
            );
            assert_eq!(
                b.move_to(Coord { row: i, col: j }, MdUpRight),
                Ok(Coord { row: i - 1, col: j + 1 })
            );
            assert_eq!(
                b.move_to(Coord { row: i, col: j }, MdDownLeft),
                Ok(Coord { row: i + 1, col: j - 1 })
            );
            assert_eq!(
                b.move_to(Coord { row: i, col: j }, MdDownRight),
                Ok(Coord { row: i + 1, col: j + 1 })
            );
        }
    }

    for i in 0..15 {
        assert_eq!(b.move_to(Coord { row: 0, col: i }, MdUp).is_err(), true);
        assert_eq!(b.move_to(Coord { row: 0, col: i }, MdUpLeft).is_err(), true);
        assert_eq!(b.move_to(Coord { row: 0, col: i }, MdUpRight).is_err(), true);
        assert_eq!(b.move_to(Coord { row: 14, col: i }, MdDown).is_err(), true);
        assert_eq!(b.move_to(Coord { row: 14, col: i }, MdDownLeft).is_err(), true);
        assert_eq!(b.move_to(Coord { row: 14, col: i }, MdDownRight).is_err(), true);
        assert_eq!(b.move_to(Coord { row: i, col: 0 }, MdLeft).is_err(), true);
        assert_eq!(b.move_to(Coord { row: i, col: 0 }, MdUpLeft).is_err(), true);
        assert_eq!(b.move_to(Coord { row: i, col: 0 }, MdDownLeft).is_err(), true);
        assert_eq!(b.move_to(Coord { row: i, col: 14 }, MdRight).is_err(), true);
        assert_eq!(b.move_to(Coord { row: i, col: 14 }, MdUpRight).is_err(), true);
        assert_eq!(b.move_to(Coord { row: i, col: 14 }, MdDownRight).is_err(), true);
    }
}

#[test]
fn adjacency_table_agrees_with_coordinates() {
    let dirs = [MdUp, MdDown, MdLeft, MdRight, MdUpLeft, MdUpRight, MdDownLeft, MdDownRight];
    for n in [1usize, 2, 5, 7] {
        let b = Board::create_with_size(n);
        for r in 0..n {
            for c in 0..n {
                for md in dirs.iter() {
                    let coord = Coord { row: r, col: c };
                    assert_eq!(b.move_by_coord(coord, *md), b.move_to(coord, *md));
                    match b.move_by_cross_point_l(coord, *md) {
                        Ok(l) => {
                            let t = l.get_coord();
                            assert_eq!(Ok(t), b.move_to(coord, *md));
                            assert_eq!(l.get_cross_point(), b.coord_to_index(t));
                        }
                        Err(e) => assert_eq!(e.kind, ErrorKind::NoNeighbor),
                    }
                }
                let l = b.get_cross_point_l_at(Coord { row: r, col: c });
                assert_eq!(l.get_cross_point(), r * n + c);
                assert_eq!(l.get_next(MdRight).is_some(), c + 1 < n);
            }
        }
    }
}

#[test]
fn board_errors() {
    let mut b = Board::create_with_size(5);
    let e = b.put_chess_at(Coord { row: 5, col: 0 }, ChessType::CtBlack).unwrap_err();
    assert_eq!(e.kind, ErrorKind::OutOfBounds);
    let e = b.remove_chess_at(Coord { row: 0, col: 7 }).unwrap_err();
    assert_eq!(e.kind, ErrorKind::OutOfBounds);
    let e = b.remove_chess_at(Coord { row: 1, col: 1 }).unwrap_err();
    assert_eq!(e.kind, ErrorKind::CellEmpty);
    b.put_chess_at(Coord { row: 1, col: 1 }, ChessType::CtBlack).unwrap();
    let e = b.put_chess_at(Coord { row: 1, col: 1 }, ChessType::CtWhite).unwrap_err();
    assert_eq!(e.kind, ErrorKind::CellOccupied);
    assert_eq!(b.get_chess_at(Coord { row: 1, col: 1 }), ChessType::CtBlack);
    let e = b.get_cross_point_type_at(Coord { row: 9, col: 9 }).unwrap_err();
    assert_eq!(e.kind, ErrorKind::OutOfBounds);
    assert_eq!(
        b.get_cross_point_type_at(Coord { row: 1, col: 1 }),
        Ok(CrossPointType::CptChess(ChessType::CtBlack))
    );
    let e = b.move_by_coord(Coord { row: 0, col: 0 }, MoveDirection::MdUp).unwrap_err();
    assert_eq!(e.kind, ErrorKind::NoNeighbor);
}

#[test]
fn board_events() {
    let mut b = Board::create_with_size(5);
    let at = Coord { row: 2, col: 3 };
    let put = b.put_chess_at(at, ChessType::CtWhite).unwrap();
    assert_eq!(put, BoardEvent::BePutChess(CoordAndChess { coord: at, chess: ChessType::CtWhite }));
    assert_eq!(put.get_coord(), at);
    assert_eq!(put.get_chess(), ChessType::CtWhite);
    let removed = b.remove_chess_at(at).unwrap();
    assert_eq!(
        removed.get_coord_and_chess(),
        CoordAndChess { coord: at, chess: ChessType::CtWhite }
    );
    assert!(matches!(removed, BoardEvent::BeRemoveChess(_)));
    assert_eq!(b.get_cross_point_at(at).get_cross_point_type(), CrossPointType::CptEmpty);
}

#[test]
fn coord_conversions() {
    let c = Coord::from_i32s(3, 11);
    assert_eq!(c, Coord { row: 3, col: 11 });
    assert_eq!(c.as_i32s(), (3, 11));
}
