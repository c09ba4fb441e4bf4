use gomoku_core::cross_point::{ChessType, CrossPoint, CrossPointType};
use gomoku_core::utils::{Error, ErrorKind};

#[test]
fn get_and_set() {
    let cp = CrossPoint::new();
    assert_eq!(cp.have_chess(), false);

    let mut cp = CrossPoint::create_with_chess(ChessType::CtBlack);
    assert_eq!(cp.have_chess(), true);
    assert_eq!(cp.get_chess(), ChessType::CtBlack);
    assert_eq!(cp.get_cross_point_type(), CrossPointType::CptChess(ChessType::CtBlack));
    cp.remove_chess();
    assert_eq!(cp.have_chess(), false);
    cp.put_chess(ChessType::CtWhite);
    assert_eq!(cp.have_chess(), true);
    assert_eq!(cp.get_chess(), ChessType::CtWhite);
    assert_eq!(cp.get_cross_point_type(), CrossPointType::CptChess(ChessType::CtWhite));

    let mut cp = CrossPoint::create_with_chess(ChessType::CtWhite);
    assert_eq!(cp.have_chess(), true);
    assert_eq!(cp.get_chess(), ChessType::CtWhite);
    assert_eq!(cp.get_cross_point_type(), CrossPointType::CptChess(ChessType::CtWhite));
    cp.remove_chess();
    assert_eq!(cp.have_chess(), false);
    cp.put_chess(ChessType::CtBlack);
    assert_eq!(cp.have_chess(), true);
    assert_eq!(cp.get_chess(), ChessType::CtBlack);
    assert_eq!(cp.get_cross_point_type(), CrossPointType::CptChess(ChessType::CtBlack));
}

#[test]
fn opponent_is_its_own_inverse() {
    assert_eq!(ChessType::CtBlack.get_different_chess(), ChessType::CtWhite);
    assert_eq!(ChessType::CtWhite.get_different_chess(), ChessType::CtBlack);
    assert_eq!(ChessType::CtBlack.get_different_chess().get_different_chess(), ChessType::CtBlack);
}

#[test]
fn error_detail() {
    let e = Error::create_with_detail(ErrorKind::CellEmpty, "nothing here");
    assert_eq!(e.kind, ErrorKind::CellEmpty);
    assert_eq!(e.message, "nothing here");
}
