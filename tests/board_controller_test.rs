use gomoku_core::board::Coord;
use gomoku_core::board_controller::BoardController;
use gomoku_core::utils::ErrorKind;

#[test]
fn turns_alternate_and_undo() {
    let mut bc = BoardController::new();
    assert_eq!(bc.get_current_chess(), "black");
    bc.put_chess(7, 7).unwrap();
    assert_eq!(bc.get_current_chess(), "white");
    bc.put_chess(7, 8).unwrap();
    assert_eq!(bc.get_current_chess(), "black");
    assert_eq!(bc.remove_last_chess(), Some((7, 8)));
    assert_eq!(bc.get_current_chess(), "white");
    assert!(!bc.rule_checker().board().have_chess_at(Coord { row: 7, col: 8 }));
    assert!(bc.rule_checker().board().have_chess_at(Coord { row: 7, col: 7 }));
    assert_eq!(bc.remove_last_chess(), Some((7, 7)));
    assert_eq!(bc.remove_last_chess(), None);
    assert_eq!(bc.get_current_chess(), "black");
}

#[test]
fn controller_errors_keep_turn() {
    let mut bc = BoardController::new();
    assert_eq!(bc.put_chess(-1, 3).unwrap_err().kind, ErrorKind::OutOfBounds);
    assert_eq!(bc.put_chess(3, 15).unwrap_err().kind, ErrorKind::OutOfBounds);
    bc.put_chess(3, 3).unwrap();
    assert_eq!(bc.put_chess(3, 3).unwrap_err().kind, ErrorKind::CellOccupied);
    assert_eq!(bc.get_current_chess(), "white");
}

#[test]
fn winner_and_restart() {
    let mut bc = BoardController::create_with_size(9);
    // black on row 0, white on row 1
    for c in 0..4 {
        bc.put_chess(0, c).unwrap();
        bc.put_chess(1, c).unwrap();
    }
    assert!(!bc.have_game_over());
    assert_eq!(bc.get_winner(), None);
    bc.put_chess(0, 4).unwrap();
    assert!(bc.have_game_over());
    assert_eq!(bc.get_winner(), Some("black".to_string()));
    let empty_score = BoardController::create_with_size(9).rule_checker().get_evaluation();
    bc.restart_game();
    assert!(!bc.have_game_over());
    assert_eq!(bc.get_current_chess(), "black");
    assert_eq!(bc.remove_last_chess(), None);
    assert_eq!(bc.rule_checker().get_evaluation(), empty_score);
    for r in 0..9 {
        for c in 0..9 {
            assert!(!bc.rule_checker().board().have_chess_at(Coord { row: r, col: c }));
        }
    }
}
