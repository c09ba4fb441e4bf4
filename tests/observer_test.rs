use gomoku_core::board::{Board, BoardEvent, BoardObserver, Coord, CoordAndChess};
use gomoku_core::cross_point::ChessType;

struct Recorder {
    seen: Vec<BoardEvent>,
}

impl BoardObserver for Recorder {
    fn handled(&self, event: BoardEvent) -> Self {
        let mut seen = self.seen.clone();
        seen.push(event);
        Recorder { seen }
    }

    fn board_updated(&mut self, event: BoardEvent) {
        *self = self.handled(event);
    }
}

#[test]
fn observers_hear_events_in_subscription_order() {
    let mut board = Board::create_with_size(5);
    let mut subscribers = vec![Recorder { seen: Vec::new() }, Recorder { seen: Vec::new() }];
    board.add_observers(1);
    board.add_observers(0);
    // an id with no subscriber behind it is passed over
    board.add_observers(7);

    let at = Coord { row: 1, col: 2 };
    let put = board.put_chess_at(at, ChessType::CtBlack).unwrap();
    board.notify_observers(put, &mut subscribers);
    let removed = board.remove_chess_at(at).unwrap();
    board.notify_observers(removed, &mut subscribers);

    let detail = CoordAndChess { coord: at, chess: ChessType::CtBlack };
    let expected = vec![BoardEvent::BePutChess(detail), BoardEvent::BeRemoveChess(detail)];
    assert_eq!(subscribers[0].seen, expected);
    assert_eq!(subscribers[1].seen, expected);

    board.remove_observers(1);
    let again = board.put_chess_at(at, ChessType::CtWhite).unwrap();
    board.notify_observers(again, &mut subscribers);
    assert_eq!(subscribers[0].seen.len(), 3);
    assert_eq!(subscribers[1].seen.len(), 2);
}

#[test]
fn placing_and_removing_notify_observers() {
    let mut board = Board::create_with_size(5);
    let mut subscribers = vec![Recorder { seen: Vec::new() }, Recorder { seen: Vec::new() }];
    board.add_observers(0);

    let at = Coord { row: 4, col: 0 };
    let put = board.put_chess_and_notify(at, ChessType::CtWhite, &mut subscribers).unwrap();
    // a refused move tells nobody
    assert!(board.put_chess_and_notify(at, ChessType::CtBlack, &mut subscribers).is_err());
    let removed = board.remove_chess_and_notify(at, &mut subscribers).unwrap();
    assert!(board.remove_chess_and_notify(at, &mut subscribers).is_err());

    assert_eq!(subscribers[0].seen, vec![put, removed]);
    assert!(subscribers[1].seen.is_empty());
    assert_eq!(put, BoardEvent::BePutChess(CoordAndChess { coord: at, chess: ChessType::CtWhite }));
    assert_eq!(removed, BoardEvent::BeRemoveChess(CoordAndChess { coord: at, chess: ChessType::CtWhite }));
}
