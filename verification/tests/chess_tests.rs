use openitb::chess::{make_move_record, parse_would_panic, ChessController, ChessModel, ChessSquare, EMPTY_SQUARE};

#[test]
fn the_chess_board_starts_in_the_standard_position() {
    let model = ChessModel::new();
    let board = model.get_board();
    assert_eq!(board[0], ['r', 'n', 'b', 'q', 'k', 'b', 'n', 'r']);
    assert_eq!(board[1], ['p'; 8]);
    assert_eq!(board[4], [EMPTY_SQUARE; 8]);
    assert_eq!(board[6], ['P'; 8]);
    assert_eq!(board[7], ['R', 'N', 'B', 'Q', 'K', 'B', 'N', 'R']);
    assert!(model.is_updated());
    assert!(model.get_move_history().is_empty());
}

#[test]
fn parsing_typed_moves() {
    let c = ChessController::new();
    assert_eq!(c.parse_move("e2-e4"), (ChessSquare::new(6, 4), ChessSquare::new(4, 4)));
    assert_eq!(c.parse_move("a8-h1"), (ChessSquare::new(0, 0), ChessSquare::new(7, 7)));
    // Not two parts: both squares are row 0, column 0.
    assert_eq!(c.parse_move("e2e4"), (ChessSquare::new(0, 0), ChessSquare::new(0, 0)));
    assert_eq!(c.parse_move("e2-e4-e5"), (ChessSquare::new(0, 0), ChessSquare::new(0, 0)));
    // A bad column or row gives the same.
    assert_eq!(c.parse_move("z2-e4"), (ChessSquare::new(0, 0), ChessSquare::new(0, 0)));
    assert_eq!(c.parse_move("ex-e4"), (ChessSquare::new(0, 0), ChessSquare::new(0, 0)));
    // Row 0 reads as row 8 of the array, which the model refuses.
    assert_eq!(c.parse_move("e0-e4"), (ChessSquare::new(8, 4), ChessSquare::new(4, 4)));
}

#[test]
fn inputs_that_would_panic() {
    assert!(parse_would_panic("e9-e4"));
    assert!(parse_would_panic("e-e4"));
    assert!(parse_would_panic("e2-e"));
    assert!(parse_would_panic("e2-e9"));
    assert!(!parse_would_panic("e2-e4"));
    assert!(!parse_would_panic("e2e4"));
    assert!(!parse_would_panic("z2-e"));
}

#[test]
fn moves_are_applied_and_recorded() {
    let mut c = ChessController::new();
    c.model.reset_update_flag();
    assert!(!c.model.is_updated());
    c.handle_input("e2-e4");
    let board = c.model.get_board();
    assert_eq!(board[6][4], EMPTY_SQUARE);
    assert_eq!(board[4][4], 'P');
    assert!(c.model.is_updated());
    let history = c.model.get_move_history();
    assert_eq!(history.len(), 1);
    assert_eq!(history[0].len(), 23);
    assert!(history[0].ends_with(" e2-e4"));
    // Moving from an empty square, or onto the same square, is refused.
    c.handle_input("e2-e3");
    c.handle_input("e4-e4");
    c.handle_input("e0-e4");
    assert_eq!(c.model.get_move_history().len(), 1);
    // Only the last three moves are kept.
    c.handle_input("e7-e5");
    c.handle_input("g1-f3");
    c.handle_input("b8-c6");
    let history = c.model.get_move_history();
    assert_eq!(history.len(), 3);
    assert!(history[0].ends_with(" e7-e5"));
    assert!(history[2].ends_with(" b8-c6"));
}

#[test]
fn move_records_join_stamp_and_squares() {
    let record = make_move_record("01/02/24 03:04:05", ChessSquare::new(6, 4), ChessSquare::new(4, 4));
    assert_eq!(record, "01/02/24 03:04:05 e2-e4");
}

#[test]
fn set_board_replaces_the_position() {
    let mut model = ChessModel::new();
    model.reset_update_flag();
    let mut board = [[EMPTY_SQUARE; 8]; 8];
    board[3][3] = 'K';
    model.set_board(board);
    assert!(model.is_updated());
    assert_eq!(model.get_board()[3][3], 'K');
    assert_eq!(model.get_board()[0][0], EMPTY_SQUARE);
}

#[test]
fn every_move_text_reads_back_as_its_squares() {
    let c = ChessController::new();
    for a in 0..64usize {
        for b in 0..64usize {
            let from = ChessSquare::new(a / 8, a % 8);
            let to = ChessSquare::new(b / 8, b % 8);
            let record = make_move_record("01/02/24 03:04:05", from, to);
            let text = &record[18..];
            assert!(!parse_would_panic(text));
            assert_eq!(c.parse_move(text), (from, to));
        }
    }
}

#[test]
fn move_records_carry_a_time_stamp_of_fixed_shape() {
    let mut c = ChessController::new();
    c.handle_input("d2-d4");
    let record: Vec<char> = c.model.get_move_history()[0].chars().collect();
    assert_eq!(record.len(), 23);
    for k in 0..17 {
        match k {
            2 | 5 => assert_eq!(record[k], '/'),
            8 => assert_eq!(record[k], ' '),
            11 | 14 => assert_eq!(record[k], ':'),
            _ => assert!(record[k].is_ascii_digit()),
        }
    }
    assert_eq!(record[17..].iter().collect::<String>(), " d2-d4");
}
