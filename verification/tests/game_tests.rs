use openitb::board::GameState;
use openitb::{GameManager, PieceType, Player, Position};

fn p(s: &str) -> Position {
    Position::from_chess_notation(s).unwrap()
}

fn tokens(game: &GameManager, s: &str) -> u8 {
    game.get_board().get_piece(p(s)).unwrap().action_tokens_left
}

#[test]
fn new_game_sets_up_the_test_map() {
    let game = GameManager::new();
    assert_eq!(game.get_game_state(), GameState::PlayerTurn);
    assert_eq!(game.get_selected_piece(), None);
    assert!(game.get_legal_moves().is_empty());
    assert!(!game.is_debug_mode());
    let board = game.get_board();
    let b2 = board.get_piece(p("b2")).unwrap();
    assert_eq!(b2.piece_type, PieceType::Mech);
    assert_eq!(b2.player, Player::Human);
    assert_eq!(b2.pilot_name, "Pilot-b2");
    assert_eq!(board.get_piece(p("c3")).unwrap().player, Player::Human);
    let f6 = board.get_piece(p("f6")).unwrap();
    assert_eq!(f6.piece_type, PieceType::Leaper);
    assert_eq!(f6.player, Player::Computer);
    assert_eq!(f6.pilot_name, "Enemy-f6");
    assert_eq!(board.get_piece(p("h7")).unwrap().player, Player::Computer);
    assert!(board.get_piece(p("a1")).is_none());
    assert_eq!(game.get_status_message(), "Player turn - Select a piece to move");
    assert!(game.player_has_legal_moves());
}

#[test]
fn selecting_and_deselecting_a_unit() {
    let mut game = GameManager::new();
    // An empty square with nothing selected changes nothing.
    assert!(!game.select_piece(p("e4")));
    // A computer unit cannot be selected.
    assert!(!game.select_piece(p("f6")));
    assert!(game.select_piece(p("b2")));
    assert_eq!(game.get_selected_piece(), Some(p("b2")));
    let moves = game.get_legal_moves().to_vec();
    assert_eq!(moves, game.get_engine().get_legal_moves(p("b2")));
    assert!(moves.contains(&p("b3")));
    assert_eq!(game.get_status_message(), "Player turn - Piece selected, click to move");
    // Clicking the selected unit again deselects it.
    assert!(game.select_piece(p("b2")));
    assert_eq!(game.get_selected_piece(), None);
    assert!(game.get_legal_moves().is_empty());
    // Clicking an empty square that is no legal move clears the selection.
    assert!(game.select_piece(p("b2")));
    assert!(game.select_piece(p("h1")));
    assert_eq!(game.get_selected_piece(), None);
}

#[test]
fn moves_spend_tokens_and_the_turn_ends_when_all_are_spent() {
    let mut game = GameManager::new();
    assert!(game.select_piece(p("b2")));
    assert!(game.select_piece(p("b4")));
    assert!(game.get_board().get_piece(p("b2")).is_none());
    assert_eq!(tokens(&game, "b4"), 1);
    assert_eq!(game.get_selected_piece(), None);
    // The other mech still has tokens: the turn goes on.
    assert_eq!(game.get_game_state(), GameState::PlayerTurn);
    assert!(game.select_piece(p("b4")));
    assert!(game.select_piece(p("b5")));
    assert_eq!(tokens(&game, "b5"), 0);
    assert_eq!(game.get_game_state(), GameState::PlayerTurn);
    assert!(game.player_has_legal_moves());
    assert!(game.select_piece(p("c3")));
    assert!(game.select_piece(p("c6")));
    assert_eq!(tokens(&game, "c6"), 0);
    // Every human unit is out of tokens: the computer plays next.
    assert_eq!(game.get_game_state(), GameState::ComputerTurn);
    assert!(!game.player_has_legal_moves());
    assert_eq!(game.get_status_message(), "Computer is thinking...");
    // No selection outside the player's turn.
    assert!(!game.select_piece(p("c6")));
    game.update();
    assert_eq!(game.get_game_state(), GameState::PlayerTurn);
    // The new turn starts with full tokens.
    assert_eq!(tokens(&game, "b5"), 3);
    assert_eq!(tokens(&game, "c6"), 3);
    assert_eq!(game.get_engine().get_player_positions(Player::Human).len(), 2);
    assert_eq!(game.get_engine().get_player_positions(Player::Computer).len(), 2);
}

#[test]
fn a_refused_move_changes_nothing() {
    let mut game = GameManager::new();
    assert!(game.select_piece(p("b2")));
    assert!(game.select_piece(p("b4")));
    assert!(game.select_piece(p("b4")));
    // e4 is a legal move (three squares) but only one token is left.
    assert!(game.get_legal_moves().contains(&p("e4")));
    // A refused move changes neither the selection nor the board.
    assert!(!game.select_piece(p("e4")));
    assert!(game.get_board().get_piece(p("b4")).is_some());
    assert!(game.get_board().get_piece(p("e4")).is_none());
    assert_eq!(game.get_selected_piece(), Some(p("b4")));
    assert_eq!(game.get_game_state(), GameState::PlayerTurn);
}

#[test]
fn ending_the_turn_by_choice() {
    let mut game = GameManager::new();
    assert!(game.select_piece(p("b2")));
    game.end_player_turn();
    assert_eq!(game.get_game_state(), GameState::ComputerTurn);
    assert_eq!(game.get_selected_piece(), None);
    // Outside the player's turn it does nothing.
    game.end_player_turn();
    assert_eq!(game.get_game_state(), GameState::ComputerTurn);
    assert!(game.process_computer_turn());
    assert_eq!(game.get_game_state(), GameState::PlayerTurn);
    assert!(!game.process_computer_turn());
    assert_eq!(game.get_game_state(), GameState::PlayerTurn);
    // The computer's units stay on the board, with tokens no more than their maximum.
    let computer = game.get_engine().get_player_pieces(Player::Computer);
    assert_eq!(computer.len(), 2);
    for (_, unit) in &computer {
        assert!(unit.action_tokens_left <= unit.max_action_tokens);
    }
}

#[test]
fn updates_outside_the_computer_turn_do_nothing() {
    let mut game = GameManager::new();
    game.update();
    assert_eq!(game.get_game_state(), GameState::PlayerTurn);
    assert_eq!(tokens(&game, "b2"), 3);
    game.toggle_debug_mode();
    assert!(game.is_debug_mode());
    game.toggle_debug_mode();
    assert!(!game.is_debug_mode());
}
