use std::collections::hash_map::DefaultHasher;
use std::hash::{BuildHasher, BuildHasherDefault};

use openitb::board::{AttackResult, Board};
use openitb::engine::{pick_move, EngineError};
use openitb::{Engine, Move, Player, Position, Unit};

#[test]
fn test_legal_moves_basic() {
    let test_map = "G G G G G G G G\n\
                    G G G G G G G G\n\
                    G G G G G G G G\n\
                    G G G P G G G G\n\
                    G G G G G G G G\n\
                    G G G G G G G G\n\
                    G G G G G G G G\n\
                    G G G G G G G G";

    let board = Board::from_map_string(test_map);
    let engine = Engine::new(board);

    let mech_pos = Position::from_chess_notation("d4").unwrap();
    let legal_moves = engine.get_legal_moves(mech_pos);

    // Should be able to move up to 3 spaces in any direction
    assert!(!legal_moves.is_empty());
    assert!(legal_moves.contains(&Position::from_chess_notation("d1").unwrap()));
    assert!(legal_moves.contains(&Position::from_chess_notation("d7").unwrap()));
    assert!(legal_moves.contains(&Position::from_chess_notation("a4").unwrap()));
    assert!(legal_moves.contains(&Position::from_chess_notation("g4").unwrap()));
}

fn p(s: &str) -> Position {
    Position::from_chess_notation(s).unwrap()
}

#[test]
fn legal_moves_are_the_squares_within_three_points() {
    let engine = Engine::new(Board::from_map_string("G\nG\nG\nG G G P"));
    let moves = engine.get_legal_moves(p("d4"));
    // On an open board: every square at Manhattan distance 1 to 3.
    assert_eq!(moves.len(), 24);
    assert!(!moves.contains(&p("d4")));
    assert!(!moves.contains(&p("d8")));
    for w in moves.windows(2) {
        assert!(w[0].rank * 8 + w[0].file < w[1].rank * 8 + w[1].file);
    }
    assert!(engine.get_legal_moves(p("e4")).is_empty());
}

#[test]
fn terrain_limits_movement() {
    // a1 mech; b1 forest costs 2; a2 mountain; a3 water.
    let engine = Engine::new(Board::from_map_string("P T G G\nM G\nW"));
    let moves = engine.get_legal_moves(p("a1"));
    assert!(moves.contains(&p("b1")));
    assert!(moves.contains(&p("c1")));
    assert!(!moves.contains(&p("d1")));
    assert!(!moves.contains(&p("a2")));
    assert!(moves.contains(&p("b2")));
    assert!(!moves.contains(&p("a3")));
    assert_eq!(moves.len(), 3);
}

#[test]
fn units_block_movement() {
    let engine = Engine::new(Board::from_map_string("P H G G"));
    let moves = engine.get_legal_moves(p("a1"));
    assert!(!moves.contains(&p("b1")));
    assert!(!moves.contains(&p("c1")));
    assert!(moves.contains(&p("a4")));
    assert!(moves.contains(&p("b3")));
}

#[test]
fn moves_cost_their_distance_in_tokens() {
    let mut engine = Engine::new(Board::from_map_string("P"));
    assert_eq!(engine.calculate_move_distance(p("a1"), p("c3")), 4);
    assert_eq!(engine.make_move(Move::new(p("a1"), p("b2"))), Ok(()));
    assert_eq!(engine.get_unit(p("b2")).unwrap().action_tokens_left, 1);
    assert!(engine.get_unit(p("a1")).is_none());
    assert_eq!(
        engine.make_move(Move::new(p("b2"), p("b4"))),
        Err(EngineError::InsufficientTokens { needed: 2, available: 1 })
    );
    assert_eq!(
        engine.make_move(Move::new(p("b2"), p("h8"))),
        Err(EngineError::IllegalMove(Move::new(p("b2"), p("h8"))))
    );
    assert_eq!(
        engine.make_move(Move::new(p("e5"), p("e6"))),
        Err(EngineError::IllegalMove(Move::new(p("e5"), p("e6"))))
    );
    assert!(engine.use_unit_action_token(p("b2")));
    assert!(!engine.use_unit_action_token(p("b2")));
    assert!(!engine.use_unit_action_token(p("h8")));
    engine.reset_player_action_tokens(Player::Human);
    assert_eq!(engine.get_unit(p("b2")).unwrap().action_tokens_left, 3);
}

#[test]
fn attacks_spend_a_token_and_destroy() {
    let mut engine = Engine::new(Board::from_map_string("P H G G"));
    assert_eq!(engine.get_attack_targets(p("a1")), vec![p("b1")]);
    assert_eq!(engine.get_attack_targets(p("c1")), Vec::<Position>::new());
    assert_eq!(engine.execute_attack(p("c1"), p("b1")), Err(EngineError::NoAttacker));
    assert_eq!(engine.execute_attack(p("a1"), p("a2")), Err(EngineError::InvalidTarget));
    assert_eq!(
        engine.execute_attack(p("a1"), p("b1")),
        Ok(AttackResult { damage_dealt: 1, target_destroyed: false, target_position: p("b1") })
    );
    assert_eq!(engine.get_unit(p("a1")).unwrap().action_tokens_left, 2);
    assert_eq!(engine.get_unit(p("b1")).unwrap().current_hit_points, 1);
    assert_eq!(
        engine.execute_attack(p("a1"), p("b1")),
        Ok(AttackResult { damage_dealt: 1, target_destroyed: true, target_position: p("b1") })
    );
    assert!(engine.get_unit(p("b1")).is_none());
    assert!(engine.is_game_over());
    engine.get_board_mut().place_piece(p("b1"), Unit::new_leaper("X".to_string()));
    assert!(engine.use_unit_action_token(p("a1")));
    assert_eq!(engine.execute_attack(p("a1"), p("b1")), Err(EngineError::AttackerCannotAttack));
}

#[test]
fn player_pieces_come_in_square_order() {
    let engine = Engine::new(Board::from_map_string("H G P\nG P\nH"));
    assert_eq!(engine.get_player_positions(Player::Human), vec![p("c1"), p("b2")]);
    assert_eq!(engine.get_player_positions(Player::Computer), vec![p("a1"), p("a3")]);
    let pieces = engine.get_player_pieces(Player::Computer);
    assert_eq!(pieces.len(), 2);
    assert_eq!(pieces[1].0, p("a3"));
    assert_eq!(pieces[1].1.pilot_name, "Enemy-a3");
    assert!(!engine.is_game_over());
}

#[test]
fn computer_move_is_a_legal_move_of_a_computer_unit() {
    let engine = Engine::new(Board::from_map_string("P G G G\nG G G G\nG G G H"));
    let mov = engine.get_computer_move().unwrap();
    assert_eq!(mov.from, p("d3"));
    assert!(engine.get_legal_moves(p("d3")).contains(&mov.to));
    let blocked = Engine::new(Board::from_map_string("H M\nM"));
    assert_eq!(blocked.get_computer_move(), None);
}

#[test]
fn computer_move_picks_a_legal_square_by_the_hash_of_its_unit() {
    let engine = Engine::new(Board::from_map_string("G G G\nG H G\nG G G\nP"));
    let from = p("b2");
    let moves = engine.get_legal_moves(from);
    assert!(moves.len() > 1);
    let hash = BuildHasherDefault::<DefaultHasher>::default().hash_one(from);
    let expected = moves[(hash as usize) % moves.len()];
    assert_eq!(engine.get_computer_move(), Some(Move::new(from, expected)));
}

#[test]
fn a_fresh_mech_can_make_every_legal_move_and_keeps_the_unit_count() {
    let map = "G T G G\nG G W G\nG G P G\nG M G H";
    let moves = Engine::new(Board::from_map_string(map)).get_legal_moves(p("c3"));
    assert!(!moves.is_empty());
    for to in moves {
        let mut engine = Engine::new(Board::from_map_string(map));
        let humans = engine.get_player_positions(Player::Human).len();
        let computers = engine.get_player_positions(Player::Computer).len();
        let distance = engine.calculate_move_distance(p("c3"), to);
        assert!(distance <= 3);
        assert_eq!(engine.make_move(Move::new(p("c3"), to)), Ok(()));
        assert_eq!(engine.get_unit(to).unwrap().action_tokens_left, 3 - distance);
        assert_eq!(engine.get_player_positions(Player::Human).len(), humans);
        assert_eq!(engine.get_player_positions(Player::Computer).len(), computers);
    }
}

#[test]
fn the_hash_picks_the_legal_square_round_the_list() {
    let moves = vec![p("a1"), p("b1"), p("c1")];
    assert_eq!(pick_move(p("d4"), &moves, 7), Move::new(p("d4"), p("b1")));
    assert_eq!(pick_move(p("d4"), &moves, 2), Move::new(p("d4"), p("c1")));
    assert_eq!(pick_move(p("d4"), &moves, u64::MAX), Move::new(p("d4"), p("a1")));
}

#[test]
fn error_messages_read_as_text() {
    assert_eq!(
        EngineError::InsufficientTokens { needed: 2, available: 1 }.message(),
        "Unit needs 2 action tokens but only has 1"
    );
    assert_eq!(
        EngineError::InsufficientTokens { needed: 123, available: 10 }.message(),
        "Unit needs 123 action tokens but only has 10"
    );
    assert_eq!(EngineError::IllegalMove(Move::new(p("a1"), p("b2"))).message(), "Illegal move: a1b2");
    assert_eq!(EngineError::NoUnit.message(), "No unit at source position");
    assert_eq!(EngineError::TokenConsumptionFailed.message(), "Failed to consume action token");
    assert_eq!(EngineError::MoveFailed("Destination is occupied").message(), "Move failed: Destination is occupied");
    assert_eq!(EngineError::NoAttacker.message(), "No unit at attacker position");
    assert_eq!(EngineError::AttackerCannotAttack.message(), "Attacker cannot attack");
    assert_eq!(EngineError::InvalidTarget.message(), "Invalid attack target");
    assert_eq!(EngineError::AttackTokenFailed.message(), "Failed to use action token for attack");
    assert_eq!(EngineError::NoTarget.message(), "No target at position");
}

#[test]
fn move_distance_off_the_board_reads_signed_coordinates() {
    let engine = Engine::new(Board::from_map_string("P"));
    assert_eq!(engine.calculate_move_distance(p("a1"), p("h8")), 14);
    // File 255 reads as -1: one step left of a1.
    assert_eq!(engine.calculate_move_distance(Position { file: 255, rank: 0 }, p("a1")), 1);
}
