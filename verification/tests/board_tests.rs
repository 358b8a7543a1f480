use openitb::attack::AttackPattern;
use openitb::debug_view::{CellView, TuiColor};
use openitb::{DebugTui, EguiPanels};
use openitb::board::{Board, Effect};
use openitb::{Move, PieceType, Player, Position, Powerup, SpecialEffect, Terrain, Unit, Weapon};

#[test]
fn test_position_chess_notation() {
    let pos = Position::from_chess_notation("a1").unwrap();
    assert_eq!(pos.file, 0);
    assert_eq!(pos.rank, 0);
    assert_eq!(pos.to_chess_notation(), "a1");

    let pos = Position::from_chess_notation("h8").unwrap();
    assert_eq!(pos.file, 7);
    assert_eq!(pos.rank, 7);
    assert_eq!(pos.to_chess_notation(), "h8");
}

#[test]
fn test_move_notation() {
    let mov = Move::from_notation("a1b2").unwrap();
    assert_eq!(mov.from.to_chess_notation(), "a1");
    assert_eq!(mov.to.to_chess_notation(), "b2");
    assert_eq!(mov.to_notation(), "a1b2");
}

#[test]
fn notation_rejects_bad_squares() {
    assert_eq!(Position::from_chess_notation("i1"), None);
    assert_eq!(Position::from_chess_notation("a9"), None);
    assert_eq!(Position::from_chess_notation("a0"), None);
    assert_eq!(Position::from_chess_notation("A1"), None);
    assert_eq!(Position::from_chess_notation("a10"), None);
    assert_eq!(Position::from_chess_notation(""), None);
    assert_eq!(Move::from_notation("a1b"), None);
    assert_eq!(Move::from_notation("a1z2"), None);
    assert_eq!(Move::from_notation("z1\u{e9}"), None);
    assert_eq!(Position::from_chess_notation("e4"), Some(Position { file: 4, rank: 3 }));
}

#[test]
fn position_new_checks_bounds() {
    assert_eq!(Position::new(7, 7), Some(Position { file: 7, rank: 7 }));
    assert_eq!(Position::new(8, 0), None);
    assert_eq!(Position::new(0, 8), None);
}

#[test]
fn terrain_costs() {
    assert_eq!(Terrain::Grass.movement_cost(), 1);
    assert_eq!(Terrain::Forest.movement_cost(), 2);
    assert_eq!(Terrain::Water.movement_cost(), 2);
    assert_eq!(Terrain::Mountain.movement_cost(), 255);
    assert!(!Terrain::Mountain.is_passable());
    assert!(Terrain::Water.is_passable());
}

#[test]
fn new_units_have_their_defaults() {
    let mech = Unit::new_mech("Ann".to_string());
    assert_eq!(mech.piece_type, PieceType::Mech);
    assert_eq!(mech.player, Player::Human);
    assert_eq!(mech.primary_weapon, Weapon::PulseCannon);
    assert_eq!(mech.max_action_tokens, 3);
    assert_eq!(mech.current_hit_points, 3);
    assert_eq!(mech.attack_pattern, AttackPattern::LimitedRook(1));
    let leaper = Unit::new_leaper("Bo".to_string());
    assert_eq!(leaper.player, Player::Computer);
    assert_eq!(leaper.primary_weapon, Weapon::LaserRifle);
    assert_eq!(leaper.action_tokens_left, 2);
    assert_eq!(leaper.max_hit_points, 2);
}

#[test]
fn tokens_are_spent_and_reset() {
    let mut mech = Unit::new_mech("Ann".to_string());
    assert!(mech.use_action_token());
    assert!(mech.use_action_token());
    assert!(mech.use_action_token());
    assert!(!mech.use_action_token());
    assert_eq!(mech.action_tokens_left, 0);
    assert!(!mech.can_move());
    mech.powerup2 = Powerup::ExtraMove;
    mech.reset_turn();
    assert_eq!(mech.action_tokens_left, 4);
    mech.powerup2 = Powerup::NoPowerup;
    mech.reset_action_tokens();
    assert_eq!(mech.action_tokens_left, 3);
}

#[test]
fn stunned_or_frozen_units_cannot_act() {
    let mut mech = Unit::new_mech("Ann".to_string());
    assert!(mech.can_act());
    mech.special_effects.push(SpecialEffect::Poisoned);
    assert!(mech.can_attack());
    mech.special_effects.push(SpecialEffect::Frozen);
    assert!(!mech.can_act());
    assert!(!mech.can_move());
    assert!(!mech.can_attack());
}

#[test]
fn damage_saturates_at_zero() {
    let mut leaper = Unit::new_leaper("Bo".to_string());
    assert!(!leaper.take_damage(1));
    assert_eq!(leaper.current_hit_points, 1);
    assert!(leaper.take_damage(5));
    assert_eq!(leaper.current_hit_points, 0);
    assert!(!leaper.is_alive());
}

#[test]
fn duplicate_copies_everything() {
    let mut mech = Unit::new_mech("Ann".to_string());
    mech.special_effects.push(SpecialEffect::Burning);
    let copy = mech.duplicate();
    assert_eq!(copy, mech);
}

#[test]
fn attack_patterns_from_a_corner_and_the_centre() {
    let a1 = Position { file: 0, rank: 0 };
    let d4 = Position { file: 3, rank: 3 };
    let rook = AttackPattern::Rook.get_attack_positions(a1, None);
    assert_eq!(rook.len(), 14);
    assert_eq!(rook[0], Position { file: 0, rank: 1 });
    assert_eq!(rook[7], Position { file: 1, rank: 0 });
    let limited = AttackPattern::LimitedRook(1).get_attack_positions(d4, None);
    assert_eq!(
        limited,
        vec![
            Position { file: 3, rank: 4 },
            Position { file: 3, rank: 2 },
            Position { file: 4, rank: 3 },
            Position { file: 2, rank: 3 },
        ]
    );
    assert_eq!(AttackPattern::Rook.get_attack_positions(d4, Some(2)).len(), 8);
    assert_eq!(AttackPattern::King.get_attack_positions(a1, None).len(), 3);
    assert_eq!(AttackPattern::King.get_attack_positions(d4, None).len(), 8);
    assert_eq!(AttackPattern::Knight.get_attack_positions(a1, None), vec![
        Position { file: 1, rank: 2 },
        Position { file: 2, rank: 1 },
    ]);
    assert_eq!(AttackPattern::Knight.get_attack_positions(d4, None).len(), 8);
    assert_eq!(AttackPattern::Pawn.get_attack_positions(d4, None), vec![
        Position { file: 4, rank: 4 },
        Position { file: 2, rank: 4 },
    ]);
    assert_eq!(AttackPattern::Bishop.get_attack_positions(a1, None).len(), 7);
    assert_eq!(AttackPattern::Queen.get_attack_positions(d4, None).len(), 27);
    assert_eq!(AttackPattern::RangedBallistic(2).get_attack_positions(a1, Some(7)).len(), 4);
    assert!(AttackPattern::NoAttack.get_attack_positions(d4, None).is_empty());
}

#[test]
fn map_string_sets_terrain_and_units() {
    let map = "S P\nM  H\t\u{a0}W\nG G G G G G G G T\nX";
    let board = Board::from_map_string(map);
    let a1 = Position::from_chess_notation("a1").unwrap();
    let b1 = Position::from_chess_notation("b1").unwrap();
    let a2 = Position::from_chess_notation("a2").unwrap();
    let b2 = Position::from_chess_notation("b2").unwrap();
    let c2 = Position::from_chess_notation("c2").unwrap();
    let h3 = Position::from_chess_notation("h3").unwrap();
    let a4 = Position::from_chess_notation("a4").unwrap();
    assert_eq!(board.get_terrain(a1), Terrain::SingleBuilding);
    assert_eq!(board.get_terrain(b1), Terrain::Grass);
    let mech = board.get_piece(b1).unwrap();
    assert_eq!(mech.pilot_name, "Pilot-b1");
    assert_eq!(mech.piece_type, PieceType::Mech);
    assert_eq!(board.get_terrain(a2), Terrain::Mountain);
    let leaper = board.get_unit(b2).unwrap();
    assert_eq!(leaper.pilot_name, "Enemy-b2");
    assert_eq!(leaper.player, Player::Computer);
    assert_eq!(board.get_terrain(c2), Terrain::Water);
    assert_eq!(board.get_terrain(h3), Terrain::Grass);
    assert_eq!(board.get_terrain(a4), Terrain::Grass);
    assert!(board.get_piece(a4).is_none());
    assert!(board.get_effects(a4).is_empty());
    let _ = Effect::Fire;
}

#[test]
fn move_piece_reports_each_failure() {
    let mut board = Board::from_map_string("P M P");
    let a1 = Position { file: 0, rank: 0 };
    let b1 = Position { file: 1, rank: 0 };
    let c1 = Position { file: 2, rank: 0 };
    let d1 = Position { file: 3, rank: 0 };
    assert_eq!(board.move_piece(d1, a1), Err("No piece at source position"));
    assert_eq!(board.move_piece(a1, d1), Ok(()));
    assert!(board.get_piece(a1).is_none());
    assert!(board.get_piece(d1).is_some());
    assert_eq!(board.move_piece(d1, c1), Err("Destination is occupied"));
    assert!(board.get_piece(d1).is_none());
    assert_eq!(board.move_piece(c1, b1), Err("Destination is not passable"));
    assert!(board.get_piece(c1).is_none());
}

#[test]
fn panels_flag_critical_health_and_sum_tokens() {
    let mut mech = Unit::new_mech("A".to_string());
    assert!(!EguiPanels::hp_critical(&mech));
    mech.take_damage(1);
    assert!(!EguiPanels::hp_critical(&mech));
    mech.take_damage(1);
    assert!(EguiPanels::hp_critical(&mech));
    let mut leaper = Unit::new_leaper("B".to_string());
    leaper.take_damage(1);
    // One of two hit points is half, more than a third.
    assert!(!EguiPanels::hp_critical(&leaper));
    let units = vec![
        (Position { file: 0, rank: 0 }, mech),
        (Position { file: 1, rank: 0 }, leaper),
    ];
    assert_eq!(EguiPanels::actions_left(&units), 5);
    let mut panels = EguiPanels::new();
    assert!(panels.is_visible());
    panels.toggle_visibility();
    assert!(!panels.is_visible());
}

#[test]
fn debug_view_cells_show_layers() {
    let board = Board::from_map_string("P T\nM W");
    let mut tui = DebugTui::new();
    let a1 = Position { file: 0, rank: 0 };
    let b1 = Position { file: 1, rank: 0 };
    let a2 = Position { file: 0, rank: 1 };
    assert_eq!(tui.cell_view(&board, a1), CellView { symbol: 'M', fg: TuiColor::Cyan, bg: TuiColor::Reset });
    assert_eq!(tui.cell_view(&board, b1), CellView { symbol: 'T', fg: TuiColor::Green, bg: TuiColor::Reset });
    assert_eq!(tui.cell_view(&board, a2), CellView { symbol: 'M', fg: TuiColor::Yellow, bg: TuiColor::Reset });
    tui.set_selected_position(Some(a1));
    tui.set_legal_moves(vec![b1]);
    assert_eq!(tui.cell_view(&board, a1).bg, TuiColor::Yellow);
    assert_eq!(tui.cell_view(&board, b1).bg, TuiColor::Green);
    tui.toggle_legal_moves();
    assert_eq!(tui.cell_view(&board, b1).bg, TuiColor::Reset);
    tui.toggle_pieces();
    assert_eq!(tui.cell_view(&board, a1).symbol, '\u{b7}');
    tui.toggle_terrain();
    assert_eq!(tui.cell_view(&board, b1), CellView { symbol: ' ', fg: TuiColor::Gray, bg: TuiColor::Reset });
}

#[test]
fn isometric_view_draws_back_to_front() {
    use_iso();
}

fn use_iso() {
    let order = openitb::iso::draw_order();
    assert_eq!(order.len(), 64);
    assert_eq!(order[0], Position { file: 7, rank: 7 });
    assert_eq!(order[1], Position { file: 6, rank: 7 });
    assert_eq!(order[8], Position { file: 7, rank: 6 });
    assert_eq!(order[63], Position { file: 0, rank: 0 });
    assert_eq!(openitb::iso::terrain_texture(Terrain::Grass), "ground");
    assert_eq!(openitb::iso::terrain_texture(Terrain::SingleBuilding), "double");
    assert_eq!(openitb::iso::terrain_texture(Terrain::Forest), "trees");
    assert_eq!(openitb::iso::terrain_texture(Terrain::MonsterIngress), "ground");
    assert_eq!(openitb::iso::piece_texture(PieceType::Leaper), "leaper");
}

#[test]
fn debug_view_keys_toggle_layers() {
    let mut tui = DebugTui::new();
    assert!(!tui.handle_key('t'));
    assert!(!tui.show_terrain);
    assert!(!tui.handle_key('c'));
    assert!(!tui.show_coordinates);
    assert!(!tui.handle_key('x'));
    assert!(tui.show_pieces && tui.show_effects && tui.show_legal_moves);
    assert!(tui.handle_key('q'));
    assert!(!tui.handle_key('t'));
    assert!(tui.show_terrain);
}

#[test]
fn debug_view_rows_run_from_rank_eight_down() {
    let board = Board::from_map_string("P T\nM W\nG G G G G G G G\nG\nG\nG\nG\nG G G G G G G H");
    let tui = DebugTui::new();
    let rows = tui.board_rows(&board);
    assert_eq!(rows.len(), 8);
    assert!(rows.iter().all(|r| r.len() == 8));
    // The top row is rank 8, with the leaper on h8.
    assert_eq!(rows[0][7], CellView { symbol: 'L', fg: TuiColor::Red, bg: TuiColor::Reset });
    // The bottom row is rank 1: the mech on a1, the forest on b1.
    assert_eq!(rows[7][0].symbol, 'M');
    assert_eq!(rows[7][0].fg, TuiColor::Cyan);
    assert_eq!(rows[7][1], CellView { symbol: 'T', fg: TuiColor::Green, bg: TuiColor::Reset });
    assert_eq!(rows[6][0], CellView { symbol: 'M', fg: TuiColor::Yellow, bg: TuiColor::Reset });
}

#[test]
fn attack_squares_grow_with_range_and_work_off_the_board() {
    let from = Position { file: 3, rank: 3 };
    let short = AttackPattern::Rook.get_attack_positions(from, Some(1));
    let long = AttackPattern::Rook.get_attack_positions(from, Some(3));
    assert_eq!(short.len(), 4);
    assert_eq!(long.len(), 12);
    assert!(short.iter().all(|p| long.contains(p)));
    // Off the board on file 8, leftwards rays run back onto the board.
    let off = Position { file: 8, rank: 0 };
    let squares = AttackPattern::Rook.get_attack_positions(off, Some(2));
    assert_eq!(squares, vec![Position { file: 7, rank: 0 }, Position { file: 6, rank: 0 }]);
    assert_eq!(AttackPattern::King.get_attack_positions(off, None).len(), 2);
}
