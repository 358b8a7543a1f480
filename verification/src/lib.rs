//! Game logic of OpenITB, a turn-based tactics game in the style of Into the Breach,
//! played on an 8x8 board addressed like a chess board (a1-h8).
//!
//! The crate holds the rules (terrain, units, movement, attacks), the engine that
//! applies them, the turn state machine that drives a game, the view logic of the
//! debug panels, and the model of the small chess board viewer.

pub mod text;
pub mod position;

pub use position::{Move, Position};
pub mod attack;
pub mod unit;

pub use attack::AttackPattern;
pub use unit::{PieceType, Player, Powerup, SpecialEffect, Terrain, Unit, Weapon};
pub mod board;

pub use board::{AttackResult, Board, Effect, GameState};
pub mod movement;
pub mod engine;

pub use engine::Engine;
pub mod game;

pub use game::GameManager;
pub mod debug_view;
pub mod panels;

pub use debug_view::DebugTui;
pub use panels::EguiPanels;
pub mod chess;
pub mod iso;
pub mod laws;
