//! Terrain, units and their attributes.

use vstd::prelude::*;

use crate::attack::AttackPattern;

verus! {

/// Terrain types on the board.
#[derive(Debug, Clone, Copy, PartialEq, Eq, Structural)]
pub enum Terrain {
    /// G - passable
    Grass,
    /// S - passable
    SingleBuilding,
    /// D - passable
    DoubleBuilding,
    /// T - passable but costs extra movement
    Forest,
    /// M - impassable
    Mountain,
    /// W - passable but costs extra movement
    Water,
    /// I - passable, spawns monsters
    MonsterIngress,
    /// P - special objective
    PowerGenerator,
    /// L - trap
    Landmine,
    /// R - weapon
    Rocket,
}

impl Terrain {
    /// Movement points that entering a tile of this terrain takes.
    pub open spec fn cost(self) -> int {
        match self {
            Terrain::Forest | Terrain::Water => 2,
            Terrain::Mountain => 255,
            _ => 1,
        }
    }

    /// Whether a unit can enter a tile of this terrain.
    pub open spec fn passable(self) -> bool {
        !(self is Mountain)
    }

    /// Movement cost for traversing this terrain.
    pub fn movement_cost(&self) -> (r: u8)
        ensures
            r == self.cost(),
    {
        match self {
            Terrain::Grass | Terrain::SingleBuilding | Terrain::DoubleBuilding
            | Terrain::MonsterIngress | Terrain::PowerGenerator | Terrain::Landmine
            | Terrain::Rocket => 1,
            Terrain::Forest | Terrain::Water => 2,
            Terrain::Mountain => 255,
        }
    }

    /// Whether this terrain lets units through.
    pub fn is_passable(&self) -> (r: bool)
        ensures
            r == self.passable(),
    {
        !matches!(self, Terrain::Mountain)
    }
}

/// Game pieces: the basic unit types.
#[derive(Debug, Clone, Copy, PartialEq, Eq, Structural)]
pub enum PieceType {
    /// Player controlled.
    Mech,
    /// Enemy.
    Leaper,
}

/// Weapon types.
#[derive(Debug, Clone, Copy, PartialEq, Eq, Structural)]
pub enum Weapon {
    /// An empty weapon slot.
    NoWeapon,
    PulseCannon,
    RocketLauncher,
    FlameCanon,
    LaserRifle,
    MissilePod,
}

/// Powerup types.
#[derive(Debug, Clone, Copy, PartialEq, Eq, Structural)]
pub enum Powerup {
    /// An empty powerup slot.
    NoPowerup,
    ShieldGenerator,
    ExtraMove,
    DamageBoost,
    RangeExtender,
}

/// Special effects that can affect units.
#[derive(Debug, Clone, Copy, PartialEq, Eq, Structural)]
pub enum SpecialEffect {
    Poisoned,
    Stunned,
    Burning,
    Frozen,
}

/// The two sides of a game.
#[derive(Debug, Clone, Copy, PartialEq, Eq, Structural)]
pub enum Player {
    Human,
    Computer,
}

/// Complete unit definition with all attributes.
#[derive(Debug, Clone, PartialEq, Eq)]
pub struct Unit {
    pub piece_type: PieceType,
    pub player: Player,
    pub pilot_name: String,
    pub primary_weapon: Weapon,
    pub secondary_weapon: Weapon,
    pub special_weapon: Weapon,
    pub powerup1: Powerup,
    pub powerup2: Powerup,
    pub powerup3: Powerup,
    pub max_action_tokens: u8,
    pub action_tokens_left: u8,
    pub max_hit_points: u8,
    pub current_hit_points: u8,
    pub attack_pattern: AttackPattern,
    pub attack_damage: u8,
    pub special_effects: Vec<SpecialEffect>,
}

/// Whether `effects` holds `e`.
fn has_effect(effects: &Vec<SpecialEffect>, e: SpecialEffect) -> (r: bool)
    ensures
        r == effects@.contains(e),
{
    let mut i: usize = 0;
    while i < effects.len()
        invariant
            i <= effects@.len(),
            forall|k: int| 0 <= k < i ==> effects@[k] != e,
        decreases effects@.len() - i,
    {
        if effects[i] == e {
            return true;
        }
        i = i + 1;
    }
    false
}

impl Unit {
    /// One of the three powerup slots holds an extra move.
    pub open spec fn has_extra_move(self) -> bool {
        self.powerup1 == Powerup::ExtraMove || self.powerup2 == Powerup::ExtraMove
            || self.powerup3 == Powerup::ExtraMove
    }

    /// The action tokens that a unit starts a turn with.
    pub open spec fn turn_tokens(self) -> int {
        self.max_action_tokens + if self.has_extra_move() { 1int } else { 0int }
    }

    /// Can spend an action: tokens are left, and it is neither stunned nor frozen.
    pub open spec fn ready(self) -> bool {
        self.action_tokens_left > 0 && !self.special_effects@.contains(SpecialEffect::Stunned)
            && !self.special_effects@.contains(SpecialEffect::Frozen)
    }

    /// Still has hit points.
    pub open spec fn alive(self) -> bool {
        self.current_hit_points > 0
    }

    /// `other` is a copy of this unit: the same attributes, name and effects.
    pub open spec fn same_as(self, other: Unit) -> bool {
        &&& self.piece_type == other.piece_type
        &&& self.player == other.player
        &&& self.pilot_name@ == other.pilot_name@
        &&& self.primary_weapon == other.primary_weapon
        &&& self.secondary_weapon == other.secondary_weapon
        &&& self.special_weapon == other.special_weapon
        &&& self.powerup1 == other.powerup1
        &&& self.powerup2 == other.powerup2
        &&& self.powerup3 == other.powerup3
        &&& self.max_action_tokens == other.max_action_tokens
        &&& self.action_tokens_left == other.action_tokens_left
        &&& self.max_hit_points == other.max_hit_points
        &&& self.current_hit_points == other.current_hit_points
        &&& self.attack_pattern == other.attack_pattern
        &&& self.attack_damage == other.attack_damage
        &&& self.special_effects@ == other.special_effects@
    }

    /// The attributes of a fresh unit of the given type, owner, weapon and strength.
    pub open spec fn is_fresh(
        self,
        piece_type: PieceType,
        player: Player,
        name: Seq<char>,
        weapon: Weapon,
        strength: u8,
    ) -> bool {
        &&& self.piece_type == piece_type
        &&& self.player == player
        &&& self.pilot_name@ == name
        &&& self.primary_weapon == weapon
        &&& self.secondary_weapon == Weapon::NoWeapon
        &&& self.special_weapon == Weapon::NoWeapon
        &&& self.powerup1 == Powerup::NoPowerup
        &&& self.powerup2 == Powerup::NoPowerup
        &&& self.powerup3 == Powerup::NoPowerup
        &&& self.max_action_tokens == strength
        &&& self.action_tokens_left == strength
        &&& self.max_hit_points == strength
        &&& self.current_hit_points == strength
        &&& self.attack_pattern == AttackPattern::LimitedRook(1)
        &&& self.attack_damage == 1
        &&& self.special_effects@.len() == 0
    }

    /// A fresh player mech: 3 action tokens, 3 hit points, a pulse cannon.
    pub open spec fn is_new_mech(self, name: Seq<char>) -> bool {
        self.is_fresh(PieceType::Mech, Player::Human, name, Weapon::PulseCannon, 3)
    }

    /// A fresh computer leaper: 2 action tokens, 2 hit points, a laser rifle.
    pub open spec fn is_new_leaper(self, name: Seq<char>) -> bool {
        self.is_fresh(PieceType::Leaper, Player::Computer, name, Weapon::LaserRifle, 2)
    }

    /// This unit after spending `n` action tokens.
    pub open spec fn spent(self, n: int) -> Unit {
        Unit { action_tokens_left: (self.action_tokens_left - n) as u8, ..self }
    }

    /// This unit at the start of a new turn.
    pub open spec fn refreshed(self) -> Unit {
        Unit { action_tokens_left: self.turn_tokens() as u8, ..self }
    }

    /// This unit after taking `damage`.
    pub open spec fn damaged(self, damage: u8) -> Unit {
        Unit { current_hit_points: self.hit_points_after(damage), ..self }
    }

    /// Create a new mech unit with default values.
    pub fn new_mech(pilot_name: String) -> (r: Self)
        ensures
            r.is_new_mech(pilot_name@),
            r.pilot_name == pilot_name,
    {
        Self {
            piece_type: PieceType::Mech,
            player: Player::Human,
            pilot_name,
            primary_weapon: Weapon::PulseCannon,
            secondary_weapon: Weapon::NoWeapon,
            special_weapon: Weapon::NoWeapon,
            powerup1: Powerup::NoPowerup,
            powerup2: Powerup::NoPowerup,
            powerup3: Powerup::NoPowerup,
            max_action_tokens: 3,
            action_tokens_left: 3,
            max_hit_points: 3,
            current_hit_points: 3,
            attack_pattern: AttackPattern::LimitedRook(1),
            attack_damage: 1,
            special_effects: Vec::new(),
        }
    }

    /// Create a new leaper unit with default values.
    pub fn new_leaper(pilot_name: String) -> (r: Self)
        ensures
            r.is_new_leaper(pilot_name@),
            r.pilot_name == pilot_name,
    {
        Self {
            piece_type: PieceType::Leaper,
            player: Player::Computer,
            pilot_name,
            primary_weapon: Weapon::LaserRifle,
            secondary_weapon: Weapon::NoWeapon,
            special_weapon: Weapon::NoWeapon,
            powerup1: Powerup::NoPowerup,
            powerup2: Powerup::NoPowerup,
            powerup3: Powerup::NoPowerup,
            max_action_tokens: 2,
            action_tokens_left: 2,
            max_hit_points: 2,
            current_hit_points: 2,
            attack_pattern: AttackPattern::LimitedRook(1),
            attack_damage: 1,
            special_effects: Vec::new(),
        }
    }

    /// Reset action tokens for a new turn: the maximum, plus one with an extra-move powerup.
    pub fn reset_action_tokens(&mut self)
        requires
            old(self).turn_tokens() < 256,
        ensures
            *final(self) == old(self).refreshed(),
    {
        self.action_tokens_left = self.max_action_tokens;
        if self.powerup1 == Powerup::ExtraMove || self.powerup2 == Powerup::ExtraMove
            || self.powerup3 == Powerup::ExtraMove {
            self.action_tokens_left += 1;
        }
    }

    /// Reset action tokens for a new turn.
    pub fn reset_turn(&mut self)
        requires
            old(self).turn_tokens() < 256,
        ensures
            *final(self) == old(self).refreshed(),
    {
        self.reset_action_tokens();
    }

    /// Use one action token for movement or attack; false when none is left.
    pub fn use_action_token(&mut self) -> (r: bool)
        ensures
            r == (old(self).action_tokens_left > 0),
            *final(self) == (if r { old(self).spent(1) } else { *old(self) }),
    {
        if self.action_tokens_left > 0 {
            self.action_tokens_left -= 1;
            true
        } else {
            false
        }
    }

    /// Check if unit can perform any action (move or attack).
    pub fn can_act(&mut self) -> (r: bool)
        ensures
            r == old(self).ready(),
            *final(self) == *old(self),
    {
        self.action_tokens_left > 0 && !has_effect(&self.special_effects, SpecialEffect::Stunned)
            && !has_effect(&self.special_effects, SpecialEffect::Frozen)
    }

    /// Check if unit can still move.
    pub fn can_move(&self) -> (r: bool)
        ensures
            r == self.ready(),
    {
        self.action_tokens_left > 0 && !has_effect(&self.special_effects, SpecialEffect::Stunned)
            && !has_effect(&self.special_effects, SpecialEffect::Frozen)
    }

    /// Check if unit can still attack.
    pub fn can_attack(&self) -> (r: bool)
        ensures
            r == self.ready(),
    {
        self.action_tokens_left > 0 && !has_effect(&self.special_effects, SpecialEffect::Stunned)
            && !has_effect(&self.special_effects, SpecialEffect::Frozen)
    }

    /// The hit points left after taking `damage`, never below zero.
    pub open spec fn hit_points_after(self, damage: u8) -> u8 {
        if self.current_hit_points >= damage {
            (self.current_hit_points - damage) as u8
        } else {
            0
        }
    }

    /// Take damage and return true if unit is destroyed.
    pub fn take_damage(&mut self, damage: u8) -> (r: bool)
        ensures
            *final(self) == old(self).damaged(damage),
            r == !final(self).alive(),
    {
        self.current_hit_points = self.current_hit_points.saturating_sub(damage);
        !self.is_alive()
    }

    /// Check if unit is alive.
    pub fn is_alive(&self) -> (r: bool)
        ensures
            r == self.alive(),
    {
        self.current_hit_points > 0
    }

    /// A copy of this unit.
    pub fn duplicate(&self) -> (r: Unit)
        ensures
            r.same_as(*self),
    {
        let mut effects: Vec<SpecialEffect> = Vec::new();
        let mut i: usize = 0;
        while i < self.special_effects.len()
            invariant
                i <= self.special_effects@.len(),
                effects@ == self.special_effects@.subrange(0, i as int),
            decreases self.special_effects@.len() - i,
        {
            effects.push(self.special_effects[i]);
            i = i + 1;
            assert(effects@ =~= self.special_effects@.subrange(0, i as int));
        }
        assert(effects@ =~= self.special_effects@);
        Unit {
            piece_type: self.piece_type,
            player: self.player,
            pilot_name: self.pilot_name.clone(),
            primary_weapon: self.primary_weapon,
            secondary_weapon: self.secondary_weapon,
            special_weapon: self.special_weapon,
            powerup1: self.powerup1,
            powerup2: self.powerup2,
            powerup3: self.powerup3,
            max_action_tokens: self.max_action_tokens,
            action_tokens_left: self.action_tokens_left,
            max_hit_points: self.max_hit_points,
            current_hit_points: self.current_hit_points,
            attack_pattern: self.attack_pattern,
            attack_damage: self.attack_damage,
            special_effects: effects,
        }
    }
}

} // verus!
