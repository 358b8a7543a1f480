//! What the unit status panels show.

use vstd::prelude::*;

use crate::position::Position;
use crate::unit::Unit;

verus! {

/// The sum of the action tokens left to the first `n` units.
pub open spec fn tokens_left(units: Seq<(Position, Unit)>, n: int) -> int
    decreases n,
{
    if n <= 0 {
        0
    } else {
        tokens_left(units, n - 1) + units[n - 1].1.action_tokens_left
    }
}

/// The running sum never decreases.
proof fn lemma_tokens_left_monotone(units: Seq<(Position, Unit)>, i: int, n: int)
    requires
        0 <= i <= n,
    ensures
        tokens_left(units, i) <= tokens_left(units, n),
    decreases n - i,
{
    if i < n {
        lemma_tokens_left_monotone(units, i, n - 1);
    }
}

/// Unit information panels and debug data.
pub struct EguiPanels {
    show_panels: bool,
}

impl EguiPanels {
    pub closed spec fn visible(self) -> bool {
        self.show_panels
    }

    pub fn new() -> (r: Self)
        ensures
            r.visible(),
    {
        Self { show_panels: true }
    }

    /// Toggle panel visibility.
    pub fn toggle_visibility(&mut self)
        ensures
            final(self).visible() == !old(self).visible(),
    {
        self.show_panels = !self.show_panels;
    }

    /// Whether the panels are shown.
    pub fn is_visible(&self) -> (r: bool)
        ensures
            r == self.visible(),
    {
        self.show_panels
    }

    /// A unit's hit points show as critical (in red) when at most a third of its maximum
    /// is left: one of three, but not one of two.
    pub fn hp_critical(unit: &Unit) -> (r: bool)
        ensures
            r == (3 * unit.current_hit_points <= unit.max_hit_points),
    {
        3 * (unit.current_hit_points as u16) <= unit.max_hit_points as u16
    }

    /// The action tokens left to all the given units together.
    pub fn actions_left(units: &Vec<(Position, Unit)>) -> (r: u32)
        requires
            tokens_left(units@, units@.len() as int) <= u32::MAX,
        ensures
            r == tokens_left(units@, units@.len() as int),
    {
        let mut total: u32 = 0;
        let mut i: usize = 0;
        while i < units.len()
            invariant
                tokens_left(units@, units@.len() as int) <= u32::MAX,
                i <= units@.len(),
                total == tokens_left(units@, i as int),
            decreases units@.len() - i,
        {
            proof {
                lemma_tokens_left_monotone(units@, i + 1, units@.len() as int);
            }
            total = total + units[i].1.action_tokens_left as u32;
            i = i + 1;
        }
        total
    }
}

} // verus!
