//! The player's active abilities: freeze (Q), gold rush (W) and artillery
//! (E, then a click on the field). Which abilities are ready and which are
//! running is decided here; the cooldown and effect timers are kept by the
//! caller, which reports when one of them runs out.

use vstd::prelude::*;

verus! {

#[derive(Clone, Copy, PartialEq, Eq, Debug, Structural)]
pub enum AbilityType {
    Freeze,
    GoldRush,
    Artillery,
}

impl AbilityType {
    pub open spec fn spec_tooltip(self) -> (Seq<char>, Seq<char>) {
        match self {
            AbilityType::Freeze => ("Freeze [Q]"@, "Freeze all enemies for 3s\nCooldown: 45s"@),
            AbilityType::GoldRush => ("Gold Rush [W]"@, "2x gold from kills for 10s\nCooldown: 60s"@),
            AbilityType::Artillery => (
                "Artillery [E]"@,
                "Click to bomb an area for 400 dmg\nCooldown: 90s"@,
            ),
        }
    }

    /// Title and body of the ability's tooltip.
    pub fn tooltip(&self) -> (t: (&'static str, &'static str))
        ensures
            t.0@ == self.spec_tooltip().0,
            t.1@ == self.spec_tooltip().1,
    {
        match self {
            AbilityType::Freeze => ("Freeze [Q]", "Freeze all enemies for 3s\nCooldown: 45s"),
            AbilityType::GoldRush => ("Gold Rush [W]", "2x gold from kills for 10s\nCooldown: 60s"),
            AbilityType::Artillery => (
                "Artillery [E]",
                "Click to bomb an area for 400 dmg\nCooldown: 90s",
            ),
        }
    }
}

/// Readiness of the abilities.
#[derive(Clone, Copy, PartialEq, Eq, Debug, Structural)]
pub struct PlayerAbilities {
    pub freeze_ready: bool,
    pub gold_rush_ready: bool,
    pub gold_rush_active: bool,
    pub artillery_ready: bool,
    /// Waiting for a click to fire the artillery.
    pub artillery_targeting: bool,
}

/// What the player did this frame.
#[derive(Clone, Copy, PartialEq, Eq, Debug, Structural)]
pub struct AbilityInput {
    pub freeze_key: bool,
    pub gold_rush_key: bool,
    pub artillery_key: bool,
    pub cancel_key: bool,
    /// A left click on the playing field (not on the bars above and below).
    pub field_click: bool,
}

/// The abilities fired this frame.
#[derive(Clone, Copy, PartialEq, Eq, Debug, Structural)]
pub struct AbilityActions {
    pub freeze: bool,
    pub gold_rush: bool,
    pub artillery: bool,
}

impl PlayerAbilities {
    /// All abilities ready, nothing running.
    pub fn new() -> (a: Self)
        ensures
            a.freeze_ready && a.gold_rush_ready && a.artillery_ready,
            !a.gold_rush_active && !a.artillery_targeting,
    {
        PlayerAbilities {
            freeze_ready: true,
            gold_rush_ready: true,
            gold_rush_active: false,
            artillery_ready: true,
            artillery_targeting: false,
        }
    }

    /// Freeze and gold rush fire on their key when ready. The artillery key
    /// starts targeting when the artillery is ready; cancel stops targeting;
    /// a click on the field while targeting fires it.
    pub open spec fn spec_handle_input(self, input: AbilityInput) -> (PlayerAbilities, AbilityActions) {
        let freeze = input.freeze_key && self.freeze_ready;
        let gold_rush = input.gold_rush_key && self.gold_rush_ready;
        let targeting1 = self.artillery_targeting || (input.artillery_key && self.artillery_ready);
        let targeting2 = targeting1 && !input.cancel_key;
        let fire = targeting2 && input.field_click;
        (
            PlayerAbilities {
                freeze_ready: self.freeze_ready && !freeze,
                gold_rush_ready: self.gold_rush_ready && !gold_rush,
                gold_rush_active: self.gold_rush_active,
                artillery_ready: self.artillery_ready && !fire,
                artillery_targeting: targeting2 && !fire,
            },
            AbilityActions { freeze, gold_rush, artillery: fire },
        )
    }

    /// Applies this frame's input; returns the abilities that fire.
    pub fn handle_input(&mut self, input: AbilityInput) -> (fired: AbilityActions)
        ensures
            (*final(self), fired) == old(self).spec_handle_input(input),
    {
        let mut fired = AbilityActions { freeze: false, gold_rush: false, artillery: false };
        if input.freeze_key && self.freeze_ready {
            fired.freeze = true;
            self.freeze_ready = false;
        }
        if input.gold_rush_key && self.gold_rush_ready {
            fired.gold_rush = true;
            self.gold_rush_ready = false;
        }
        if input.artillery_key && self.artillery_ready {
            self.artillery_targeting = true;
        }
        if input.cancel_key && self.artillery_targeting {
            self.artillery_targeting = false;
        }
        if self.artillery_targeting && input.field_click {
            fired.artillery = true;
            self.artillery_targeting = false;
            self.artillery_ready = false;
        }
        fired
    }

    /// A fired gold rush starts running.
    pub fn start_gold_rush(&mut self)
        ensures
            *final(self) == (PlayerAbilities { gold_rush_active: true, ..*old(self) }),
    {
        self.gold_rush_active = true;
    }

    /// The running gold rush ended.
    pub fn end_gold_rush(&mut self)
        ensures
            *final(self) == (PlayerAbilities { gold_rush_active: false, ..*old(self) }),
    {
        self.gold_rush_active = false;
    }

    /// Whether the cooldown of `ability` is running (the caller ticks its
    /// timer only then).
    pub fn cooling_down(&self, ability: AbilityType) -> (b: bool)
        ensures
            b == !self.spec_ready(ability),
    {
        match ability {
            AbilityType::Freeze => !self.freeze_ready,
            AbilityType::GoldRush => !self.gold_rush_ready,
            AbilityType::Artillery => !self.artillery_ready,
        }
    }

    pub open spec fn spec_ready(self, ability: AbilityType) -> bool {
        match ability {
            AbilityType::Freeze => self.freeze_ready,
            AbilityType::GoldRush => self.gold_rush_ready,
            AbilityType::Artillery => self.artillery_ready,
        }
    }

    /// The cooldown of `ability` ran out: it is ready again.
    pub fn cooldown_finished(&mut self, ability: AbilityType)
        ensures
            final(self).spec_ready(ability),
            forall|other: AbilityType|
                other != ability ==> #[trigger] final(self).spec_ready(other) == old(self).spec_ready(
                    other,
                ),
            final(self).gold_rush_active == old(self).gold_rush_active,
            final(self).artillery_targeting == old(self).artillery_targeting,
    {
        match ability {
            AbilityType::Freeze => {
                self.freeze_ready = true;
            },
            AbilityType::GoldRush => {
                self.gold_rush_ready = true;
            },
            AbilityType::Artillery => {
                self.artillery_ready = true;
            },
        }
    }

    /// Whether gold from kills is currently doubled by the ability.
    pub fn is_gold_rush_active(&self) -> (b: bool)
        ensures
            b == self.gold_rush_active,
    {
        self.gold_rush_active
    }
}

/// An ability fires at most once per cooldown: once fired it is not ready,
/// and no input fires it again until its cooldown finishes.
pub proof fn lemma_fire_once_per_cooldown(a: PlayerAbilities, i1: AbilityInput, i2: AbilityInput)
    ensures
        ({
            let (a1, f1) = a.spec_handle_input(i1);
            let (a2, f2) = a1.spec_handle_input(i2);
            &&& f1.freeze ==> !a1.freeze_ready && !f2.freeze && !a2.freeze_ready
            &&& f1.gold_rush ==> !a1.gold_rush_ready && !f2.gold_rush && !a2.gold_rush_ready
            &&& f1.artillery ==> !a1.artillery_ready && !a1.artillery_targeting && !f2.artillery
                && !a2.artillery_ready
        }),
{
}

/// The artillery only fires from the targeting mode, which needs it to be
/// ready: nothing fires from an ability that is not ready.
pub proof fn lemma_only_ready_fires(a: PlayerAbilities, i: AbilityInput)
    requires
        a.artillery_targeting ==> a.artillery_ready,
    ensures
        ({
            let (a1, f) = a.spec_handle_input(i);
            &&& f.freeze ==> a.freeze_ready
            &&& f.gold_rush ==> a.gold_rush_ready
            &&& f.artillery ==> a.artillery_ready
            &&& a1.artillery_targeting ==> a1.artillery_ready
        }),
{
}

} // verus!
