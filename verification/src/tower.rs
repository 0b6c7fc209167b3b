//! Tower kinds, targeting modes, specializations, synergies and the
//! integer state of a placed tower.

use vstd::prelude::*;
use crate::economy::{sat_add, PlayerEconomy};
use crate::map::{GameMap, TileType, tile_index, GRID_HEIGHT, GRID_WIDTH};
use crate::rules::{
    detect_synergies, SynergyResult,
    spec_sell_value, spec_upgrade_cost, spec_upgrade_cost_total, sell_value, upgrade_cost,
};

verus! {

/// Targeting priority for towers.
#[derive(Clone, Copy, PartialEq, Eq, Debug, Structural)]
pub enum TargetingPriority {
    First,  // Furthest along the path (default, best for preventing leaks)
    Closest,  // Nearest to tower (best for rapid-fire towers)
    LowestHP,  // Lowest current health (good for finishing enemies)
    HighestHP,  // Highest current health (focus on tanks)
    Fastest,  // Fastest moving (pick off speedsters)
}

impl TargetingPriority {
    /// Position of the mode in the cycle First, Closest, Lowest HP, Highest HP, Fastest.
    pub open spec fn rank(self) -> nat {
        match self {
            TargetingPriority::First => 0,
            TargetingPriority::Closest => 1,
            TargetingPriority::LowestHP => 2,
            TargetingPriority::HighestHP => 3,
            TargetingPriority::Fastest => 4,
        }
    }

    pub open spec fn spec_next(self) -> TargetingPriority {
        match self {
            TargetingPriority::First => TargetingPriority::Closest,
            TargetingPriority::Closest => TargetingPriority::LowestHP,
            TargetingPriority::LowestHP => TargetingPriority::HighestHP,
            TargetingPriority::HighestHP => TargetingPriority::Fastest,
            TargetingPriority::Fastest => TargetingPriority::First,
        }
    }

    pub open spec fn spec_name(self) -> Seq<char> {
        match self {
            TargetingPriority::First => "First"@,
            TargetingPriority::Closest => "Closest"@,
            TargetingPriority::LowestHP => "Lowest HP"@,
            TargetingPriority::HighestHP => "Highest HP"@,
            TargetingPriority::Fastest => "Fastest"@,
        }
    }

    /// The default mode: First.
    pub fn default_priority() -> (p: Self)
        ensures
            p == TargetingPriority::First,
    {
        TargetingPriority::First
    }

    pub fn name(&self) -> (s: &'static str)
        ensures
            s@ == self.spec_name(),
    {
        match self {
            TargetingPriority::First => "First",
            TargetingPriority::Closest => "Closest",
            TargetingPriority::LowestHP => "Lowest HP",
            TargetingPriority::HighestHP => "Highest HP",
            TargetingPriority::Fastest => "Fastest",
        }
    }

    /// The next mode in the cycle, wrapping from Fastest back to First.
    pub fn next(&self) -> (n: Self)
        ensures
            n == self.spec_next(),
            n.rank() == (self.rank() + 1) % 5,
    {
        match self {
            TargetingPriority::First => TargetingPriority::Closest,
            TargetingPriority::Closest => TargetingPriority::LowestHP,
            TargetingPriority::LowestHP => TargetingPriority::HighestHP,
            TargetingPriority::HighestHP => TargetingPriority::Fastest,
            TargetingPriority::Fastest => TargetingPriority::First,
        }
    }
}

/// Cycling the targeting mode five times comes back to the starting mode,
/// never stays put, and no two modes share a successor.
pub proof fn lemma_targeting_cycle(p: TargetingPriority)
    ensures
        p.spec_next().spec_next().spec_next().spec_next().spec_next() == p,
        p.spec_next() != p,
        forall|q: TargetingPriority| #[trigger] q.spec_next() == p.spec_next() ==> q == p,
{
}

/// Tower types available.
#[derive(Clone, Copy, PartialEq, Eq, Debug, Structural)]
pub enum TowerType {
    Basic,  // Single target, balanced
    Splash,  // AOE damage
    Slow,  // Slows enemies
    Sniper,  // Long range, high damage, slow
    Rapid,  // Short range, fast attacks
    Chain,  // Lightning bounces between enemies
    Poison,  // Deals damage over time
    Buff,  // Boosts nearby towers (doesn't attack)
}

impl TowerType {
    pub open spec fn spec_cost(self) -> u32 {
        match self {
            TowerType::Basic => 50,
            TowerType::Splash => 100,
            TowerType::Slow => 75,
            TowerType::Sniper => 150,
            TowerType::Rapid => 100,
            TowerType::Chain => 120,
            TowerType::Poison => 90,
            TowerType::Buff => 200,
        }
    }

    pub open spec fn spec_name(self) -> Seq<char> {
        match self {
            TowerType::Basic => "Basic"@,
            TowerType::Splash => "Splash"@,
            TowerType::Slow => "Slow"@,
            TowerType::Sniper => "Sniper"@,
            TowerType::Rapid => "Rapid"@,
            TowerType::Chain => "Chain"@,
            TowerType::Poison => "Poison"@,
            TowerType::Buff => "Buff"@,
        }
    }

    pub open spec fn spec_description(self) -> Seq<char> {
        match self {
            TowerType::Basic => "Balanced single-target damage"@,
            TowerType::Splash => "Area damage to groups"@,
            TowerType::Slow => "Slows enemy movement"@,
            TowerType::Sniper => "Long range, high damage"@,
            TowerType::Rapid => "Fast attacks, short range"@,
            TowerType::Chain => "Lightning bounces 3 times"@,
            TowerType::Poison => "Deals damage over time"@,
            TowerType::Buff => "Buffs nearby towers (scales)"@,
        }
    }

    /// The default tower kind: Basic.
    pub fn default_type() -> (t: Self)
        ensures
            t == TowerType::Basic,
    {
        TowerType::Basic
    }

    /// Purchase price.
    pub fn cost(&self) -> (c: u32)
        ensures
            c == self.spec_cost(),
            50 <= c <= 200,
    {
        match self {
            TowerType::Basic => 50,
            TowerType::Splash => 100,
            TowerType::Slow => 75,
            TowerType::Sniper => 150,
            TowerType::Rapid => 100,  // Nerfed from 80
            TowerType::Chain => 120,
            TowerType::Poison => 90,
            TowerType::Buff => 200,
        }
    }

    pub fn name(&self) -> (s: &'static str)
        ensures
            s@ == self.spec_name(),
    {
        match self {
            TowerType::Basic => "Basic",
            TowerType::Splash => "Splash",
            TowerType::Slow => "Slow",
            TowerType::Sniper => "Sniper",
            TowerType::Rapid => "Rapid",
            TowerType::Chain => "Chain",
            TowerType::Poison => "Poison",
            TowerType::Buff => "Buff",
        }
    }

    pub fn description(&self) -> (s: &'static str)
        ensures
            s@ == self.spec_description(),
    {
        match self {
            TowerType::Basic => "Balanced single-target damage",
            TowerType::Splash => "Area damage to groups",
            TowerType::Slow => "Slows enemy movement",
            TowerType::Sniper => "Long range, high damage",
            TowerType::Rapid => "Fast attacks, short range",
            TowerType::Chain => "Lightning bounces 3 times",
            TowerType::Poison => "Deals damage over time",
            TowerType::Buff => "Buffs nearby towers (scales)",
        }
    }

    /// Whether this tower can attack enemies (every kind but Buff).
    pub fn can_attack(&self) -> (b: bool)
        ensures
            b == (*self != TowerType::Buff),
    {
        match self {
            TowerType::Buff => false,
            _ => true,
        }
    }
}


/// Tower specializations, chosen when a branching tower leaves level 2.
#[derive(Clone, Copy, PartialEq, Eq, Debug, Structural)]
pub enum Specialization {
    // Basic
    Marksman,  // +damage, +range, -speed
    Gunner,  // +speed, -damage per shot
    // Splash
    Napalm,  // Lingering ground DOT zone on impact
    Shockwave,  // Knockback + larger splash radius
    // Slow
    Cryogenic,  // Freeze chance on hit (full stop 1s)
    Blizzard,  // AOE slow field
    // Sniper
    Railgun,  // Pierces through enemies
    Assassin,  // Crit chance for 3x damage
    // Rapid
    Minigun,  // Attack speed ramps up on same target
    Shotgun,  // Fires 3-5 projectiles in cone
    // Chain
    Tesla,  // +2 extra bounces, wider range
    Arc,  // Each bounce creates small AOE
}

/// The two branches offered to each tower kind; Buff and Poison stay linear.
pub open spec fn spec_choices_for(tower_type: TowerType) -> Option<(Specialization, Specialization)> {
    match tower_type {
        TowerType::Basic => Some((Specialization::Marksman, Specialization::Gunner)),
        TowerType::Splash => Some((Specialization::Napalm, Specialization::Shockwave)),
        TowerType::Slow => Some((Specialization::Cryogenic, Specialization::Blizzard)),
        TowerType::Sniper => Some((Specialization::Railgun, Specialization::Assassin)),
        TowerType::Rapid => Some((Specialization::Minigun, Specialization::Shotgun)),
        TowerType::Chain => Some((Specialization::Tesla, Specialization::Arc)),
        _ => None,
    }
}

impl Specialization {
    pub open spec fn spec_name(self) -> Seq<char> {
        match self {
            Specialization::Marksman => "Marksman"@,
            Specialization::Gunner => "Gunner"@,
            Specialization::Napalm => "Napalm"@,
            Specialization::Shockwave => "Shockwave"@,
            Specialization::Cryogenic => "Cryogenic"@,
            Specialization::Blizzard => "Blizzard"@,
            Specialization::Railgun => "Railgun"@,
            Specialization::Assassin => "Assassin"@,
            Specialization::Minigun => "Minigun"@,
            Specialization::Shotgun => "Shotgun"@,
            Specialization::Tesla => "Tesla"@,
            Specialization::Arc => "Arc"@,
        }
    }

    pub open spec fn spec_description(self) -> Seq<char> {
        match self {
            Specialization::Marksman => "+DMG, +Range, -Speed"@,
            Specialization::Gunner => "+Speed, -DMG per shot"@,
            Specialization::Napalm => "Leaves fire zones on impact"@,
            Specialization::Shockwave => "Knockback + bigger splash"@,
            Specialization::Cryogenic => "Chance to freeze enemies"@,
            Specialization::Blizzard => "Creates AOE slow fields"@,
            Specialization::Railgun => "Pierces through enemies"@,
            Specialization::Assassin => "25% crit for 3x damage"@,
            Specialization::Minigun => "Speed ramps on same target"@,
            Specialization::Shotgun => "Fires 3-5 in a cone"@,
            Specialization::Tesla => "+2 bounces, wider range"@,
            Specialization::Arc => "AOE at each bounce point"@,
        }
    }

    pub open spec fn spec_initial(self) -> Seq<char> {
        match self {
            Specialization::Marksman => "M"@,
            Specialization::Gunner => "G"@,
            Specialization::Napalm => "N"@,
            Specialization::Shockwave => "S"@,
            Specialization::Cryogenic => "C"@,
            Specialization::Blizzard => "B"@,
            Specialization::Railgun => "R"@,
            Specialization::Assassin => "A"@,
            Specialization::Minigun => "M"@,
            Specialization::Shotgun => "S"@,
            Specialization::Tesla => "T"@,
            Specialization::Arc => "A"@,
        }
    }

    /// The tower kind whose branch this specialization is.
    pub open spec fn spec_tower_type(self) -> TowerType {
        match self {
            Specialization::Marksman | Specialization::Gunner => TowerType::Basic,
            Specialization::Napalm | Specialization::Shockwave => TowerType::Splash,
            Specialization::Cryogenic | Specialization::Blizzard => TowerType::Slow,
            Specialization::Railgun | Specialization::Assassin => TowerType::Sniper,
            Specialization::Minigun | Specialization::Shotgun => TowerType::Rapid,
            Specialization::Tesla | Specialization::Arc => TowerType::Chain,
        }
    }

    /// Get the two specialization choices for a given tower type.
    pub fn choices_for(tower_type: TowerType) -> (c: Option<[Specialization; 2]>)
        ensures
            match spec_choices_for(tower_type) {
                Some((a, b)) => c.is_some() && c.unwrap()@ == seq![a, b],
                None => c.is_none(),
            },
    {
        let c = match tower_type {
            TowerType::Basic => Some([Specialization::Marksman, Specialization::Gunner]),
            TowerType::Splash => Some([Specialization::Napalm, Specialization::Shockwave]),
            TowerType::Slow => Some([Specialization::Cryogenic, Specialization::Blizzard]),
            TowerType::Sniper => Some([Specialization::Railgun, Specialization::Assassin]),
            TowerType::Rapid => Some([Specialization::Minigun, Specialization::Shotgun]),
            TowerType::Chain => Some([Specialization::Tesla, Specialization::Arc]),
            _ => None,  // Buff and Poison stay linear
        };
        proof {
            if let Some(arr) = c {
                assert(arr@ =~= seq![arr@[0], arr@[1]]);
            }
        }
        c
    }

    pub fn name(&self) -> (s: &'static str)
        ensures
            s@ == self.spec_name(),
    {
        match self {
            Specialization::Marksman => "Marksman",
            Specialization::Gunner => "Gunner",
            Specialization::Napalm => "Napalm",
            Specialization::Shockwave => "Shockwave",
            Specialization::Cryogenic => "Cryogenic",
            Specialization::Blizzard => "Blizzard",
            Specialization::Railgun => "Railgun",
            Specialization::Assassin => "Assassin",
            Specialization::Minigun => "Minigun",
            Specialization::Shotgun => "Shotgun",
            Specialization::Tesla => "Tesla",
            Specialization::Arc => "Arc",
        }
    }

    pub fn description(&self) -> (s: &'static str)
        ensures
            s@ == self.spec_description(),
    {
        match self {
            Specialization::Marksman => "+DMG, +Range, -Speed",
            Specialization::Gunner => "+Speed, -DMG per shot",
            Specialization::Napalm => "Leaves fire zones on impact",
            Specialization::Shockwave => "Knockback + bigger splash",
            Specialization::Cryogenic => "Chance to freeze enemies",
            Specialization::Blizzard => "Creates AOE slow fields",
            Specialization::Railgun => "Pierces through enemies",
            Specialization::Assassin => "25% crit for 3x damage",
            Specialization::Minigun => "Speed ramps on same target",
            Specialization::Shotgun => "Fires 3-5 in a cone",
            Specialization::Tesla => "+2 bounces, wider range",
            Specialization::Arc => "AOE at each bounce point",
        }
    }

    /// Short initial letter for level badge display.
    pub fn initial(&self) -> (s: &'static str)
        ensures
            s@ == self.spec_initial(),
    {
        match self {
            Specialization::Marksman => "M",
            Specialization::Gunner => "G",
            Specialization::Napalm => "N",
            Specialization::Shockwave => "S",
            Specialization::Cryogenic => "C",
            Specialization::Blizzard => "B",
            Specialization::Railgun => "R",
            Specialization::Assassin => "A",
            Specialization::Minigun => "M",
            Specialization::Shotgun => "S",
            Specialization::Tesla => "T",
            Specialization::Arc => "A",
        }
    }
}

/// Every offered specialization belongs to the branch of the tower that is
/// offered it, and each branching tower has two distinct choices.
pub proof fn lemma_choices_belong_to_tower(tower_type: TowerType)
    ensures
        match spec_choices_for(tower_type) {
            Some((a, b)) => a.spec_tower_type() == tower_type && b.spec_tower_type()
                == tower_type && a != b,
            None => tower_type == TowerType::Buff || tower_type == TowerType::Poison,
        },
{
}

/// Tower synergy types.
#[derive(Clone, Copy, PartialEq, Eq, Debug, Structural)]
pub enum SynergyType {
    SniperPair,  // Sniper + Sniper: +15% range each
    SlowPoison,  // Slow + Poison: Poison duration +50%
    RapidBuff,  // Rapid + Buff: Attack speed bonus doubled
    ChainPair,  // Chain + Chain: +1 bounce each
}

impl SynergyType {
    pub open spec fn spec_towers_required(self) -> (TowerType, TowerType) {
        match self {
            SynergyType::SniperPair => (TowerType::Sniper, TowerType::Sniper),
            SynergyType::SlowPoison => (TowerType::Slow, TowerType::Poison),
            SynergyType::RapidBuff => (TowerType::Rapid, TowerType::Buff),
            SynergyType::ChainPair => (TowerType::Chain, TowerType::Chain),
        }
    }

    pub open spec fn spec_name(self) -> Seq<char> {
        match self {
            SynergyType::SniperPair => "Sniper Duo"@,
            SynergyType::SlowPoison => "Toxic Slow"@,
            SynergyType::RapidBuff => "Overdrive"@,
            SynergyType::ChainPair => "Lightning Storm"@,
        }
    }

    pub open spec fn spec_description(self) -> Seq<char> {
        match self {
            SynergyType::SniperPair => "+15% range"@,
            SynergyType::SlowPoison => "+50% poison duration"@,
            SynergyType::RapidBuff => "2x speed buff"@,
            SynergyType::ChainPair => "+1 chain bounce"@,
        }
    }

    /// All synergies, in display order.
    pub fn all() -> (v: Vec<SynergyType>)
        ensures
            v@ == seq![
                SynergyType::SniperPair,
                SynergyType::SlowPoison,
                SynergyType::RapidBuff,
                SynergyType::ChainPair,
            ],
    {
        let v = vec![
            SynergyType::SniperPair,
            SynergyType::SlowPoison,
            SynergyType::RapidBuff,
            SynergyType::ChainPair,
        ];
        proof {
            assert(v@ =~= seq![
                SynergyType::SniperPair,
                SynergyType::SlowPoison,
                SynergyType::RapidBuff,
                SynergyType::ChainPair,
            ]);
        }
        v
    }

    /// The pair of adjacent tower kinds that forms this synergy.
    pub fn towers_required(&self) -> (p: (TowerType, TowerType))
        ensures
            p == self.spec_towers_required(),
    {
        match self {
            SynergyType::SniperPair => (TowerType::Sniper, TowerType::Sniper),
            SynergyType::SlowPoison => (TowerType::Slow, TowerType::Poison),
            SynergyType::RapidBuff => (TowerType::Rapid, TowerType::Buff),
            SynergyType::ChainPair => (TowerType::Chain, TowerType::Chain),
        }
    }

    pub fn name(&self) -> (s: &'static str)
        ensures
            s@ == self.spec_name(),
    {
        match self {
            SynergyType::SniperPair => "Sniper Duo",
            SynergyType::SlowPoison => "Toxic Slow",
            SynergyType::RapidBuff => "Overdrive",
            SynergyType::ChainPair => "Lightning Storm",
        }
    }

    pub fn description(&self) -> (s: &'static str)
        ensures
            s@ == self.spec_description(),
    {
        match self {
            SynergyType::SniperPair => "+15% range",
            SynergyType::SlowPoison => "+50% poison duration",
            SynergyType::RapidBuff => "2x speed buff",
            SynergyType::ChainPair => "+1 chain bounce",
        }
    }
}


/// The integer state of a placed tower. Its damage, range and attack timer
/// are floating-point values derived from this state by the caller.
pub struct Tower {
    pub tower_type: TowerType,
    pub grid_x: usize,
    pub grid_y: usize,
    pub level: u32,
    pub targeting: TargetingPriority,
    pub specialization: Option<Specialization>,
}

impl Tower {
    /// A tower is at level 1 or above.
    pub open spec fn wf(&self) -> bool {
        self.level >= 1
    }

    /// Everything invested in the tower (price plus upgrades) fits in a `u32`.
    pub open spec fn investment_fits(&self) -> bool {
        self.tower_type.spec_cost() + spec_upgrade_cost_total(
            self.tower_type.spec_cost() as nat,
            self.level as nat,
        ) <= u32::MAX
    }

    pub open spec fn spec_needs_specialization(&self) -> bool {
        self.level == 2 && self.specialization.is_none() && spec_choices_for(
            self.tower_type,
        ).is_some()
    }

    pub open spec fn spec_sell_value(&self) -> nat {
        spec_sell_value(self.tower_type.spec_cost() as nat, self.level as nat)
    }

    pub open spec fn spec_upgrade_cost(&self) -> nat {
        spec_upgrade_cost(self.tower_type.spec_cost() as nat, self.level as nat)
    }

    /// A fresh level-1 tower on `(grid_x, grid_y)`, targeting First.
    pub fn new(tower_type: TowerType, grid_x: usize, grid_y: usize) -> (t: Self)
        ensures
            t.tower_type == tower_type,
            t.grid_x == grid_x,
            t.grid_y == grid_y,
            t.level == 1,
            t.targeting == TargetingPriority::First,
            t.specialization.is_none(),
    {
        Tower {
            tower_type,
            grid_x,
            grid_y,
            level: 1,
            targeting: TargetingPriority::First,
            specialization: None,
        }
    }

    /// Switch to the next targeting mode.
    pub fn cycle_targeting(&mut self)
        ensures
            final(self).targeting == old(self).targeting.spec_next(),
            final(self).tower_type == old(self).tower_type,
            final(self).grid_x == old(self).grid_x,
            final(self).grid_y == old(self).grid_y,
            final(self).level == old(self).level,
            final(self).specialization == old(self).specialization,
    {
        self.targeting = self.targeting.next();
    }

    pub fn sell_value(&self) -> (v: u32)
        requires
            self.investment_fits(),
        ensures
            v == self.spec_sell_value(),
    {
        sell_value(self.tower_type.cost(), self.level)
    }

    pub fn upgrade_cost(&self) -> (c: u32)
        requires
            self.wf(),
        ensures
            c == self.spec_upgrade_cost(),
    {
        upgrade_cost(self.tower_type.cost(), self.level)
    }

    /// True when the tower is at level 2, has branching options, and has
    /// not chosen yet.
    pub fn needs_specialization(&self) -> (b: bool)
        ensures
            b == self.spec_needs_specialization(),
    {
        self.level == 2 && self.specialization.is_none() && Specialization::choices_for(
            self.tower_type,
        ).is_some()
    }

    /// Upgrades are blocked while a specialization choice is pending.
    pub fn can_upgrade(&self) -> (b: bool)
        ensures
            b == !self.spec_needs_specialization(),
    {
        !self.needs_specialization()
    }

    /// Apply a specialization: records it and advances one level.
    pub fn specialize(&mut self, spec: Specialization)
        requires
            old(self).level < u32::MAX,
        ensures
            final(self).specialization == Some(spec),
            final(self).level == old(self).level + 1,
            final(self).tower_type == old(self).tower_type,
            final(self).grid_x == old(self).grid_x,
            final(self).grid_y == old(self).grid_y,
            final(self).targeting == old(self).targeting,
    {
        self.specialization = Some(spec);
        // Specialization costs same as a normal level 2->3 upgrade
        self.upgrade();
    }

    /// Advance one level.
    pub fn upgrade(&mut self)
        requires
            old(self).level < u32::MAX,
        ensures
            final(self).level == old(self).level + 1,
            final(self).specialization == old(self).specialization,
            final(self).tower_type == old(self).tower_type,
            final(self).grid_x == old(self).grid_x,
            final(self).grid_y == old(self).grid_y,
            final(self).targeting == old(self).targeting,
    {
        self.level = self.level + 1;
    }
}

/// The cell reached from `(x, y)` by the `k`-th of the eight neighbour
/// offsets, in the order (-1,-1), (0,-1), (1,-1), (-1,0), (1,0), (-1,1),
/// (0,1), (1,1); none when it would leave the non-negative quadrant.
pub open spec fn neighbor_cell(x: int, y: int, k: int) -> Option<(int, int)> {
    let dx: int = if k == 0 || k == 3 || k == 5 {
        -1
    } else if k == 1 || k == 6 {
        0
    } else {
        1
    };
    let dy: int = if k <= 2 {
        -1
    } else if k <= 4 {
        0
    } else {
        1
    };
    if x + dx >= 0 && y + dy >= 0 {
        Some((x + dx, y + dy))
    } else {
        None
    }
}

/// Index of the last of the first `n` towers standing on cell `c` (a later
/// tower on the same cell hides an earlier one, as a grid lookup would).
pub open spec fn last_tower_at(towers: Seq<Tower>, n: int, c: (int, int)) -> Option<int>
    decreases n,
{
    if n <= 0 {
        None
    } else if towers[n - 1].grid_x == c.0 && towers[n - 1].grid_y == c.1 {
        Some(n - 1)
    } else {
        last_tower_at(towers, n - 1, c)
    }
}

/// Kinds of the towers adjacent to tower `i`, found through the first `k`
/// neighbour offsets; tower `i` never counts as its own neighbour.
pub open spec fn adjacent_types_upto(towers: Seq<Tower>, i: int, k: int) -> Seq<TowerType>
    decreases k,
{
    if k <= 0 {
        Seq::empty()
    } else {
        let prev = adjacent_types_upto(towers, i, k - 1);
        match neighbor_cell(towers[i].grid_x as int, towers[i].grid_y as int, k - 1) {
            Some(c) => match last_tower_at(towers, towers.len() as int, c) {
                Some(j) => if j != i {
                    prev.push(towers[j].tower_type)
                } else {
                    prev
                },
                None => prev,
            },
            None => prev,
        }
    }
}

/// Kinds of the towers on the eight cells around tower `i`.
pub open spec fn adjacent_types(towers: Seq<Tower>, i: int) -> Seq<TowerType> {
    adjacent_types_upto(towers, i, 8)
}

proof fn lemma_adjacent_upto_grows(towers: Seq<Tower>, i: int, k: int, t: TowerType)
    requires
        0 <= k <= 8,
        adjacent_types_upto(towers, i, k).contains(t),
    ensures
        adjacent_types(towers, i).contains(t),
    decreases 8 - k,
{
    if k < 8 {
        let prev = adjacent_types_upto(towers, i, k);
        let next = adjacent_types_upto(towers, i, k + 1);
        let idx = choose|idx: int| 0 <= idx < prev.len() && prev[idx] == t;
        assert(next[idx] == t);
        lemma_adjacent_upto_grows(towers, i, k + 1, t);
    }
}

/// Every tower on one of the eight cells around tower `i`, diagonal
/// neighbours included, that is the last tower on its cell, contributes its
/// kind to the adjacent kinds of tower `i`.
pub proof fn lemma_every_neighbour_counted(towers: Seq<Tower>, i: int, j: int)
    requires
        0 <= i < towers.len(),
        0 <= j < towers.len(),
        j != i,
        last_tower_at(towers, towers.len() as int, (towers[j].grid_x as int, towers[j].grid_y as int))
            == Some(j),
        -1 <= towers[j].grid_x - towers[i].grid_x <= 1,
        -1 <= towers[j].grid_y - towers[i].grid_y <= 1,
        towers[j].grid_x != towers[i].grid_x || towers[j].grid_y != towers[i].grid_y,
    ensures
        adjacent_types(towers, i).contains(towers[j].tower_type),
{
    let x = towers[i].grid_x as int;
    let y = towers[i].grid_y as int;
    let dx = towers[j].grid_x - x;
    let dy = towers[j].grid_y - y;
    let k: int = if dy == -1 {
        dx + 1
    } else if dy == 0 {
        if dx == -1 {
            3
        } else {
            4
        }
    } else {
        if dx == -1 {
            5
        } else if dx == 0 {
            6
        } else {
            7
        }
    };
    let c = (towers[j].grid_x as int, towers[j].grid_y as int);
    assert(neighbor_cell(x, y, k) == Some(c));
    let prev = adjacent_types_upto(towers, i, k);
    assert(adjacent_types_upto(towers, i, k + 1) == prev.push(towers[j].tower_type));
    assert(adjacent_types_upto(towers, i, k + 1)[prev.len() as int] == towers[j].tower_type);
    lemma_adjacent_upto_grows(towers, i, k + 1, towers[j].tower_type);
}

proof fn lemma_adjacent_upto_sources(towers: Seq<Tower>, i: int, k: int, m: int)
    requires
        0 <= i < towers.len(),
        0 <= k <= 8,
        0 <= m < adjacent_types_upto(towers, i, k).len(),
    ensures
        exists|j: int|
            0 <= j < towers.len() && j != i && #[trigger] towers[j].tower_type
                == adjacent_types_upto(towers, i, k)[m] && last_tower_at(
                towers,
                towers.len() as int,
                (towers[j].grid_x as int, towers[j].grid_y as int),
            ) == Some(j) && -1 <= towers[j].grid_x - towers[i].grid_x <= 1 && -1
                <= towers[j].grid_y - towers[i].grid_y <= 1 && (towers[j].grid_x
                != towers[i].grid_x || towers[j].grid_y != towers[i].grid_y),
    decreases k,
{
    let prev = adjacent_types_upto(towers, i, k - 1);
    if m < prev.len() {
        lemma_adjacent_upto_sources(towers, i, k - 1, m);
        assert(adjacent_types_upto(towers, i, k)[m] == prev[m]);
    } else {
        let x = towers[i].grid_x as int;
        let y = towers[i].grid_y as int;
        let c = neighbor_cell(x, y, k - 1)->Some_0;
        lemma_last_tower_at_range(towers, towers.len() as int, c);
        let j = last_tower_at(towers, towers.len() as int, c)->Some_0;
        assert(towers[j].tower_type == adjacent_types_upto(towers, i, k)[m]);
    }
}

/// The adjacent kinds of tower `i` come only from towers on the eight cells
/// around it, each the last tower on its cell and none of them tower `i`;
/// there are at most eight.
pub proof fn lemma_neighbours_only(towers: Seq<Tower>, i: int, m: int)
    requires
        0 <= i < towers.len(),
        0 <= m < adjacent_types(towers, i).len(),
    ensures
        exists|j: int|
            0 <= j < towers.len() && j != i && #[trigger] towers[j].tower_type
                == adjacent_types(towers, i)[m] && last_tower_at(
                towers,
                towers.len() as int,
                (towers[j].grid_x as int, towers[j].grid_y as int),
            ) == Some(j) && -1 <= towers[j].grid_x - towers[i].grid_x <= 1 && -1
                <= towers[j].grid_y - towers[i].grid_y <= 1 && (towers[j].grid_x
                != towers[i].grid_x || towers[j].grid_y != towers[i].grid_y),
{
    lemma_adjacent_upto_sources(towers, i, 8, m);
}

/// Tower `i` has at most eight adjacent kinds.
pub proof fn lemma_at_most_eight_neighbours(towers: Seq<Tower>, i: int)
    ensures
        adjacent_types(towers, i).len() <= 8,
{
    lemma_adjacent_upto_len(towers, i, 8);
}

proof fn lemma_adjacent_upto_len(towers: Seq<Tower>, i: int, k: int)
    requires
        0 <= k,
    ensures
        adjacent_types_upto(towers, i, k).len() <= k,
    decreases k,
{
    if k > 0 {
        lemma_adjacent_upto_len(towers, i, k - 1);
    }
}

proof fn lemma_last_tower_at_range(towers: Seq<Tower>, n: int, c: (int, int))
    requires
        0 <= n <= towers.len(),
    ensures
        match last_tower_at(towers, n, c) {
            Some(j) => 0 <= j < n && towers[j].grid_x == c.0 && towers[j].grid_y == c.1,
            None => true,
        },
    decreases n,
{
    if n > 0 {
        lemma_last_tower_at_range(towers, n - 1, c);
    }
}

/// Index of the last tower standing on `(cx, cy)`.
fn find_last_tower_at(towers: &Vec<Tower>, cx: usize, cy: usize) -> (r: Option<usize>)
    ensures
        match r {
            Some(j) => last_tower_at(towers@, towers@.len() as int, (cx as int, cy as int)) == Some(
                j as int,
            ),
            None => last_tower_at(towers@, towers@.len() as int, (cx as int, cy as int)).is_none(),
        },
{
    let mut n = towers.len();
    while n > 0
        invariant
            n <= towers@.len(),
            last_tower_at(towers@, towers@.len() as int, (cx as int, cy as int))
                == last_tower_at(towers@, n as int, (cx as int, cy as int)),
        decreases n,
    {
        if towers[n - 1].grid_x == cx && towers[n - 1].grid_y == cy {
            return Some(n - 1);
        }
        n -= 1;
    }
    None
}

/// Kinds of the towers on the eight cells around tower `i` (diagonals
/// included), in offset order.
pub fn adjacent_tower_types(towers: &Vec<Tower>, i: usize) -> (types: Vec<TowerType>)
    requires
        i < towers@.len(),
        towers@[i as int].grid_x < usize::MAX,
        towers@[i as int].grid_y < usize::MAX,
    ensures
        types@ == adjacent_types(towers@, i as int),
{
    let x = towers[i].grid_x;
    let y = towers[i].grid_y;
    let mut types: Vec<TowerType> = Vec::with_capacity(8);
    let mut k: usize = 0;
    while k < 8
        invariant
            k <= 8,
            i < towers@.len(),
            x == towers@[i as int].grid_x,
            y == towers@[i as int].grid_y,
            x < usize::MAX,
            y < usize::MAX,
            types@ == adjacent_types_upto(towers@, i as int, k as int),
        decreases 8 - k,
    {
        let dx_neg = k == 0 || k == 3 || k == 5;
        let dx_pos = !(dx_neg || k == 1 || k == 6);
        let dy_neg = k <= 2;
        let dy_pos = k > 4;
        if (!dx_neg || x >= 1) && (!dy_neg || y >= 1) {
            let cx = if dx_neg {
                x - 1
            } else if dx_pos {
                x + 1
            } else {
                x
            };
            let cy = if dy_neg {
                y - 1
            } else if dy_pos {
                y + 1
            } else {
                y
            };
            proof {
                assert(neighbor_cell(x as int, y as int, k as int) == Some((cx as int, cy as int)));
            }
            match find_last_tower_at(towers, cx, cy) {
                Some(j) => {
                    if j != i {
                        proof {
                            lemma_last_tower_at_range(
                                towers@,
                                towers@.len() as int,
                                (cx as int, cy as int),
                            );
                        }
                        types.push(towers[j].tower_type);
                    }
                },
                None => {},
            }
        } else {
            proof {
                assert(neighbor_cell(x as int, y as int, k as int).is_none());
            }
        }
        k += 1;
    }
    types
}

/// Synergies of every tower, recomputed from the towers' kinds and cells
/// (one result per tower, in order).
pub fn tower_synergies(towers: &Vec<Tower>) -> (results: Vec<SynergyResult>)
    requires
        forall|i: int|
            0 <= i < towers@.len() ==> (#[trigger] towers@[i]).grid_x < usize::MAX
                && towers@[i].grid_y < usize::MAX,
    ensures
        results@.len() == towers@.len(),
        forall|i: int|
            0 <= i < towers@.len() ==> (#[trigger] results@[i]).describes(
                towers@[i].tower_type,
                adjacent_types(towers@, i),
            ),
{
    let mut results: Vec<SynergyResult> = Vec::with_capacity(towers.len());
    let mut i: usize = 0;
    while i < towers.len()
        invariant
            i <= towers@.len(),
            results@.len() == i,
            forall|t: int|
                0 <= t < towers@.len() ==> (#[trigger] towers@[t]).grid_x < usize::MAX
                    && towers@[t].grid_y < usize::MAX,
            forall|t: int|
                0 <= t < i ==> (#[trigger] results@[t]).describes(
                    towers@[t].tower_type,
                    adjacent_types(towers@, t),
                ),
        decreases towers@.len() - i,
    {
        let adjacent = adjacent_tower_types(towers, i);
        let result = detect_synergies(towers[i].tower_type, adjacent.as_slice());
        results.push(result);
        i += 1;
    }
    results
}

/// Placing a tower: it is built when the player can afford it and the tile
/// is buildable; the price is deducted and the tile marked. Otherwise
/// nothing changes.
pub fn place_tower(
    economy: &mut PlayerEconomy,
    map: &mut GameMap,
    tower_type: TowerType,
    grid_x: usize,
    grid_y: usize,
) -> (placed: Option<Tower>)
    requires
        old(map).wf(),
    ensures
        final(map).wf(),
        final(map).path@ == old(map).path@,
        placed.is_some() == (old(economy).gold >= tower_type.spec_cost() && grid_x < GRID_WIDTH
            && grid_y < GRID_HEIGHT && old(map).tile(grid_x as int, grid_y as int)
            == TileType::Empty),
        placed.is_some() ==> {
            &&& final(economy).gold == old(economy).gold - tower_type.spec_cost()
            &&& final(map).tiles@ == old(map).tiles@.update(
                tile_index(grid_x as int, grid_y as int),
                TileType::Tower,
            )
            &&& placed.unwrap() == Tower {
                tower_type,
                grid_x,
                grid_y,
                level: 1,
                targeting: TargetingPriority::First,
                specialization: None,
            }
        },
        placed.is_none() ==> final(economy).gold == old(economy).gold && final(map).tiles@
            == old(map).tiles@,
        final(economy).lives == old(economy).lives,
        final(economy).score == old(economy).score,
        final(economy).interest_rate_percent == old(economy).interest_rate_percent,
        old(map).playable() ==> final(map).playable(),
{
    let cost = tower_type.cost();

    // Check if we can afford it and tile is buildable
    if economy.gold < cost || !map.is_buildable(grid_x, grid_y) {
        return None;
    }
    // Deduct cost
    economy.gold = economy.gold - cost;
    // Mark tile as occupied
    map.place_tower(grid_x, grid_y);
    Some(Tower::new(tower_type, grid_x, grid_y))
}

/// Upgrading a tower: when the upgrade has a price and the player can pay
/// it, the price is deducted and the tower advances one level; the price is
/// returned. Otherwise nothing changes.
pub fn upgrade_tower(economy: &mut PlayerEconomy, tower: &mut Tower) -> (paid: Option<u32>)
    requires
        old(tower).wf(),
        old(tower).level < u32::MAX,
    ensures
        paid.is_some() == (old(tower).spec_upgrade_cost() > 0 && old(economy).gold
            >= old(tower).spec_upgrade_cost()),
        paid.is_some() ==> {
            &&& paid.unwrap() == old(tower).spec_upgrade_cost()
            &&& final(economy).gold == old(economy).gold - old(tower).spec_upgrade_cost()
            &&& *final(tower) == (Tower { level: (old(tower).level + 1) as u32, ..*old(tower) })
        },
        paid.is_none() ==> *final(economy) == *old(economy) && *final(tower) == *old(tower),
        final(economy).lives == old(economy).lives,
        final(economy).score == old(economy).score,
        final(economy).interest_rate_percent == old(economy).interest_rate_percent,
{
    let cost = tower.upgrade_cost();
    if cost > 0 && economy.gold >= cost {
        economy.gold = economy.gold - cost;
        tower.upgrade();
        Some(cost)
    } else {
        None
    }
}

/// Specializing a tower: when the player can pay the upgrade price, it is
/// deducted, the branch recorded and the tower advances one level; the price
/// is returned. Otherwise nothing changes.
pub fn specialize_tower(economy: &mut PlayerEconomy, tower: &mut Tower, spec: Specialization) -> (paid: Option<u32>)
    requires
        old(tower).wf(),
        old(tower).level < u32::MAX,
    ensures
        paid.is_some() == (old(economy).gold >= old(tower).spec_upgrade_cost()),
        paid.is_some() ==> {
            &&& paid.unwrap() == old(tower).spec_upgrade_cost()
            &&& final(economy).gold == old(economy).gold - old(tower).spec_upgrade_cost()
            &&& *final(tower) == (Tower {
                level: (old(tower).level + 1) as u32,
                specialization: Some(spec),
                ..*old(tower)
            })
        },
        paid.is_none() ==> *final(economy) == *old(economy) && *final(tower) == *old(tower),
        final(economy).lives == old(economy).lives,
        final(economy).score == old(economy).score,
        final(economy).interest_rate_percent == old(economy).interest_rate_percent,
{
    let cost = tower.upgrade_cost();
    if economy.gold >= cost {
        economy.gold = economy.gold - cost;
        tower.specialize(spec);
        Some(cost)
    } else {
        None
    }
}

/// Selling a tower: its resale value is refunded (saturating) and its tile
/// freed. Returns the refund.
pub fn sell_tower(economy: &mut PlayerEconomy, map: &mut GameMap, tower: &Tower) -> (refund: u32)
    requires
        old(map).wf(),
        tower.investment_fits(),
    ensures
        refund == tower.spec_sell_value(),
        final(economy).gold == sat_add(old(economy).gold as nat, refund as nat),
        final(economy).lives == old(economy).lives,
        final(economy).score == old(economy).score,
        final(economy).interest_rate_percent == old(economy).interest_rate_percent,
        final(map).wf(),
        final(map).path@ == old(map).path@,
        (tower.grid_x < GRID_WIDTH && tower.grid_y < GRID_HEIGHT && old(map).tile(
            tower.grid_x as int,
            tower.grid_y as int,
        ) == TileType::Tower) ==> final(map).tiles@ == old(map).tiles@.update(
            tile_index(tower.grid_x as int, tower.grid_y as int),
            TileType::Empty,
        ),
        !(tower.grid_x < GRID_WIDTH && tower.grid_y < GRID_HEIGHT && old(map).tile(
            tower.grid_x as int,
            tower.grid_y as int,
        ) == TileType::Tower) ==> final(map).tiles@ == old(map).tiles@,
        old(map).playable() ==> final(map).playable(),
{
    let refund = tower.sell_value();
    economy.earn_gold(refund);
    map.remove_tower(tower.grid_x, tower.grid_y);
    refund
}

/// Undoing the most recent placement: a tower that is still at level 1 is
/// refunded in full. The sale that follows refunds the resale value, so the
/// difference between the price paid and that value is added here
/// (saturating). Returns whether the undo applies.
pub fn undo_refund(economy: &mut PlayerEconomy, paid: u32, tower: &Tower) -> (applies: bool)
    requires
        tower.investment_fits(),
    ensures
        applies == (tower.level == 1),
        applies ==> final(economy).gold == sat_add(
            old(economy).gold as nat,
            (if paid >= tower.spec_sell_value() {
                paid - tower.spec_sell_value()
            } else {
                0
            }) as nat,
        ),
        !applies ==> final(economy).gold == old(economy).gold,
        final(economy).lives == old(economy).lives,
        final(economy).score == old(economy).score,
        final(economy).interest_rate_percent == old(economy).interest_rate_percent,
{
    if tower.level == 1 {
        let value = tower.sell_value();
        let difference = paid.saturating_sub(value);
        economy.earn_gold(difference);
        true
    } else {
        false
    }
}

/// Undo within the grace window refunds a placement in full: placing a
/// tower, applying the undo top-up and selling it returns the purse to the
/// gold it held before the placement.
pub proof fn lemma_undo_refunds_in_full(gold: nat, tower_type: TowerType)
    requires
        tower_type.spec_cost() <= gold <= u32::MAX,
    ensures
        ({
            let cost = tower_type.spec_cost() as nat;
            let sell = spec_sell_value(cost, 1);
            let after_place = (gold - cost) as nat;
            let after_undo = sat_add(after_place, (cost - sell) as nat);
            sell <= cost && sat_add(after_undo, sell) == gold
        }),
{
}

} // verus!
