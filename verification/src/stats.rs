//! Game-wide statistics: totals, per-tower records keyed by a sequential
//! tower id, the per-wave gold timeline and per-kind counters.

use vstd::prelude::*;
use std::collections::HashMap;
use crate::enemy::EnemyType;
use crate::tower::TowerType;
use crate::text::{decimal, push_decimal};

verus! {

broadcast use vstd::std_specs::hash::group_hash_axioms;

/// Per-tower tracking (the damage dealt, a floating-point total, is kept
/// by the caller).
#[derive(Clone, Copy, Debug)]
pub struct TowerInstanceStats {
    pub tower_type: TowerType,
    pub max_level: u32,
    pub total_kills: u32,
    pub gold_invested: u32,
    pub gold_recovered: u32,
    pub was_sold: bool,
}

/// Per-wave gold breakdown.
#[derive(Clone, Copy, Debug)]
pub struct WaveGoldRecord {
    pub gold_from_kills: u32,
    pub gold_from_bonus: u32,
    pub gold_from_interest: u32,
    pub gold_from_early_send: u32,
    pub gold_spent: u32,
}

impl WaveGoldRecord {
    /// A record with nothing in it.
    pub fn empty() -> (r: Self)
        ensures
            r == (WaveGoldRecord {
                gold_from_kills: 0,
                gold_from_bonus: 0,
                gold_from_interest: 0,
                gold_from_early_send: 0,
                gold_spent: 0,
            }),
    {
        WaveGoldRecord {
            gold_from_kills: 0,
            gold_from_bonus: 0,
            gold_from_interest: 0,
            gold_from_early_send: 0,
            gold_spent: 0,
        }
    }

    /// Gold earned in the wave (kills, bonus, interest, early send).
    pub open spec fn spec_earned(self) -> nat {
        (self.gold_from_kills + self.gold_from_bonus + self.gold_from_interest
            + self.gold_from_early_send) as nat
    }
}

/// Sum of the gold spent over a sequence of wave records.
pub open spec fn spent_sum(s: Seq<WaveGoldRecord>) -> nat
    decreases s.len(),
{
    if s.len() == 0 {
        0
    } else {
        spent_sum(s.drop_last()) + s.last().gold_spent as nat
    }
}

/// The counter stored under `k`, or zero.
pub open spec fn map_count(m: Map<u8, u32>, k: u8) -> nat {
    if m.contains_key(k) {
        m[k] as nat
    } else {
        0
    }
}

/// Sum of the counters of the eight enemy kinds.
pub open spec fn kinds_sum(m: Map<u8, u32>) -> nat {
    map_count(m, 0) + map_count(m, 1) + map_count(m, 2) + map_count(m, 3) + map_count(m, 4)
        + map_count(m, 5) + map_count(m, 6) + map_count(m, 7)
}

/// Game-wide statistics. Tower entities are identified by their 64-bit
/// entity bits.
pub struct GameStats {
    // Summary
    pub waves_survived: usize,
    pub total_score: u32,
    pub total_gold_earned: u32,
    pub total_gold_spent: u32,
    pub total_enemies_killed: u32,
    pub total_enemies_escaped: u32,
    pub max_combo: u32,
    // Per-tower (keyed by sequential TowerId)
    pub next_tower_id: u32,
    pub entity_to_tower_id: HashMap<u64, u32>,
    pub tower_stats: HashMap<u32, TowerInstanceStats>,
    // Per-wave gold timeline
    pub wave_gold: Vec<WaveGoldRecord>,
    pub current_wave_gold: WaveGoldRecord,
    // Kill counts by enemy type
    pub kills_by_type: HashMap<u8, u32>,
    // Tower placement counts
    pub placements_by_type: HashMap<u8, u32>,
}

/// Statistics key of a tower kind (its declaration index).
pub open spec fn tower_key(t: TowerType) -> u8 {
    match t {
        TowerType::Basic => 0,
        TowerType::Splash => 1,
        TowerType::Slow => 2,
        TowerType::Sniper => 3,
        TowerType::Rapid => 4,
        TowerType::Chain => 5,
        TowerType::Poison => 6,
        TowerType::Buff => 7,
    }
}

/// Statistics key of a tower kind (its declaration index).
pub fn tower_type_key(t: TowerType) -> (k: u8)
    ensures
        k == tower_key(t),
{
    match t {
        TowerType::Basic => 0,
        TowerType::Splash => 1,
        TowerType::Slow => 2,
        TowerType::Sniper => 3,
        TowerType::Rapid => 4,
        TowerType::Chain => 5,
        TowerType::Poison => 6,
        TowerType::Buff => 7,
    }
}

fn bump(m: &mut HashMap<u8, u32>, k: u8)
    requires
        map_count(old(m)@, k) < u32::MAX,
    ensures
        final(m)@ == old(m)@.insert(k, (map_count(old(m)@, k) + 1) as u32),
{
    let current = match m.get(&k) {
        Some(v) => *v,
        None => 0,
    };
    m.insert(k, current + 1);
}

impl GameStats {
    /// The books balance: all gold spent is accounted for in the wave
    /// timeline, and every kill in the per-kind counters.
    pub open spec fn wf(&self) -> bool {
        &&& self.total_gold_spent == spent_sum(self.wave_gold@)
            + self.current_wave_gold.gold_spent
        &&& self.total_enemies_killed == kinds_sum(self.kills_by_type@)
    }

    /// Empty statistics for a new game.
    pub fn new() -> (s: Self)
        ensures
            s.wf(),
            s.waves_survived == 0,
            s.total_score == 0,
            s.total_gold_earned == 0,
            s.total_gold_spent == 0,
            s.total_enemies_killed == 0,
            s.total_enemies_escaped == 0,
            s.max_combo == 0,
            s.next_tower_id == 0,
            s.entity_to_tower_id@ == Map::<u64, u32>::empty(),
            s.tower_stats@ == Map::<u32, TowerInstanceStats>::empty(),
            s.wave_gold@.len() == 0,
            s.current_wave_gold == (WaveGoldRecord {
                gold_from_kills: 0,
                gold_from_bonus: 0,
                gold_from_interest: 0,
                gold_from_early_send: 0,
                gold_spent: 0,
            }),
            s.kills_by_type@ == Map::<u8, u32>::empty(),
            s.placements_by_type@ == Map::<u8, u32>::empty(),
    {
        let s = GameStats {
            waves_survived: 0,
            total_score: 0,
            total_gold_earned: 0,
            total_gold_spent: 0,
            total_enemies_killed: 0,
            total_enemies_escaped: 0,
            max_combo: 0,
            next_tower_id: 0,
            entity_to_tower_id: HashMap::new(),
            tower_stats: HashMap::new(),
            wave_gold: Vec::new(),
            current_wave_gold: WaveGoldRecord::empty(),
            kills_by_type: HashMap::new(),
            placements_by_type: HashMap::new(),
        };
        proof {
            assert(s.kills_by_type@ =~= Map::<u8, u32>::empty());
        }
        s
    }

    /// A tower was placed: it gets the next id, a fresh record, and its
    /// price counts as spent.
    pub fn register_tower(&mut self, entity: u64, tower_type: TowerType, cost: u32)
        requires
            old(self).next_tower_id < u32::MAX,
            old(self).total_gold_spent + cost <= u32::MAX,
            old(self).current_wave_gold.gold_spent + cost <= u32::MAX,
            map_count(old(self).placements_by_type@, tower_key(tower_type)) < u32::MAX,
        ensures
            final(self).next_tower_id == old(self).next_tower_id + 1,
            final(self).entity_to_tower_id@ == old(self).entity_to_tower_id@.insert(
                entity,
                old(self).next_tower_id,
            ),
            final(self).tower_stats@ == old(self).tower_stats@.insert(
                old(self).next_tower_id,
                TowerInstanceStats {
                    tower_type,
                    max_level: 1,
                    total_kills: 0,
                    gold_invested: cost,
                    gold_recovered: 0,
                    was_sold: false,
                },
            ),
            final(self).total_gold_spent == old(self).total_gold_spent + cost,
            final(self).current_wave_gold == (WaveGoldRecord {
                gold_spent: (old(self).current_wave_gold.gold_spent + cost) as u32,
                ..old(self).current_wave_gold
            }),
            final(self).placements_by_type@ == old(self).placements_by_type@.insert(
                tower_key(tower_type),
                (map_count(old(self).placements_by_type@, tower_key(tower_type)) + 1) as u32,
            ),
            final(self).wave_gold@ == old(self).wave_gold@,
            final(self).kills_by_type@ == old(self).kills_by_type@,
            final(self).total_gold_earned == old(self).total_gold_earned,
            final(self).total_enemies_killed == old(self).total_enemies_killed,
            final(self).waves_survived == old(self).waves_survived,
            final(self).total_score == old(self).total_score,
            final(self).total_enemies_escaped == old(self).total_enemies_escaped,
            final(self).max_combo == old(self).max_combo,
            old(self).wf() ==> final(self).wf(),
    {
        let id = self.next_tower_id;
        self.next_tower_id = self.next_tower_id + 1;
        self.entity_to_tower_id.insert(entity, id);
        self.tower_stats.insert(
            id,
            TowerInstanceStats {
                tower_type,
                max_level: 1,
                total_kills: 0,
                gold_invested: cost,
                gold_recovered: 0,
                was_sold: false,
            },
        );
        self.total_gold_spent = self.total_gold_spent + cost;
        self.current_wave_gold.gold_spent = self.current_wave_gold.gold_spent + cost;
        bump(&mut self.placements_by_type, tower_type_key(tower_type));
    }

    /// The record of the tower whose entity is `entity`, if it has one.
    pub open spec fn record_of(&self, entity: u64) -> Option<(u32, TowerInstanceStats)> {
        if self.entity_to_tower_id@.contains_key(entity) && self.tower_stats@.contains_key(
            self.entity_to_tower_id@[entity],
        ) {
            let id = self.entity_to_tower_id@[entity];
            Some((id, self.tower_stats@[id]))
        } else {
            None
        }
    }

    fn lookup(&self, entity: u64) -> (r: Option<(u32, TowerInstanceStats)>)
        ensures
            r == self.record_of(entity),
    {
        match self.entity_to_tower_id.get(&entity) {
            Some(id) => {
                let id = *id;
                match self.tower_stats.get(&id) {
                    Some(ts) => Some((id, *ts)),
                    None => None,
                }
            },
            None => None,
        }
    }

    /// An upgrade was bought: its price counts as spent, on the totals and
    /// on the tower's record (whose best level is raised to `new_level`).
    pub fn record_upgrade(&mut self, entity: u64, cost: u32, new_level: u32)
        requires
            old(self).total_gold_spent + cost <= u32::MAX,
            old(self).current_wave_gold.gold_spent + cost <= u32::MAX,
            old(self).record_of(entity) matches Some((_, ts)) ==> ts.gold_invested + cost
                <= u32::MAX,
        ensures
            final(self).total_gold_spent == old(self).total_gold_spent + cost,
            final(self).current_wave_gold == (WaveGoldRecord {
                gold_spent: (old(self).current_wave_gold.gold_spent + cost) as u32,
                ..old(self).current_wave_gold
            }),
            final(self).tower_stats@ == (match old(self).record_of(entity) {
                Some((id, ts)) => old(self).tower_stats@.insert(
                    id,
                    TowerInstanceStats {
                        gold_invested: (ts.gold_invested + cost) as u32,
                        max_level: if ts.max_level >= new_level {
                            ts.max_level
                        } else {
                            new_level
                        },
                        ..ts
                    },
                ),
                None => old(self).tower_stats@,
            }),
            final(self).entity_to_tower_id@ == old(self).entity_to_tower_id@,
            final(self).wave_gold@ == old(self).wave_gold@,
            final(self).kills_by_type@ == old(self).kills_by_type@,
            final(self).total_enemies_killed == old(self).total_enemies_killed,
            final(self).total_gold_earned == old(self).total_gold_earned,
            final(self).waves_survived == old(self).waves_survived,
            final(self).total_score == old(self).total_score,
            final(self).total_enemies_escaped == old(self).total_enemies_escaped,
            final(self).max_combo == old(self).max_combo,
            final(self).next_tower_id == old(self).next_tower_id,
            final(self).placements_by_type@ == old(self).placements_by_type@,
            old(self).wf() ==> final(self).wf(),
    {
        self.total_gold_spent = self.total_gold_spent + cost;
        self.current_wave_gold.gold_spent = self.current_wave_gold.gold_spent + cost;
        match self.lookup(entity) {
            Some((id, ts)) => {
                let mut updated = ts;
                updated.gold_invested = ts.gold_invested + cost;
                updated.max_level = if ts.max_level >= new_level {
                    ts.max_level
                } else {
                    new_level
                };
                self.tower_stats.insert(id, updated);
            },
            None => {},
        }
    }

    /// A tower was sold: the refund counts as earned and is recorded on the
    /// tower, which is marked sold.
    pub fn record_sell(&mut self, entity: u64, sell_value: u32)
        requires
            old(self).total_gold_earned + sell_value <= u32::MAX,
        ensures
            final(self).total_gold_earned == old(self).total_gold_earned + sell_value,
            final(self).tower_stats@ == (match old(self).record_of(entity) {
                Some((id, ts)) => old(self).tower_stats@.insert(
                    id,
                    TowerInstanceStats { gold_recovered: sell_value, was_sold: true, ..ts },
                ),
                None => old(self).tower_stats@,
            }),
            final(self).entity_to_tower_id@ == old(self).entity_to_tower_id@,
            final(self).total_gold_spent == old(self).total_gold_spent,
            final(self).current_wave_gold == old(self).current_wave_gold,
            final(self).wave_gold@ == old(self).wave_gold@,
            final(self).kills_by_type@ == old(self).kills_by_type@,
            final(self).total_enemies_killed == old(self).total_enemies_killed,
            final(self).waves_survived == old(self).waves_survived,
            final(self).total_score == old(self).total_score,
            final(self).total_enemies_escaped == old(self).total_enemies_escaped,
            final(self).max_combo == old(self).max_combo,
            final(self).next_tower_id == old(self).next_tower_id,
            final(self).placements_by_type@ == old(self).placements_by_type@,
            old(self).wf() ==> final(self).wf(),
    {
        self.total_gold_earned = self.total_gold_earned + sell_value;
        match self.lookup(entity) {
            Some((id, ts)) => {
                let mut updated = ts;
                updated.gold_recovered = sell_value;
                updated.was_sold = true;
                self.tower_stats.insert(id, updated);
            },
            None => {},
        }
    }

    /// An enemy was killed for `reward` gold.
    pub fn record_kill(&mut self, enemy_type: EnemyType, reward: u32)
        requires
            old(self).total_enemies_killed < u32::MAX,
            old(self).total_gold_earned + reward <= u32::MAX,
            old(self).current_wave_gold.gold_from_kills + reward <= u32::MAX,
            map_count(old(self).kills_by_type@, enemy_type.spec_key()) < u32::MAX,
        ensures
            final(self).total_enemies_killed == old(self).total_enemies_killed + 1,
            final(self).total_gold_earned == old(self).total_gold_earned + reward,
            final(self).current_wave_gold == (WaveGoldRecord {
                gold_from_kills: (old(self).current_wave_gold.gold_from_kills + reward) as u32,
                ..old(self).current_wave_gold
            }),
            final(self).kills_by_type@ == old(self).kills_by_type@.insert(
                enemy_type.spec_key(),
                (map_count(old(self).kills_by_type@, enemy_type.spec_key()) + 1) as u32,
            ),
            final(self).total_gold_spent == old(self).total_gold_spent,
            final(self).wave_gold@ == old(self).wave_gold@,
            final(self).tower_stats@ == old(self).tower_stats@,
            final(self).entity_to_tower_id@ == old(self).entity_to_tower_id@,
            final(self).max_combo == old(self).max_combo,
            final(self).waves_survived == old(self).waves_survived,
            final(self).total_score == old(self).total_score,
            final(self).total_enemies_escaped == old(self).total_enemies_escaped,
            final(self).next_tower_id == old(self).next_tower_id,
            final(self).placements_by_type@ == old(self).placements_by_type@,
            old(self).wf() ==> final(self).wf(),
    {
        self.total_enemies_killed = self.total_enemies_killed + 1;
        self.total_gold_earned = self.total_gold_earned + reward;
        self.current_wave_gold.gold_from_kills = self.current_wave_gold.gold_from_kills + reward;
        bump(&mut self.kills_by_type, enemy_type.key());
    }

    /// A tower landed a kill.
    pub fn record_kill_tower(&mut self, source_entity: u64)
        requires
            old(self).record_of(source_entity) matches Some((_, ts)) ==> ts.total_kills
                < u32::MAX,
        ensures
            final(self).tower_stats@ == (match old(self).record_of(source_entity) {
                Some((id, ts)) => old(self).tower_stats@.insert(
                    id,
                    TowerInstanceStats { total_kills: (ts.total_kills + 1) as u32, ..ts },
                ),
                None => old(self).tower_stats@,
            }),
            final(self).entity_to_tower_id@ == old(self).entity_to_tower_id@,
            final(self).total_enemies_killed == old(self).total_enemies_killed,
            final(self).total_gold_spent == old(self).total_gold_spent,
            final(self).total_gold_earned == old(self).total_gold_earned,
            final(self).current_wave_gold == old(self).current_wave_gold,
            final(self).wave_gold@ == old(self).wave_gold@,
            final(self).kills_by_type@ == old(self).kills_by_type@,
            final(self).max_combo == old(self).max_combo,
            final(self).waves_survived == old(self).waves_survived,
            final(self).total_score == old(self).total_score,
            final(self).total_enemies_escaped == old(self).total_enemies_escaped,
            final(self).next_tower_id == old(self).next_tower_id,
            final(self).placements_by_type@ == old(self).placements_by_type@,
            old(self).wf() ==> final(self).wf(),
    {
        match self.lookup(source_entity) {
            Some((id, ts)) => {
                let mut updated = ts;
                updated.total_kills = ts.total_kills + 1;
                self.tower_stats.insert(id, updated);
            },
            None => {},
        }
    }

    /// An enemy escaped.
    pub fn record_escape(&mut self)
        requires
            old(self).total_enemies_escaped < u32::MAX,
        ensures
            final(self).total_enemies_escaped == old(self).total_enemies_escaped + 1,
            final(self).total_enemies_killed == old(self).total_enemies_killed,
            final(self).total_gold_spent == old(self).total_gold_spent,
            final(self).total_gold_earned == old(self).total_gold_earned,
            final(self).current_wave_gold == old(self).current_wave_gold,
            final(self).wave_gold@ == old(self).wave_gold@,
            final(self).kills_by_type@ == old(self).kills_by_type@,
            final(self).waves_survived == old(self).waves_survived,
            final(self).total_score == old(self).total_score,
            final(self).max_combo == old(self).max_combo,
            final(self).next_tower_id == old(self).next_tower_id,
            final(self).entity_to_tower_id@ == old(self).entity_to_tower_id@,
            final(self).tower_stats@ == old(self).tower_stats@,
            final(self).placements_by_type@ == old(self).placements_by_type@,
            old(self).wf() ==> final(self).wf(),
    {
        self.total_enemies_escaped = self.total_enemies_escaped + 1;
    }

    /// A wave was completed: bonus and interest count as earned, the wave's
    /// record is closed and appended to the timeline, and a fresh one begins.
    pub fn record_wave_complete(&mut self, bonus: u32, interest: u32)
        requires
            old(self).waves_survived < usize::MAX,
            old(self).total_gold_earned + bonus + interest <= u32::MAX,
            old(self).current_wave_gold.gold_from_bonus + bonus <= u32::MAX,
            old(self).current_wave_gold.gold_from_interest + interest <= u32::MAX,
        ensures
            final(self).waves_survived == old(self).waves_survived + 1,
            final(self).total_gold_earned == old(self).total_gold_earned + bonus + interest,
            final(self).wave_gold@ == old(self).wave_gold@.push(
                WaveGoldRecord {
                    gold_from_bonus: (old(self).current_wave_gold.gold_from_bonus + bonus) as u32,
                    gold_from_interest: (old(self).current_wave_gold.gold_from_interest
                        + interest) as u32,
                    ..old(self).current_wave_gold
                },
            ),
            final(self).current_wave_gold == (WaveGoldRecord {
                gold_from_kills: 0,
                gold_from_bonus: 0,
                gold_from_interest: 0,
                gold_from_early_send: 0,
                gold_spent: 0,
            }),
            final(self).total_gold_spent == old(self).total_gold_spent,
            final(self).total_enemies_killed == old(self).total_enemies_killed,
            final(self).kills_by_type@ == old(self).kills_by_type@,
            final(self).total_score == old(self).total_score,
            final(self).total_enemies_escaped == old(self).total_enemies_escaped,
            final(self).max_combo == old(self).max_combo,
            final(self).next_tower_id == old(self).next_tower_id,
            final(self).entity_to_tower_id@ == old(self).entity_to_tower_id@,
            final(self).tower_stats@ == old(self).tower_stats@,
            final(self).placements_by_type@ == old(self).placements_by_type@,
            old(self).wf() ==> final(self).wf(),
    {
        self.waves_survived = self.waves_survived + 1;
        self.total_gold_earned = self.total_gold_earned + bonus + interest;
        self.current_wave_gold.gold_from_bonus = self.current_wave_gold.gold_from_bonus + bonus;
        self.current_wave_gold.gold_from_interest = self.current_wave_gold.gold_from_interest
            + interest;

        // Finalize this wave and start a new record
        let ghost before = self.wave_gold@;
        self.wave_gold.push(self.current_wave_gold);
        proof {
            assert(self.wave_gold@.drop_last() =~= before);
        }
        self.current_wave_gold = WaveGoldRecord::empty();
    }

    /// An early-send bonus was paid.
    pub fn record_early_send(&mut self, amount: u32)
        requires
            old(self).total_gold_earned + amount <= u32::MAX,
            old(self).current_wave_gold.gold_from_early_send + amount <= u32::MAX,
        ensures
            final(self).total_gold_earned == old(self).total_gold_earned + amount,
            final(self).current_wave_gold == (WaveGoldRecord {
                gold_from_early_send: (old(self).current_wave_gold.gold_from_early_send
                    + amount) as u32,
                ..old(self).current_wave_gold
            }),
            final(self).total_gold_spent == old(self).total_gold_spent,
            final(self).wave_gold@ == old(self).wave_gold@,
            final(self).total_enemies_killed == old(self).total_enemies_killed,
            final(self).kills_by_type@ == old(self).kills_by_type@,
            final(self).waves_survived == old(self).waves_survived,
            final(self).total_score == old(self).total_score,
            final(self).total_enemies_escaped == old(self).total_enemies_escaped,
            final(self).max_combo == old(self).max_combo,
            final(self).next_tower_id == old(self).next_tower_id,
            final(self).entity_to_tower_id@ == old(self).entity_to_tower_id@,
            final(self).tower_stats@ == old(self).tower_stats@,
            final(self).placements_by_type@ == old(self).placements_by_type@,
            old(self).wf() ==> final(self).wf(),
    {
        self.total_gold_earned = self.total_gold_earned + amount;
        self.current_wave_gold.gold_from_early_send = self.current_wave_gold.gold_from_early_send
            + amount;
    }

    /// Remember the best combo.
    pub fn update_max_combo(&mut self, combo: u32)
        ensures
            final(self).max_combo == (if old(self).max_combo >= combo {
                old(self).max_combo
            } else {
                combo
            }),
            final(self).total_gold_spent == old(self).total_gold_spent,
            final(self).wave_gold@ == old(self).wave_gold@,
            final(self).current_wave_gold == old(self).current_wave_gold,
            final(self).total_enemies_killed == old(self).total_enemies_killed,
            final(self).kills_by_type@ == old(self).kills_by_type@,
            final(self).total_gold_earned == old(self).total_gold_earned,
            final(self).tower_stats@ == old(self).tower_stats@,
            final(self).entity_to_tower_id@ == old(self).entity_to_tower_id@,
            final(self).waves_survived == old(self).waves_survived,
            final(self).total_score == old(self).total_score,
            final(self).total_enemies_escaped == old(self).total_enemies_escaped,
            final(self).next_tower_id == old(self).next_tower_id,
            final(self).placements_by_type@ == old(self).placements_by_type@,
            old(self).wf() ==> final(self).wf(),
    {
        if combo > self.max_combo {
            self.max_combo = combo;
        }
    }

    /// Record the final score and wave count.
    pub fn finalize(&mut self, score: u32, waves: usize)
        ensures
            final(self).total_score == score,
            final(self).waves_survived == waves,
            final(self).total_gold_spent == old(self).total_gold_spent,
            final(self).wave_gold@ == old(self).wave_gold@,
            final(self).current_wave_gold == old(self).current_wave_gold,
            final(self).total_enemies_killed == old(self).total_enemies_killed,
            final(self).kills_by_type@ == old(self).kills_by_type@,
            final(self).total_gold_earned == old(self).total_gold_earned,
            final(self).total_enemies_escaped == old(self).total_enemies_escaped,
            final(self).max_combo == old(self).max_combo,
            final(self).next_tower_id == old(self).next_tower_id,
            final(self).entity_to_tower_id@ == old(self).entity_to_tower_id@,
            final(self).tower_stats@ == old(self).tower_stats@,
            final(self).placements_by_type@ == old(self).placements_by_type@,
            old(self).wf() ==> final(self).wf(),
    {
        self.total_score = score;
        self.waves_survived = waves;
    }

    /// The enemy kind stored under a statistics key.
    pub fn enemy_type_from_key(key: u8) -> (t: Option<EnemyType>)
        ensures
            t == EnemyType::spec_from_key(key),
    {
        match key {
            0 => Some(EnemyType::Basic),
            1 => Some(EnemyType::Fast),
            2 => Some(EnemyType::Tank),
            3 => Some(EnemyType::Armored),
            4 => Some(EnemyType::Flying),
            5 => Some(EnemyType::Boss),
            6 => Some(EnemyType::Splitter),
            7 => Some(EnemyType::MiniSplitter),
            _ => None,
        }
    }
}

// ── Game-over summary ──

/// Sum of the counts of a kill breakdown.
pub open spec fn counts_sum(s: Seq<(EnemyType, u32)>) -> nat
    decreases s.len(),
{
    if s.len() == 0 {
        0
    } else {
        counts_sum(s.drop_last()) + s.last().1 as nat
    }
}

/// A kill breakdown of `m`: one entry per enemy kind that has a counter,
/// with that counter, most kills first. Kinds with equal counts may come in
/// any order.
pub open spec fn breakdown_of(out: Seq<(EnemyType, u32)>, m: Map<u8, u32>) -> bool {
    &&& forall|i: int, j: int| 0 <= i < j < out.len() ==> (#[trigger] out[i]).1 >= (#[trigger] out[j]).1
    &&& forall|i: int, j: int| 0 <= i < j < out.len() ==> (#[trigger] out[i]).0 != (#[trigger] out[j]).0
    &&& forall|i: int|
        0 <= i < out.len() ==> m.contains_key((#[trigger] out[i]).0.spec_key()) && out[i].1
            == m[out[i].0.spec_key()]
    &&& forall|t: EnemyType|
        m.contains_key(#[trigger] t.spec_key()) ==> exists|i: int| 0 <= i < out.len() && out[i].0 == t
}

proof fn lemma_counts_sum_update(s: Seq<(EnemyType, u32)>, i: int, x: (EnemyType, u32))
    requires
        0 <= i < s.len(),
    ensures
        counts_sum(s.update(i, x)) == counts_sum(s) - s[i].1 + x.1,
    decreases s.len(),
{
    let u = s.update(i, x);
    if i == s.len() - 1 {
        assert(u.drop_last() =~= s.drop_last());
    } else {
        lemma_counts_sum_update(s.drop_last(), i, x);
        assert(u.drop_last() =~= s.drop_last().update(i, x));
    }
}

pub open spec fn max_earned(s: Seq<WaveGoldRecord>) -> nat
    decreases s.len(),
{
    if s.len() == 0 {
        0
    } else {
        let m = max_earned(s.drop_last());
        if s.last().spec_earned() > m {
            s.last().spec_earned()
        } else {
            m
        }
    }
}

impl GameStats {
    /// Kills per enemy kind for the game-over screen, most kills first.
    pub fn kill_breakdown(&self) -> (out: Vec<(EnemyType, u32)>)
        ensures
            breakdown_of(out@, self.kills_by_type@),
            counts_sum(out@) == kinds_sum(self.kills_by_type@),
            self.wf() ==> counts_sum(out@) == self.total_enemies_killed,
    {
        let ghost m = self.kills_by_type@;
        let mut v: Vec<(EnemyType, u32)> = Vec::new();
        let mut key: u8 = 0;
        while key < 8
            invariant
                key <= 8,
                m == self.kills_by_type@,
                forall|i: int, j: int|
                    0 <= i < j < v@.len() ==> (#[trigger] v@[i]).0.spec_key() < (#[trigger] v@[j]).0.spec_key(),
                forall|i: int|
                    0 <= i < v@.len() ==> m.contains_key((#[trigger] v@[i]).0.spec_key()) && v@[i].1
                        == m[v@[i].0.spec_key()] && v@[i].0.spec_key() < key,
                forall|t: EnemyType|
                    m.contains_key(#[trigger] t.spec_key()) && t.spec_key() < key ==> exists|i: int|
                        0 <= i < v@.len() && v@[i].0 == t,
                counts_sum(v@) == partial_kinds_sum(m, key as nat),
            decreases 8 - key,
        {
            let t = match GameStats::enemy_type_from_key(key) {
                Some(t) => t,
                None => EnemyType::Basic,
            };
            assert(t.spec_key() == key);
            let ghost before = v@;
            match self.kills_by_type.get(&key) {
                Some(c) => {
                    v.push((t, *c));
                    proof {
                        assert(v@.drop_last() =~= before);
                        assert forall|u: EnemyType|
                            m.contains_key(#[trigger] u.spec_key()) && u.spec_key() < key + 1 implies exists|i: int|
                            0 <= i < v@.len() && v@[i].0 == u by {
                            if u.spec_key() == key {
                                lemma_key_injective(u, t);
                                assert(v@[v@.len() - 1].0 == u);
                            } else {
                                let i = choose|i: int| 0 <= i < before.len() && before[i].0 == u;
                                assert(v@[i] == before[i]);
                            }
                        }
                    }
                },
                None => {
                    proof {
                        assert forall|u: EnemyType|
                            m.contains_key(#[trigger] u.spec_key()) && u.spec_key() < key + 1 implies exists|i: int|
                            0 <= i < v@.len() && v@[i].0 == u by {
                            if u.spec_key() == key {
                                assert(false);
                            }
                        }
                    }
                },
            }
            key = key + 1;
        }
        proof {
            reveal_with_fuel(partial_kinds_sum, 9);
            assert(partial_kinds_sum(m, 8) == kinds_sum(m));
            assert forall|i: int, j: int| 0 <= i < j < v@.len() implies (#[trigger] v@[i]).0 != (#[trigger] v@[j]).0 by {
                assert(v@[i].0.spec_key() < v@[j].0.spec_key());
            }
        }
        // Selection sort, most kills first.
        let n = v.len();
        let mut i: usize = 0;
        while i < n
            invariant
                n == v@.len(),
                i <= n,
                m == self.kills_by_type@,
                forall|a: int, b: int| 0 <= a < b < v@.len() ==> (#[trigger] v@[a]).0 != (#[trigger] v@[b]).0,
                forall|a: int|
                    0 <= a < v@.len() ==> m.contains_key((#[trigger] v@[a]).0.spec_key()) && v@[a].1
                        == m[v@[a].0.spec_key()],
                forall|u: EnemyType|
                    m.contains_key(#[trigger] u.spec_key()) ==> exists|a: int| 0 <= a < v@.len() && v@[a].0 == u,
                counts_sum(v@) == kinds_sum(m),
                forall|a: int, b: int| 0 <= a < b < i ==> (#[trigger] v@[a]).1 >= (#[trigger] v@[b]).1,
                forall|a: int, b: int| 0 <= a < i <= b < n ==> (#[trigger] v@[a]).1 >= (#[trigger] v@[b]).1,
            decreases n - i,
        {
            let mut best = i;
            let mut j = i + 1;
            while j < n
                invariant
                    n == v@.len(),
                    i <= best < n,
                    i < j <= n,
                    forall|b: int| i <= b < j ==> v@[best as int].1 >= (#[trigger] v@[b]).1,
                decreases n - j,
            {
                if v[j].1 > v[best].1 {
                    best = j;
                }
                j = j + 1;
            }
            let x = v[i];
            let y = v[best];
            let ghost before = v@;
            v.set(i, y);
            v.set(best, x);
            proof {
                lemma_counts_sum_update(before, i as int, y);
                lemma_counts_sum_update(before.update(i as int, y), best as int, x);
                assert forall|u: EnemyType| m.contains_key(#[trigger] u.spec_key()) implies exists|a: int|
                    0 <= a < v@.len() && v@[a].0 == u by {
                    let a = choose|a: int| 0 <= a < before.len() && before[a].0 == u;
                    if a == i {
                        assert(v@[best as int].0 == u);
                    } else if a == best {
                        assert(v@[i as int].0 == u);
                    } else {
                        assert(v@[a].0 == u);
                    }
                }
                assert forall|a: int, b: int| 0 <= a < b < v@.len() implies (#[trigger] v@[a]).0 != (#[trigger] v@[b]).0 by {
                    let pa = if a == i { best as int } else if a == best { i as int } else { a };
                    let pb = if b == i { best as int } else if b == best { i as int } else { b };
                    assert(v@[a] == before[pa]);
                    assert(v@[b] == before[pb]);
                }
                assert forall|a: int| 0 <= a < v@.len() implies m.contains_key((#[trigger] v@[a]).0.spec_key()) && v@[a].1
                    == m[v@[a].0.spec_key()] by {
                    let pa = if a == i { best as int } else if a == best { i as int } else { a };
                    assert(v@[a] == before[pa]);
                }
                assert forall|a: int, b: int| 0 <= a < i + 1 <= b < n implies (#[trigger] v@[a]).1 >= (#[trigger] v@[b]).1 by {
                    let pa = if a == i { best as int } else if a == best { i as int } else { a };
                    let pb = if b == i { best as int } else if b == best { i as int } else { b };
                    assert(v@[a] == before[pa]);
                    assert(v@[b] == before[pb]);
                }
                assert forall|a: int, b: int| 0 <= a < b < i + 1 implies (#[trigger] v@[a]).1 >= (#[trigger] v@[b]).1 by {
                    let pa = if a == i { best as int } else if a == best { i as int } else { a };
                    let pb = if b == i { best as int } else if b == best { i as int } else { b };
                    assert(v@[a] == before[pa]);
                    assert(v@[b] == before[pb]);
                }
            }
            i = i + 1;
        }
        v
    }

    /// The tallest bar of the gold timeline: the most gold earned in one
    /// wave, at least 1.
    pub fn peak_wave_gold(&self) -> (peak: u32)
        requires
            forall|i: int| 0 <= i < self.wave_gold@.len() ==> (#[trigger] self.wave_gold@[i]).spec_earned() <= u32::MAX,
        ensures
            peak == (if max_earned(self.wave_gold@) > 1 {
                max_earned(self.wave_gold@)
            } else {
                1
            }),
    {
        let mut best: u32 = 0;
        let mut i: usize = 0;
        assert(self.wave_gold@.subrange(0, 0) =~= Seq::<WaveGoldRecord>::empty());
        while i < self.wave_gold.len()
            invariant
                i <= self.wave_gold@.len(),
                forall|k: int| 0 <= k < self.wave_gold@.len() ==> (#[trigger] self.wave_gold@[k]).spec_earned() <= u32::MAX,
                best == max_earned(self.wave_gold@.subrange(0, i as int)),
            decreases self.wave_gold@.len() - i,
        {
            let r = self.wave_gold[i];
            assert(self.wave_gold@[i as int].spec_earned() <= u32::MAX);
            let earned = r.gold_from_kills + r.gold_from_bonus + r.gold_from_interest + r.gold_from_early_send;
            assert(self.wave_gold@.subrange(0, i + 1).drop_last() =~= self.wave_gold@.subrange(0, i as int));
            if earned > best {
                best = earned;
            }
            i = i + 1;
        }
        assert(self.wave_gold@.subrange(0, i as int) =~= self.wave_gold@);
        if best > 1 {
            best
        } else {
            1
        }
    }
}

/// Counters of the kinds with keys below `k`.
pub open spec fn partial_kinds_sum(m: Map<u8, u32>, k: nat) -> nat
    decreases k,
{
    if k == 0 {
        0
    } else {
        partial_kinds_sum(m, (k - 1) as nat) + map_count(m, (k - 1) as u8)
    }
}

proof fn lemma_key_injective(a: EnemyType, b: EnemyType)
    requires
        a.spec_key() == b.spec_key(),
    ensures
        a == b,
{
}

/// How an enemy kind is named on the game-over screen.
pub open spec fn spec_kind_name(t: EnemyType) -> Seq<char> {
    match t {
        EnemyType::Basic => "Basic"@,
        EnemyType::Fast => "Fast"@,
        EnemyType::Tank => "Tank"@,
        EnemyType::Armored => "Armored"@,
        EnemyType::Flying => "Flying"@,
        EnemyType::Boss => "Boss"@,
        EnemyType::Splitter => "Splitter"@,
        EnemyType::MiniSplitter => "Mini"@,
    }
}

fn kind_name(t: EnemyType) -> (s: &'static str)
    ensures
        s@ == spec_kind_name(t),
{
    match t {
        EnemyType::Basic => "Basic",
        EnemyType::Fast => "Fast",
        EnemyType::Tank => "Tank",
        EnemyType::Armored => "Armored",
        EnemyType::Flying => "Flying",
        EnemyType::Boss => "Boss",
        EnemyType::Splitter => "Splitter",
        EnemyType::MiniSplitter => "Mini",
    }
}

/// One line per entry of a kill breakdown: `"  <name> x<count>\n"`.
pub open spec fn breakdown_lines(b: Seq<(EnemyType, u32)>) -> Seq<char>
    decreases b.len(),
{
    if b.len() == 0 {
        Seq::empty()
    } else {
        breakdown_lines(b.drop_last()) + "  "@ + spec_kind_name(b.last().0) + " x"@ + decimal(
            b.last().1 as nat,
        ) + "\n"@
    }
}

impl GameStats {
    /// The summary lines of the game-over screen.
    pub open spec fn spec_summary_text(&self) -> Seq<char> {
        "Waves: "@ + decimal(self.waves_survived as nat) + "   Score: "@ + decimal(
            self.total_score as nat,
        ) + "\nKills: "@ + decimal(self.total_enemies_killed as nat) + "   Escaped: "@
            + decimal(self.total_enemies_escaped as nat) + "   Max Combo: "@ + decimal(
            self.max_combo as nat,
        ) + "\nGold Earned: "@ + decimal(self.total_gold_earned as nat) + "   Gold Spent: "@
            + decimal(self.total_gold_spent as nat)
    }

    pub fn summary_text(&self) -> (t: String)
        ensures
            t@ == self.spec_summary_text(),
    {
        let mut t = String::from_str("Waves: ");
        push_decimal(&mut t, self.waves_survived as u64);
        t.append("   Score: ");
        push_decimal(&mut t, self.total_score as u64);
        t.append("\nKills: ");
        push_decimal(&mut t, self.total_enemies_killed as u64);
        t.append("   Escaped: ");
        push_decimal(&mut t, self.total_enemies_escaped as u64);
        t.append("   Max Combo: ");
        push_decimal(&mut t, self.max_combo as u64);
        t.append("\nGold Earned: ");
        push_decimal(&mut t, self.total_gold_earned as u64);
        t.append("   Gold Spent: ");
        push_decimal(&mut t, self.total_gold_spent as u64);
        t
    }

    /// The kill breakdown of the game-over screen, one line per kind, most
    /// kills first.
    pub fn kill_breakdown_text(&self) -> (t: String)
        ensures
            exists|b: Seq<(EnemyType, u32)>| breakdown_of(b, self.kills_by_type@) && t@ == breakdown_lines(b),
    {
        let b = self.kill_breakdown();
        let mut t = String::new();
        let mut i: usize = 0;
        assert(b@.take(0) =~= Seq::<(EnemyType, u32)>::empty());
        while i < b.len()
            invariant
                i <= b@.len(),
                t@ == breakdown_lines(b@.take(i as int)),
            decreases b@.len() - i,
        {
            let (kind, count) = b[i];
            t.append("  ");
            t.append(kind_name(kind));
            t.append(" x");
            push_decimal(&mut t, count as u64);
            t.append("\n");
            proof {
                let taken = b@.take(i + 1);
                assert(taken.drop_last() =~= b@.take(i as int));
                assert(taken.last() == (kind, count));
                assert(t@ =~= breakdown_lines(taken));
            }
            i = i + 1;
        }
        assert(b@.take(i as int) =~= b@);
        t
    }
}

} // verus!
