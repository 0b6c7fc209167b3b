//! Settling the two ends of an enemy's life: killed by a tower, or escaped
//! through the exit. Each updates the purse, the wave, the combo and the
//! statistics together.

use vstd::prelude::*;
use crate::economy::{sat_add, KillStreak, PlayerEconomy};
use crate::enemy::{EnemyType, WaveManager, WaveModifier};
use crate::rules::{kill_reward, spec_kill_reward, spec_gold_rush_hundredths, spec_streak_multiplier_tenths};
use crate::stats::{map_count, GameStats, TowerInstanceStats, WaveGoldRecord};

verus! {

/// Gold from kills is boosted by a gold-rush wave or by the gold-rush
/// ability.
pub open spec fn gold_rush_in_effect(modifier: WaveModifier, ability_active: bool) -> bool {
    modifier == WaveModifier::GoldRush || ability_active
}

/// With the gold-rush ability active, a kill pays at the gold-rush rate
/// whatever the wave's modifier: exactly what it pays on a gold-rush wave,
/// and at least twice what it pays on a normal wave without the ability
/// (up to the `u32` cap).
pub proof fn lemma_gold_rush_ability(modifier: WaveModifier, reward: nat, streak: nat, wave: nat)
    ensures
        spec_kill_reward(reward, streak, gold_rush_in_effect(modifier, true), wave)
            == spec_kill_reward(reward, streak, gold_rush_in_effect(WaveModifier::GoldRush, false), wave),
        spec_kill_reward(reward, streak, gold_rush_in_effect(modifier, true), wave) >= (if 2
            * spec_kill_reward(reward, streak, gold_rush_in_effect(WaveModifier::Normal, false), wave)
            > u32::MAX {
            u32::MAX as nat
        } else {
            2 * spec_kill_reward(reward, streak, gold_rush_in_effect(WaveModifier::Normal, false), wave)
        }),
{
    let a = reward * spec_streak_multiplier_tenths(streak);
    let rush = spec_gold_rush_hundredths(wave);
    assert(rush >= 200);
    assert((a * rush) / 1000 >= 2 * ((a * 100) / 1000)) by (nonlinear_arith)
        requires
            rush >= 200,
            a >= 0,
    {
        assert(a * rush >= a * 200);
        assert((a * rush) / 1000 >= (a * 200) / 1000);
    }
}

/// An enemy was killed, last hit by `last_hit` if a tower is known. The
/// combo grows by one; the reward, scaled by the grown combo and by a gold
/// rush, is paid as gold and score (saturating); the wave has one enemy
/// fewer alive; the statistics record the kill, the gold, the best combo
/// and the tower's kill. Returns the gold paid.
pub fn settle_kill(
    economy: &mut PlayerEconomy,
    waves: &mut WaveManager,
    streak: &mut KillStreak,
    stats: &mut GameStats,
    gold_rush_ability: bool,
    enemy_type: EnemyType,
    reward: u32,
    last_hit: Option<u64>,
) -> (paid: u32)
    requires
        old(streak).count < u32::MAX,
        old(stats).total_enemies_killed < u32::MAX,
        map_count(old(stats).kills_by_type@, enemy_type.spec_key()) < u32::MAX,
        old(stats).total_gold_earned + spec_kill_reward(
            reward as nat,
            (old(streak).count + 1) as nat,
            gold_rush_in_effect(old(waves).current_modifier, gold_rush_ability),
            old(waves).current_wave as nat,
        ) <= u32::MAX,
        old(stats).current_wave_gold.gold_from_kills + spec_kill_reward(
            reward as nat,
            (old(streak).count + 1) as nat,
            gold_rush_in_effect(old(waves).current_modifier, gold_rush_ability),
            old(waves).current_wave as nat,
        ) <= u32::MAX,
        last_hit matches Some(e) ==> (old(stats).record_of(e) matches Some((_, ts))
            ==> ts.total_kills < u32::MAX),
    ensures
        paid == spec_kill_reward(
            reward as nat,
            (old(streak).count + 1) as nat,
            gold_rush_in_effect(old(waves).current_modifier, gold_rush_ability),
            old(waves).current_wave as nat,
        ),
        final(streak).count == old(streak).count + 1,
        final(streak).active,
        final(economy).gold == sat_add(old(economy).gold as nat, paid as nat),
        final(economy).score == sat_add(old(economy).score as nat, paid as nat),
        final(economy).lives == old(economy).lives,
        final(waves).enemies_alive == (if old(waves).enemies_alive == 0 {
            0
        } else {
            old(waves).enemies_alive - 1
        }),
        final(waves).current_wave == old(waves).current_wave,
        final(waves).wave_active == old(waves).wave_active,
        final(waves).perfect_wave == old(waves).perfect_wave,
        final(waves).enemies_to_spawn@ == old(waves).enemies_to_spawn@,
        final(stats).total_enemies_killed == old(stats).total_enemies_killed + 1,
        final(stats).total_gold_earned == old(stats).total_gold_earned + paid,
        final(stats).kills_by_type@ == old(stats).kills_by_type@.insert(
            enemy_type.spec_key(),
            (map_count(old(stats).kills_by_type@, enemy_type.spec_key()) + 1) as u32,
        ),
        final(stats).current_wave_gold == (WaveGoldRecord {
            gold_from_kills: (old(stats).current_wave_gold.gold_from_kills + paid) as u32,
            ..old(stats).current_wave_gold
        }),
        final(stats).max_combo == (if old(stats).max_combo >= final(streak).count {
            old(stats).max_combo
        } else {
            final(streak).count
        }),
        final(stats).tower_stats@ == (match last_hit {
            Some(e) => match old(stats).record_of(e) {
                Some((id, ts)) => old(stats).tower_stats@.insert(
                    id,
                    TowerInstanceStats { total_kills: (ts.total_kills + 1) as u32, ..ts },
                ),
                None => old(stats).tower_stats@,
            },
            None => old(stats).tower_stats@,
        }),
        old(stats).wf() ==> final(stats).wf(),
{
    let gold_rush = waves.current_modifier == WaveModifier::GoldRush || gold_rush_ability;
    streak.register_kill();
    let paid = kill_reward(reward, streak.count, gold_rush, waves.current_wave);
    economy.earn_gold(paid);
    economy.add_score(paid);
    waves.enemy_killed();
    stats.record_kill(enemy_type, paid);
    stats.update_max_combo(streak.count);
    match last_hit {
        Some(e) => stats.record_kill_tower(e),
        None => {},
    }
    paid
}

/// An enemy reached the exit: a life is lost (never below zero), the wave
/// has one enemy fewer alive and is no longer perfect, and the escape is
/// counted. Returns true when no life is left, which ends the game.
pub fn settle_escape(economy: &mut PlayerEconomy, waves: &mut WaveManager, stats: &mut GameStats) -> (game_over: bool)
    requires
        old(stats).total_enemies_escaped < u32::MAX,
    ensures
        final(economy).lives == (if old(economy).lives == 0 {
            0
        } else {
            old(economy).lives - 1
        }),
        game_over == (final(economy).lives == 0),
        final(economy).gold == old(economy).gold,
        final(economy).score == old(economy).score,
        final(waves).enemies_alive == (if old(waves).enemies_alive == 0 {
            0
        } else {
            old(waves).enemies_alive - 1
        }),
        !final(waves).perfect_wave,
        final(waves).current_wave == old(waves).current_wave,
        final(waves).wave_active == old(waves).wave_active,
        final(waves).enemies_to_spawn@ == old(waves).enemies_to_spawn@,
        final(stats).total_enemies_escaped == old(stats).total_enemies_escaped + 1,
        final(stats).total_enemies_killed == old(stats).total_enemies_killed,
        old(stats).wf() ==> final(stats).wf(),
{
    let game_over = economy.lose_life();
    waves.enemy_escaped();
    stats.record_escape();
    game_over
}

} // verus!
