use neon_command::abilities::{AbilityInput, AbilityType, PlayerAbilities};
use neon_command::controls::{tower_for_digit, tower_shortcuts, ShortcutActions};
use neon_command::economy::{KillStreak, PlayerEconomy};
use neon_command::enemy::{EnemyType, WaveManager, WaveModifier};
use neon_command::events::{settle_escape, settle_kill};
use neon_command::stats::GameStats;
use neon_command::targeting::{best_target, target_score};
use neon_command::tower::{TargetingPriority, Tower, TowerType};

fn input() -> AbilityInput {
    AbilityInput {
        freeze_key: false,
        gold_rush_key: false,
        artillery_key: false,
        cancel_key: false,
        field_click: false,
    }
}

#[test]
fn freeze_fires_once_until_its_cooldown_ends() {
    let mut a = PlayerAbilities::new();
    let fired = a.handle_input(AbilityInput { freeze_key: true, ..input() });
    assert!(fired.freeze && !fired.gold_rush && !fired.artillery);
    assert!(!a.freeze_ready);
    assert!(a.cooling_down(AbilityType::Freeze));
    let fired = a.handle_input(AbilityInput { freeze_key: true, ..input() });
    assert!(!fired.freeze);
    a.cooldown_finished(AbilityType::Freeze);
    assert!(a.freeze_ready);
    assert!(a.handle_input(AbilityInput { freeze_key: true, ..input() }).freeze);
}

#[test]
fn gold_rush_runs_and_ends() {
    let mut a = PlayerAbilities::new();
    assert!(a.handle_input(AbilityInput { gold_rush_key: true, ..input() }).gold_rush);
    a.start_gold_rush();
    assert!(a.is_gold_rush_active());
    a.end_gold_rush();
    assert!(!a.is_gold_rush_active());
    assert!(!a.gold_rush_ready);
}

#[test]
fn artillery_needs_targeting_then_a_click() {
    let mut a = PlayerAbilities::new();
    // A click without targeting does nothing.
    assert!(!a.handle_input(AbilityInput { field_click: true, ..input() }).artillery);
    assert!(!a.handle_input(AbilityInput { artillery_key: true, ..input() }).artillery);
    assert!(a.artillery_targeting);
    // Cancel, then target again and fire.
    a.handle_input(AbilityInput { cancel_key: true, ..input() });
    assert!(!a.artillery_targeting);
    a.handle_input(AbilityInput { artillery_key: true, ..input() });
    let fired = a.handle_input(AbilityInput { field_click: true, ..input() });
    assert!(fired.artillery);
    assert!(!a.artillery_ready && !a.artillery_targeting);
    // Not ready: the key does not start targeting.
    a.handle_input(AbilityInput { artillery_key: true, ..input() });
    assert!(!a.artillery_targeting);
}

#[test]
fn ability_tooltips() {
    assert_eq!(AbilityType::Freeze.tooltip().0, "Freeze [Q]");
    assert!(AbilityType::Artillery.tooltip().1.contains("400 dmg"));
}

#[test]
fn number_keys_pick_towers() {
    assert_eq!(tower_for_digit(1), Some(TowerType::Basic));
    assert_eq!(tower_for_digit(4), Some(TowerType::Sniper));
    assert_eq!(tower_for_digit(8), Some(TowerType::Buff));
    assert_eq!(tower_for_digit(0), None);
    assert_eq!(tower_for_digit(9), None);
}

#[test]
fn shortcuts_on_a_selected_tower() {
    let t = Tower::new(TowerType::Basic, 3, 3);
    let none = ShortcutActions { deselect: false, upgrade: false, sell: false };
    assert_eq!(tower_shortcuts(true, true, true, Some(&t), 1000), ShortcutActions { deselect: true, upgrade: false, sell: false });
    assert_eq!(tower_shortcuts(false, true, false, Some(&t), 1000), ShortcutActions { deselect: false, upgrade: true, sell: false });
    assert_eq!(tower_shortcuts(false, true, false, Some(&t), 10), none);
    assert_eq!(tower_shortcuts(false, false, true, Some(&t), 0), ShortcutActions { deselect: true, upgrade: false, sell: true });
    assert_eq!(tower_shortcuts(true, true, true, None, 1000), none);
    // A pending specialization blocks the upgrade shortcut.
    let mut t2 = Tower::new(TowerType::Basic, 3, 3);
    t2.level = 2;
    assert!(!tower_shortcuts(false, true, false, Some(&t2), 1000).upgrade);
}

#[test]
fn a_kill_pays_with_combo_and_gold_rush() {
    let mut e = PlayerEconomy::new();
    let mut w = WaveManager::new();
    w.current_wave = 4;
    w.enemies_alive = 3;
    let mut k = KillStreak::new();
    let mut s = GameStats::new();
    s.register_tower(7, TowerType::Basic, 50);
    let paid = settle_kill(&mut e, &mut w, &mut k, &mut s, false, EnemyType::Fast, 8, Some(7));
    assert_eq!(paid, 8);
    let paid = settle_kill(&mut e, &mut w, &mut k, &mut s, false, EnemyType::Fast, 8, None);
    // Second kill of the combo: 1.1x.
    assert_eq!(paid, 8);
    w.current_modifier = WaveModifier::GoldRush;
    let paid = settle_kill(&mut e, &mut w, &mut k, &mut s, false, EnemyType::Tank, 20, Some(7));
    // Third kill (1.2x) in a gold-rush wave 4 (2.2x): 20 * 1.2 * 2.2 = 52.8.
    assert_eq!(paid, 52);
    assert_eq!(e.gold, 160 + 8 + 8 + 52);
    assert_eq!(e.score, 8 + 8 + 52);
    assert_eq!(w.enemies_alive, 0);
    assert_eq!(k.count, 3);
    assert_eq!(s.total_enemies_killed, 3);
    assert_eq!(s.max_combo, 3);
    let id = s.entity_to_tower_id[&7];
    assert_eq!(s.tower_stats[&id].total_kills, 2);
    let breakdown = s.kill_breakdown();
    assert_eq!(breakdown, vec![(EnemyType::Fast, 2), (EnemyType::Tank, 1)]);
}

#[test]
fn an_escape_costs_a_life() {
    let mut e = PlayerEconomy::new();
    e.lives = 1;
    let mut w = WaveManager::new();
    w.enemies_alive = 1;
    let mut s = GameStats::new();
    assert!(settle_escape(&mut e, &mut w, &mut s));
    assert_eq!(e.lives, 0);
    assert!(!w.perfect_wave);
    assert_eq!(s.total_enemies_escaped, 1);
}

#[test]
fn kill_breakdown_sums_to_the_total() {
    let mut s = GameStats::new();
    for _ in 0..3 {
        s.record_kill(EnemyType::Basic, 5);
    }
    for _ in 0..5 {
        s.record_kill(EnemyType::Boss, 120);
    }
    s.record_kill(EnemyType::MiniSplitter, 2);
    let b = s.kill_breakdown();
    assert_eq!(b, vec![(EnemyType::Boss, 5), (EnemyType::Basic, 3), (EnemyType::MiniSplitter, 1)]);
    let total: u32 = b.iter().map(|p| p.1).sum();
    assert_eq!(total, s.total_enemies_killed);
    assert!(GameStats::new().kill_breakdown().is_empty());
}

#[test]
fn gold_timeline_peak() {
    let mut s = GameStats::new();
    assert_eq!(s.peak_wave_gold(), 1);
    s.record_kill(EnemyType::Basic, 30);
    s.record_wave_complete(20, 10);
    s.record_kill(EnemyType::Basic, 5);
    s.record_wave_complete(1, 0);
    assert_eq!(s.peak_wave_gold(), 60);
}

#[test]
fn game_over_summary_text() {
    let mut s = GameStats::new();
    s.record_kill(EnemyType::Tank, 20);
    s.record_kill(EnemyType::Basic, 5);
    s.record_kill(EnemyType::Basic, 5);
    s.record_escape();
    s.update_max_combo(3);
    s.register_tower(1, TowerType::Basic, 50);
    s.finalize(1234, 9);
    assert_eq!(
        s.summary_text(),
        "Waves: 9   Score: 1234\nKills: 3   Escaped: 1   Max Combo: 3\nGold Earned: 30   Gold Spent: 50"
    );
    assert_eq!(s.kill_breakdown_text(), "  Basic x2\n  Tank x1\n");
    assert_eq!(GameStats::new().kill_breakdown_text(), "");
}

#[test]
fn targeting_picks_the_first_best() {
    assert_eq!(best_target(&[]), None);
    assert_eq!(best_target(&[(5, 3), (6, 9), (7, 9), (8, -1)]), Some(6));
    // First: furthest along the path.
    let a = target_score(TargetingPriority::First, 12, 0, 0, 0);
    let b = target_score(TargetingPriority::First, 30, 0, 0, 0);
    assert_eq!(best_target(&[(1, a), (2, b)]), Some(2));
    // Closest: the smallest distance key wins.
    let a = target_score(TargetingPriority::Closest, 0, 50, 0, 0);
    let b = target_score(TargetingPriority::Closest, 0, 20, 0, 0);
    assert_eq!(best_target(&[(1, a), (2, b)]), Some(2));
    // Lowest and highest health, fastest.
    assert_eq!(target_score(TargetingPriority::LowestHP, 0, 0, 7, 0), -7);
    assert_eq!(target_score(TargetingPriority::HighestHP, 0, 0, 7, 0), 7);
    assert_eq!(target_score(TargetingPriority::Fastest, 0, 0, 0, -3), -3);
}
