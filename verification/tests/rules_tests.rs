use neon_command::rules::{
    calculate_interest, detect_synergies, kill_reward, kill_streak_multiplier, sell_value,
    upgrade_cost, upgrade_cost_total,
};
use neon_command::tower::{SynergyType, TowerType};

// --- Tower economy ---

#[test]
fn test_upgrade_cost_level_1() {
    // At level 1, cost = base * 0.5 * 1.5^0 = base * 0.5
    assert_eq!(upgrade_cost(100, 1), 50);
    assert_eq!(upgrade_cost(50, 1), 25);
}

#[test]
fn test_upgrade_cost_scales_exponentially() {
    let base = 100;
    let cost_l1 = upgrade_cost(base, 1);
    let cost_l2 = upgrade_cost(base, 2);
    let cost_l3 = upgrade_cost(base, 3);
    assert!(cost_l2 > cost_l1, "Level 2 ({cost_l2}) should cost more than level 1 ({cost_l1})");
    assert!(cost_l3 > cost_l2, "Level 3 ({cost_l3}) should cost more than level 2 ({cost_l2})");
}

#[test]
fn test_upgrade_cost_total_level_1() {
    assert_eq!(upgrade_cost_total(100, 1), 0);
}

#[test]
fn test_upgrade_cost_total_accumulates() {
    let base = 100;
    let total_l3 = upgrade_cost_total(base, 3);
    assert_eq!(total_l3, upgrade_cost(base, 1) + upgrade_cost(base, 2));
}

#[test]
fn test_sell_value_returns_75_percent() {
    let base = 100;
    let level = 1;
    let expected = (100.0 * 0.75) as u32; // 75
    assert_eq!(sell_value(base, level), expected);
}

#[test]
fn test_sell_value_includes_upgrades() {
    let base = 100;
    let level = 3;
    let invested = base + upgrade_cost_total(base, level);
    let expected = (invested as f32 * 0.75) as u32;
    assert_eq!(sell_value(base, level), expected);
}

#[test]
fn test_upgrade_cost_very_high_level() {
    let cost = upgrade_cost(100, 20);
    assert!(cost > 0, "High level upgrade should still be positive");
}

#[test]
fn test_sell_value_never_exceeds_invested() {
    for level in 1..=15 {
        let invested = 100 + upgrade_cost_total(100, level);
        let sell = sell_value(100, level);
        assert!(
            sell <= invested,
            "Sell value ({sell}) should not exceed invested ({invested}) at level {level}"
        );
    }
}

#[test]
fn upgrade_cost_exact_values() {
    // 100 * 1.5^(level-1) * 0.5, rounded down.
    assert_eq!(upgrade_cost(100, 2), 75);
    assert_eq!(upgrade_cost(100, 3), 112);
    assert_eq!(upgrade_cost(100, 4), 168);
    assert_eq!(upgrade_cost(0, 5), 0);
    assert_eq!(upgrade_cost_total(100, 4), 50 + 75 + 112);
    assert_eq!(sell_value(100, 4), (100 + 50 + 75 + 112) * 3 / 4);
}

#[test]
fn upgrade_cost_saturates_at_the_top() {
    assert_eq!(upgrade_cost(u32::MAX, 60), u32::MAX);
}

// --- Economy ---

#[test]
fn test_interest_basic() {
    assert_eq!(calculate_interest(100, 10), 10);
}

#[test]
fn test_interest_capped_at_50() {
    assert_eq!(calculate_interest(1000, 10), 50);
}

#[test]
fn test_interest_zero_gold() {
    assert_eq!(calculate_interest(0, 10), 0);
}

#[test]
fn test_interest_near_cap_boundary() {
    assert_eq!(calculate_interest(500, 10), 50);
    assert_eq!(calculate_interest(499, 10), 49);
    assert_eq!(calculate_interest(501, 10), 50);
}

#[test]
fn test_interest_high_rate() {
    assert_eq!(calculate_interest(1000, 100), 50);
}

#[test]
fn test_kill_streak_no_kills() {
    assert_eq!(kill_streak_multiplier(0), 10);
}

#[test]
fn test_kill_streak_one_kill() {
    assert_eq!(kill_streak_multiplier(1), 10);
}

#[test]
fn test_kill_streak_scales() {
    assert_eq!(kill_streak_multiplier(2), 11);
    assert_eq!(kill_streak_multiplier(3), 12);
}

#[test]
fn test_kill_streak_caps_at_2x() {
    assert_eq!(kill_streak_multiplier(11), 20);
    assert_eq!(kill_streak_multiplier(20), 20);
}

#[test]
fn test_kill_streak_boundary() {
    assert_eq!(kill_streak_multiplier(11), 20);
    assert!(kill_streak_multiplier(10) < 20);
}

#[test]
fn kill_reward_exact_values() {
    // 10 gold, no combo, no rush.
    assert_eq!(kill_reward(10, 0, false, 1), 10);
    // 10 gold at a 5-kill combo (1.4x).
    assert_eq!(kill_reward(10, 5, false, 1), 14);
    // 10 gold during a gold rush on wave 4 (2.2x).
    assert_eq!(kill_reward(10, 0, true, 4), 22);
    // Rush multiplier caps at 3x.
    assert_eq!(kill_reward(10, 0, true, 50), 30);
    // Combo capped at 2x with a capped rush: 10 * 2 * 3.
    assert_eq!(kill_reward(10, 30, true, 30), 60);
}

// --- Synergy detection ---

#[test]
fn test_synergy_sniper_pair() {
    let result = detect_synergies(TowerType::Sniper, &[TowerType::Sniper]);
    assert_eq!(result.synergies, vec![SynergyType::SniperPair]);
    assert_eq!(result.range_bonus_percent, 15);
}

#[test]
fn test_synergy_slow_poison() {
    let result = detect_synergies(TowerType::Slow, &[TowerType::Poison]);
    assert_eq!(result.synergies, vec![SynergyType::SlowPoison]);
    assert_eq!(result.poison_duration_bonus_percent, 50);
}

#[test]
fn test_synergy_poison_slow() {
    let result = detect_synergies(TowerType::Poison, &[TowerType::Slow]);
    assert_eq!(result.synergies, vec![SynergyType::SlowPoison]);
}

#[test]
fn test_synergy_rapid_buff() {
    let result = detect_synergies(TowerType::Rapid, &[TowerType::Buff]);
    assert_eq!(result.synergies, vec![SynergyType::RapidBuff]);
    assert_eq!(result.speed_buff_multiplier, 2);
}

#[test]
fn test_synergy_chain_pair() {
    let result = detect_synergies(TowerType::Chain, &[TowerType::Chain]);
    assert_eq!(result.synergies, vec![SynergyType::ChainPair]);
    assert_eq!(result.extra_chain_bounces, 1);
}

#[test]
fn test_synergy_no_match() {
    let result = detect_synergies(TowerType::Basic, &[TowerType::Splash, TowerType::Slow]);
    assert!(result.synergies.is_empty());
    assert_eq!(result.range_bonus_percent, 0);
    assert_eq!(result.speed_buff_multiplier, 1);
}

#[test]
fn test_synergy_no_neighbors() {
    let result = detect_synergies(TowerType::Sniper, &[]);
    assert!(result.synergies.is_empty());
}

#[test]
fn test_synergy_multiple_matching_neighbors() {
    let result = detect_synergies(TowerType::Sniper, &[TowerType::Sniper, TowerType::Sniper]);
    assert_eq!(result.synergies.len(), 1);
}

#[test]
fn test_synergy_all_tower_types_no_panic() {
    let all_types = [
        TowerType::Basic,
        TowerType::Splash,
        TowerType::Slow,
        TowerType::Sniper,
        TowerType::Rapid,
        TowerType::Chain,
        TowerType::Poison,
        TowerType::Buff,
    ];
    for &tower_type in &all_types {
        for &neighbor in &all_types {
            let _ = detect_synergies(tower_type, &[neighbor]);
        }
    }
}

#[test]
fn synergy_depends_only_on_neighbour_kinds() {
    let a = detect_synergies(TowerType::Rapid, &[TowerType::Basic, TowerType::Buff]);
    let b = detect_synergies(TowerType::Rapid, &[TowerType::Buff, TowerType::Buff, TowerType::Basic]);
    assert_eq!(a, b);
}
