use neon_command::economy::{KillStreak, PlayerEconomy, INTEREST_CAP};
use neon_command::enemy::{
    count_by_kind, generate_wave_enemies, isqrt, modifier_count_factor_tenths, wave_count_factor_tenths,
    wave_modifier_for, wave_roster, EnemyType, WaveManager, WaveModifier,
};
use neon_command::map::{GameMap, MapPreset, TileType, GRID_HEIGHT, GRID_WIDTH};
use neon_command::pool::{ObjectPool, ProjectilePool};
use neon_command::preview::{fuzzy_count, preview_text};
use neon_command::stats::GameStats;
use neon_command::tower::{
    place_tower, sell_tower, specialize_tower, undo_refund, upgrade_tower, Specialization,
    TargetingPriority, Tower, TowerType,
};

// --- Economy ---

#[test]
fn economy_starts_with_160_gold_and_10_lives() {
    let e = PlayerEconomy::new();
    assert_eq!(e.gold, 160);
    assert_eq!(e.lives, 10);
    assert_eq!(e.score, 0);
    assert_eq!(e.interest_rate_percent, 10);
}

#[test]
fn economy_interest_is_capped() {
    let mut e = PlayerEconomy::new();
    assert_eq!(e.calculate_interest(), 16);
    e.gold = 10_000;
    assert_eq!(e.calculate_interest(), INTEREST_CAP);
}

#[test]
fn economy_spend_only_what_is_there() {
    let mut e = PlayerEconomy::new();
    assert!(e.try_spend(60));
    assert_eq!(e.gold, 100);
    assert!(!e.try_spend(101));
    assert_eq!(e.gold, 100);
}

#[test]
fn economy_gold_and_score_saturate() {
    let mut e = PlayerEconomy::new();
    e.earn_gold(u32::MAX);
    assert_eq!(e.gold, u32::MAX);
    e.add_score(7);
    e.add_score(u32::MAX);
    assert_eq!(e.score, u32::MAX);
}

#[test]
fn economy_losing_the_last_life_ends_the_game() {
    let mut e = PlayerEconomy::new();
    for _ in 0..9 {
        assert!(!e.lose_life());
    }
    assert!(e.lose_life());
    assert_eq!(e.lives, 0);
    assert!(e.lose_life());
    assert_eq!(e.lives, 0);
}

#[test]
fn kill_streak_counts_and_expires() {
    let mut s = KillStreak::new();
    for _ in 0..5 {
        s.register_kill();
    }
    assert_eq!(s.count, 5);
    assert_eq!(s.multiplier(), 14);
    assert!(s.is_displayable());
    s.expire();
    assert_eq!(s.count, 0);
    assert_eq!(s.max_reached, 5);
    assert_eq!(s.multiplier(), 10);
}

// --- Towers ---

#[test]
fn targeting_cycles_through_all_five_modes() {
    let mut t = TargetingPriority::default_priority();
    let mut names = Vec::new();
    for _ in 0..5 {
        names.push(t.name());
        t = t.next();
    }
    assert_eq!(names, vec!["First", "Closest", "Lowest HP", "Highest HP", "Fastest"]);
    assert_eq!(t, TargetingPriority::First);
}

#[test]
fn tower_costs() {
    assert_eq!(TowerType::Basic.cost(), 50);
    assert_eq!(TowerType::Sniper.name(), "Sniper");
    assert!(!TowerType::Buff.can_attack());
    assert!(TowerType::Basic.can_attack());
}

#[test]
fn specialization_choices() {
    let choices = Specialization::choices_for(TowerType::Basic).unwrap();
    assert_eq!(choices.len(), 2);
    for c in choices.iter() {
        assert!(!c.name().is_empty());
        assert_eq!(c.initial().len(), 1);
    }
}

fn open_map() -> GameMap {
    GameMap::generate(MapPreset::Sprint)
}

fn empty_tile(map: &GameMap) -> (usize, usize) {
    for x in 0..GRID_WIDTH {
        for y in 0..GRID_HEIGHT {
            if map.tile_at(x, y) == TileType::Empty {
                return (x, y);
            }
        }
    }
    panic!("no empty tile");
}

#[test]
fn placing_a_tower_pays_and_marks_the_tile() {
    let mut e = PlayerEconomy::new();
    let mut map = open_map();
    let (x, y) = empty_tile(&map);
    let placed = place_tower(&mut e, &mut map, TowerType::Basic, x, y).unwrap();
    assert_eq!(e.gold, 110);
    assert_eq!(map.tile_at(x, y), TileType::Tower);
    assert_eq!(placed.level, 1);
    // The tile is now taken.
    assert!(place_tower(&mut e, &mut map, TowerType::Basic, x, y).is_none());
    assert_eq!(e.gold, 110);
}

#[test]
fn placing_without_gold_changes_nothing() {
    let mut e = PlayerEconomy::new();
    e.gold = 10;
    let mut map = open_map();
    let (x, y) = empty_tile(&map);
    assert!(place_tower(&mut e, &mut map, TowerType::Basic, x, y).is_none());
    assert_eq!(e.gold, 10);
    assert_eq!(map.tile_at(x, y), TileType::Empty);
}

#[test]
fn upgrading_and_selling_a_tower() {
    let mut e = PlayerEconomy::new();
    let mut map = open_map();
    let (x, y) = empty_tile(&map);
    let mut tower = place_tower(&mut e, &mut map, TowerType::Basic, x, y).unwrap();
    assert_eq!(upgrade_tower(&mut e, &mut tower), Some(25));
    assert_eq!(tower.level, 2);
    assert_eq!(e.gold, 85);
    let refund = sell_tower(&mut e, &mut map, &tower);
    assert_eq!(refund, (50 + 25) * 3 / 4);
    assert_eq!(e.gold, 85 + refund);
    assert_eq!(map.tile_at(x, y), TileType::Empty);
}

#[test]
fn specializing_a_tower() {
    let mut e = PlayerEconomy::new();
    e.gold = 1000;
    let mut tower = Tower::new(TowerType::Basic, 0, 0);
    tower.level = 2;
    assert!(tower.needs_specialization());
    let spec = Specialization::choices_for(TowerType::Basic).unwrap()[0];
    let paid = specialize_tower(&mut e, &mut tower, spec).unwrap();
    assert_eq!(paid, 37);
    assert_eq!(tower.level, 3);
    assert_eq!(tower.specialization, Some(spec));
    assert!(!tower.needs_specialization());
    assert_eq!(e.gold, 1000 - 37);
}

#[test]
fn undo_refunds_a_fresh_tower_in_full() {
    let mut e = PlayerEconomy::new();
    let mut map = open_map();
    let (x, y) = empty_tile(&map);
    let tower = place_tower(&mut e, &mut map, TowerType::Basic, x, y).unwrap();
    assert!(undo_refund(&mut e, 50, &tower));
    sell_tower(&mut e, &mut map, &tower);
    assert_eq!(e.gold, 160);
}

#[test]
fn undo_does_not_apply_after_an_upgrade() {
    let mut e = PlayerEconomy::new();
    let mut tower = Tower::new(TowerType::Basic, 0, 0);
    tower.level = 2;
    assert!(!undo_refund(&mut e, 50, &tower));
    assert_eq!(e.gold, 160);
}

// --- Map ---

#[test]
fn generated_maps_are_consistent() {
    for preset in [MapPreset::Random, MapPreset::Serpentine, MapPreset::Sprint, MapPreset::Spiral] {
        let map = GameMap::generate(preset);
        assert_eq!(map.tiles.len(), GRID_WIDTH * GRID_HEIGHT);
        assert!(!map.path.is_empty());
        for &(x, y) in map.path.iter() {
            assert!(x < GRID_WIDTH && y < GRID_HEIGHT);
            assert_eq!(map.tile_at(x, y), TileType::Path);
        }
        for w in map.path.windows(2) {
            let dx = (w[0].0 as i64 - w[1].0 as i64).abs();
            let dy = (w[0].1 as i64 - w[1].1 as i64).abs();
            assert!(dx + dy <= 1);
        }
    }
}

#[test]
fn preset_names() {
    assert_eq!(MapPreset::Serpentine.name(), "Serpentine");
    assert_eq!(MapPreset::default_preset(), MapPreset::Random);
}

// --- Waves ---

#[test]
fn wave_modifiers_follow_the_schedule() {
    assert_eq!(wave_modifier_for(1), WaveModifier::Normal);
    assert_eq!(wave_modifier_for(3), WaveModifier::Normal);
    assert_eq!(wave_modifier_for(6), WaveModifier::ArmoredWave);
    assert_eq!(wave_modifier_for(9), WaveModifier::GoldRush);
    assert_eq!(wave_modifier_for(12), WaveModifier::Regen);
    assert_eq!(wave_modifier_for(15), WaveModifier::SpeedBoost);
    assert_eq!(wave_modifier_for(18), WaveModifier::Swarm);
    assert_eq!(wave_modifier_for(7), WaveModifier::Normal);
}

#[test]
fn modifier_count_factors() {
    assert_eq!(modifier_count_factor_tenths(WaveModifier::Swarm), 20);
    assert_eq!(modifier_count_factor_tenths(WaveModifier::GoldRush), 15);
    assert_eq!(modifier_count_factor_tenths(WaveModifier::Normal), 10);
    assert_eq!(wave_count_factor_tenths(10), 4);
    assert_eq!(wave_count_factor_tenths(11), 12);
    assert_eq!(wave_count_factor_tenths(5), 5);
}

#[test]
fn boss_wave_roster() {
    let roster = wave_roster(10, 6);
    assert_eq!(roster.iter().filter(|e| **e == EnemyType::Boss).count(), 1);
    assert_eq!(roster.len(), 1 + 6);
    let roster = wave_roster(40, 4);
    assert_eq!(roster.iter().filter(|e| **e == EnemyType::Boss).count(), 3);
}

#[test]
fn shuffled_wave_keeps_its_enemies() {
    let roster = wave_roster(13, 12);
    let shuffled = generate_wave_enemies(13, 12);
    assert_eq!(roster.len(), shuffled.len());
    let a = count_by_kind(&roster);
    let b = count_by_kind(&shuffled);
    assert_eq!(a, b);
    // Same wave, same order.
    assert_eq!(shuffled, generate_wave_enemies(13, 12));
}

#[test]
fn counts_are_in_kind_order() {
    let enemies = vec![EnemyType::Tank, EnemyType::Basic, EnemyType::Tank, EnemyType::Boss];
    let counts = count_by_kind(&enemies);
    assert_eq!(counts, vec![(EnemyType::Basic, 1), (EnemyType::Tank, 2), (EnemyType::Boss, 1)]);
}

#[test]
fn integer_square_root() {
    assert_eq!(isqrt(0), 0);
    assert_eq!(isqrt(15), 3);
    assert_eq!(isqrt(16), 4);
    assert_eq!(isqrt(u64::MAX), 4_294_967_295);
}

#[test]
fn wave_manager_runs_a_wave() {
    let mut wm = WaveManager::new();
    wm.start_wave(8);
    assert!(wm.wave_active);
    let total = wm.enemies_to_spawn.len();
    let mut spawned = 0;
    while let Some(_) = wm.next_spawn() {
        wm.enemies_spawned(1);
        spawned += 1;
    }
    assert_eq!(spawned, total);
    for _ in 0..spawned {
        wm.enemy_killed();
    }
    assert_eq!(wm.enemies_alive, 0);
    let mut e = PlayerEconomy::new();
    let (bonus, interest) = wm.complete_wave(&mut e).unwrap();
    // The first wave runs while the counter still reads 0: 12 * 1.4 = 16.
    assert_eq!(bonus, 16);
    assert_eq!(interest, 16);
    assert_eq!(e.gold, 160 + 16 + 16);
    assert_eq!(wm.current_wave, 1);
    assert!(!wm.wave_active);
}

#[test]
fn an_escape_spoils_the_perfect_bonus() {
    let mut wm = WaveManager::new();
    wm.current_wave = 4;
    wm.perfect_wave = true;
    // 12 + 12 + 8 = 32, boosted to 44.
    assert_eq!(wm.wave_bonus(), 44);
    wm.enemy_escaped();
    assert!(!wm.perfect_wave);
    assert_eq!(wm.wave_bonus(), 32);
}

#[test]
fn preview_counts_fuzzy_labels() {
    assert_eq!(fuzzy_count(0), "0");
    assert_eq!(fuzzy_count(3), "3");
    assert_eq!(fuzzy_count(4), "5+");
    assert_eq!(fuzzy_count(7), "5+");
    assert_eq!(fuzzy_count(8), "10+");
    assert_eq!(fuzzy_count(12), "10+");
    assert_eq!(fuzzy_count(13), "15+");
    assert_eq!(fuzzy_count(19), "25+");
    assert_eq!(fuzzy_count(27), "25+");
    assert_eq!(fuzzy_count(28), "30+");
    assert_eq!(fuzzy_count(1000), "30+");
}

#[test]
fn preview_matches_the_wave() {
    let wm = WaveManager::new();
    let preview = wm.preview_next_wave(10);
    let total: usize = preview.counts.iter().map(|c| c.1).sum();
    assert_eq!(total, generate_wave_enemies(1, 10).len());
    assert_eq!(preview.modifier, WaveModifier::Normal);
}

#[test]
fn enemy_keys_round_trip() {
    for key in 0u8..8 {
        let t = GameStats::enemy_type_from_key(key).unwrap();
        assert_eq!(t.key(), key);
    }
    assert!(GameStats::enemy_type_from_key(8).is_none());
    assert_eq!(EnemyType::Boss.reward(), 120);
    assert!(EnemyType::Flying.is_flying());
    assert!(EnemyType::Splitter.is_splitter());
}

// --- Statistics ---

#[test]
fn statistics_track_towers_and_kills() {
    let mut s = GameStats::new();
    s.register_tower(42, TowerType::Basic, 50);
    s.record_upgrade(42, 25, 2);
    s.record_kill(EnemyType::Basic, 5);
    s.record_kill(EnemyType::Fast, 8);
    s.record_kill_tower(42);
    s.record_sell(42, 56);
    s.record_escape();
    assert_eq!(s.total_gold_spent, 75);
    assert_eq!(s.total_enemies_killed, 2);
    assert_eq!(s.total_enemies_escaped, 1);
    assert_eq!(s.next_tower_id, 1);
    let id = s.entity_to_tower_id[&42];
    let ts = s.tower_stats[&id];
    assert_eq!(ts.gold_invested, 75);
    assert_eq!(ts.max_level, 2);
    assert_eq!(ts.total_kills, 1);
    assert!(ts.was_sold);
    assert_eq!(ts.gold_recovered, 56);
    s.record_wave_complete(20, 10);
    assert_eq!(s.wave_gold.len(), 1);
    assert_eq!(s.wave_gold[0].gold_spent, 75);
    s.update_max_combo(4);
    s.update_max_combo(2);
    assert_eq!(s.max_combo, 4);
    s.finalize(900, 7);
    assert_eq!(s.total_score, 900);
    assert_eq!(s.waves_survived, 7);
}

// --- Pools ---

#[test]
fn pool_hands_back_the_last_returned() {
    let mut p = ObjectPool::new();
    assert_eq!(p.get_entity(), None);
    p.return_entity(1);
    p.return_entity(2);
    assert_eq!(p.available_count(), 2);
    assert_eq!(p.get_entity(), Some(2));
    assert_eq!(p.get_entity(), Some(1));
    assert_eq!(p.get_entity(), None);
    let mut pp = ProjectilePool::new();
    pp.return_entity(9);
    assert_eq!(pp.get_entity(), Some(9));
}

#[test]
fn preview_panel_text() {
    let mut wm = WaveManager::new();
    let p = wm.preview_next_wave(10);
    assert_eq!(preview_text(1, &p), "NEXT: Wave 1\n  Basic x10+");
    wm.current_wave = 5;
    let p = wm.preview_next_wave(8);
    assert_eq!(preview_text(6, &p), "NEXT: Wave 6\nARMORED WAVE\n  Basic x10+\n  Fast (quick) x2");
}

#[test]
fn spiral_path_cells() {
    let expected: Vec<(usize, usize)> = vec![(0, 0), (1, 0), (2, 0), (3, 0), (4, 0), (5, 0), (6, 0), (7, 0), (8, 0), (9, 0), (10, 0), (11, 0), (12, 0), (13, 0), (14, 0), (15, 0), (16, 0), (16, 1), (16, 2), (16, 3), (16, 4), (16, 5), (16, 6), (16, 7), (16, 8), (16, 9), (16, 10), (15, 10), (14, 10), (13, 10), (12, 10), (11, 10), (10, 10), (9, 10), (8, 10), (7, 10), (6, 10), (5, 10), (4, 10), (3, 10), (2, 10), (1, 10), (0, 10), (0, 9), (0, 8), (0, 7), (0, 6), (0, 5), (0, 4), (0, 3), (0, 2), (1, 2), (2, 2), (3, 2), (4, 2), (5, 2), (6, 2), (7, 2), (8, 2), (9, 2), (10, 2), (11, 2), (12, 2), (13, 2), (14, 2), (14, 3), (14, 4), (14, 5), (14, 6), (14, 7), (14, 8), (13, 8), (12, 8), (11, 8), (10, 8), (9, 8), (8, 8), (7, 8), (6, 8), (5, 8), (4, 8), (3, 8), (2, 8), (2, 7), (2, 6), (2, 5), (2, 4), (3, 4), (4, 4), (5, 4), (6, 4), (7, 4), (8, 4), (9, 4), (10, 4), (11, 4), (12, 4), (12, 5), (12, 6), (11, 6), (10, 6), (9, 6), (8, 6), (7, 6), (6, 6), (5, 6), (4, 6), (5, 6), (6, 6), (7, 6), (8, 6), (9, 6), (10, 6), (11, 6), (12, 6), (13, 6), (14, 6), (15, 6), (16, 6), (17, 6)];
    assert_eq!(GameMap::generate_spiral_path(), expected);
}

#[test]
fn serpentine_path_cells() {
    let p = GameMap::serpentine_path(1, 5, 9);
    let mut expected = Vec::new();
    for x in 0..17 {
        expected.push((x, 1));
    }
    for y in 2..=5 {
        expected.push((16, y));
    }
    for x in (1..=16).rev() {
        expected.push((x, 5));
    }
    for y in 6..=9 {
        expected.push((1, y));
    }
    for x in 2..18 {
        expected.push((x, 9));
    }
    assert_eq!(p, expected);
    let g = GameMap::generate_serpentine_path();
    let (r1, r3) = (g[0].1, g[g.len() - 1].1);
    assert!((1..3).contains(&r1) && (8..10).contains(&r3));
    assert!((4..7).any(|r2| GameMap::serpentine_path(r1, r2, r3) == g));
}

#[test]
fn random_and_sprint_paths_move_right_inside_the_rows() {
    for _ in 0..20 {
        for p in [GameMap::generate_path(), GameMap::generate_sprint_path()] {
            assert_eq!(p[0].0, 0);
            assert_eq!(p[p.len() - 1].0, GRID_WIDTH - 1);
            for c in p.iter() {
                assert!(1 <= c.1 && c.1 <= GRID_HEIGHT - 2);
            }
            for w in p.windows(2) {
                assert!(w[0].0 <= w[1].0);
            }
        }
        let r = GameMap::generate_path();
        assert!((2..GRID_HEIGHT - 2).contains(&r[0].1));
        let mut seen = std::collections::HashSet::new();
        for c in r.iter() {
            assert!(seen.insert(*c));
        }
        assert_eq!(GameMap::generate_sprint_path()[0], (0, GRID_HEIGHT / 2));
    }
}

#[test]
fn obstacles_only_fill_empty_tiles_away_from_the_path() {
    let path = GameMap::generate_spiral_path();
    let mut tiles = vec![TileType::Empty; GRID_WIDTH * GRID_HEIGHT];
    for &(x, y) in path.iter() {
        tiles[x * GRID_HEIGHT + y] = TileType::Path;
    }
    let before = tiles.clone();
    GameMap::generate_obstacles(&mut tiles, &path);
    assert_eq!(tiles.len(), before.len());
    let mut changed = 0;
    for i in 0..tiles.len() {
        if tiles[i] != before[i] {
            changed += 1;
            assert_eq!(before[i], TileType::Empty);
            assert!(matches!(tiles[i], TileType::Blocked(_)));
            let (x, y) = (i / GRID_HEIGHT, i % GRID_HEIGHT);
            assert!(!GameMap::is_adjacent_to_path(x, y, &path));
        }
    }
    assert!(changed <= 5 * 8 + 11);
}
