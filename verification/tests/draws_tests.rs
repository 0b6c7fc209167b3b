use neon_command::draws::{
    place_obstacles, random_path_from_draws, sprint_path_from_draws, ClusterDraw, ScatterDraw,
    SprintDraw, StepDraw,
};
use neon_command::enemy::{base_wave_bonus_fits, generate_wave_enemies, EnemyType, WaveManager};
use neon_command::map::{GameMap, TerrainType, TileType, GRID_HEIGHT, GRID_WIDTH};
use neon_command::spatial::SpatialGrid;

fn steps(d: StepDraw, n: usize) -> Vec<StepDraw> {
    vec![d; n]
}

#[test]
fn random_walk_from_fixed_draws() {
    let d = StepDraw { horizontal: true, run: false, run_length: 2 };
    let path = random_path_from_draws(2, false, &steps(d, 150));
    let expected: Vec<(usize, usize)> = vec![
        (0, 2), (1, 2), (2, 2), (2, 1), (3, 1), (4, 1), (4, 2), (5, 2), (6, 2), (6, 3),
        (7, 3), (8, 3), (8, 4), (9, 4), (10, 4), (10, 5), (11, 5), (12, 5), (12, 6),
        (13, 6), (14, 6), (14, 7), (15, 7), (16, 7), (16, 8), (17, 8),
    ];
    assert_eq!(path, expected);
}

#[test]
fn random_walk_finishes_straight_when_draws_run_out() {
    let d = StepDraw { horizontal: true, run: false, run_length: 2 };
    let path = random_path_from_draws(3, true, &steps(d, 1));
    let expected: Vec<(usize, usize)> = (0..GRID_WIDTH).map(|x| (x, 3)).collect();
    assert_eq!(path, expected);
}

#[test]
fn random_walk_vertical_runs_reverse_at_the_edge() {
    let d = StepDraw { horizontal: false, run: true, run_length: 3 };
    let path = random_path_from_draws(5, true, &steps(d, 150));
    // Column 1 climbs from row 5 to row 8; column 2 reaches row 9 and reverses.
    assert_eq!(&path[..8], &[(0, 5), (1, 5), (1, 6), (1, 7), (1, 8), (2, 8), (2, 9), (3, 9)]);
    assert_eq!(&path[8..11], &[(3, 8), (3, 7), (3, 6)]);
    assert_eq!(path.last(), Some(&(GRID_WIDTH - 1, 1)));
}

#[test]
fn sprint_path_from_fixed_draws() {
    let draws = vec![SprintDraw { run: 4, jog: 1, down: true }; 9];
    let path = sprint_path_from_draws(&draws);
    let expected: Vec<(usize, usize)> = vec![
        (0, 5), (1, 5), (2, 5), (3, 5), (4, 5), (4, 6), (5, 6), (6, 6), (7, 6), (8, 6),
        (8, 7), (9, 7), (10, 7), (11, 7), (12, 7), (12, 8), (13, 8), (14, 8), (15, 8),
        (16, 8), (16, 7), (17, 7),
    ];
    assert_eq!(path, expected);
}

fn straight_tiles(row: usize) -> (Vec<TileType>, Vec<(usize, usize)>) {
    let path: Vec<(usize, usize)> = (0..GRID_WIDTH).map(|x| (x, row)).collect();
    let mut tiles = vec![TileType::Empty; GRID_WIDTH * GRID_HEIGHT];
    for &(x, y) in path.iter() {
        tiles[x * GRID_HEIGHT + y] = TileType::Path;
    }
    (tiles, path)
}

#[test]
fn obstacles_from_fixed_draws() {
    let (mut tiles, path) = straight_tiles(5);
    let before = tiles.clone();
    let mut offsets1 = vec![(2, 2), (2, 2), (0, 0), (4, 4), (1, 0)];
    offsets1.resize(50, (2, 2));
    let clusters = vec![
        ClusterDraw { center_x: 5, center_y: 2, terrain: TerrainType::Rock, size: 3, offsets: offsets1 },
        ClusterDraw { center_x: 10, center_y: 8, terrain: TerrainType::Water, size: 3, offsets: vec![(2, 2); 50] },
    ];
    let scattered = vec![
        ScatterDraw { x: 0, y: 0, terrain: TerrainType::Forest },
        ScatterDraw { x: 0, y: 5, terrain: TerrainType::Forest },
        ScatterDraw { x: 0, y: 4, terrain: TerrainType::Forest },
        ScatterDraw { x: 17, y: 10, terrain: TerrainType::Crystal },
        ScatterDraw { x: 0, y: 0, terrain: TerrainType::Crystal },
        ScatterDraw { x: 3, y: 0, terrain: TerrainType::Water },
    ];
    place_obstacles(&mut tiles, &path, &clusters, &scattered);
    let mut expected = before;
    expected[5 * GRID_HEIGHT + 2] = TileType::Blocked(TerrainType::Rock);
    expected[3 * GRID_HEIGHT] = TileType::Blocked(TerrainType::Rock);
    expected[4 * GRID_HEIGHT] = TileType::Blocked(TerrainType::Rock);
    expected[10 * GRID_HEIGHT + 8] = TileType::Blocked(TerrainType::Water);
    expected[0] = TileType::Blocked(TerrainType::Forest);
    expected[17 * GRID_HEIGHT + 10] = TileType::Blocked(TerrainType::Crystal);
    assert_eq!(tiles, expected);
}

#[test]
fn generated_random_path_stays_in_rows() {
    let path = GameMap::generate_path();
    assert_eq!(path[0].0, 0);
    assert_eq!(path.last().unwrap().0, GRID_WIDTH - 1);
    assert!(path.iter().all(|&(_, y)| (1..GRID_HEIGHT - 1).contains(&y)));
}

#[test]
fn spatial_grid_query_returns_cells_in_reach() {
    let mut grid = SpatialGrid::new();
    grid.insert(1, (0, 0));
    grid.insert(2, (1, 1));
    grid.insert(3, (0, 0));
    grid.insert(4, (10, 0));
    grid.insert(5, (-1, 0));
    assert_eq!(grid.query_cells((0, 0), 1), vec![5, 1, 3, 2]);
    assert_eq!(grid.query_cells((0, 0), 0), vec![1, 3]);
    assert_eq!(grid.query_cells((10, 0), 1), vec![4]);
    assert!(grid.query_cells((5, 5), 1).is_empty());
    grid.clear();
    assert!(grid.query_cells((0, 0), 20).is_empty());
}

#[test]
fn spatial_grid_handles_extreme_cells() {
    let mut grid = SpatialGrid::new();
    grid.insert(7, (i32::MIN, i32::MAX));
    grid.insert(8, (i32::MAX, i32::MIN));
    assert_eq!(grid.query_cells((i32::MIN, i32::MAX), 0), vec![7]);
    assert_eq!(grid.query_cells((i32::MAX, i32::MIN), 0), vec![8]);
}

#[test]
fn wave_bonus_fits_until_its_limit() {
    assert!(base_wave_bonus_fits(0));
    assert!(base_wave_bonus_fits(1_000_000_000));
    // 12 + 3w + isqrt(16w) first exceeds u32::MAX at wave 1_431_605_313.
    assert!(base_wave_bonus_fits(1_431_605_312));
    assert!(!base_wave_bonus_fits(1_431_605_313));
}

#[test]
fn started_wave_sends_what_the_preview_counts() {
    let mut wm = WaveManager::new();
    wm.current_wave = 12;
    let preview = wm.preview_next_wave(20);
    wm.start_wave(20);
    for (kind, n) in preview.counts.iter() {
        let sent = wm.enemies_to_spawn.iter().filter(|e| *e == kind).count();
        assert_eq!(sent, *n);
    }
    let total: usize = preview.counts.iter().map(|(_, n)| *n).sum();
    assert_eq!(total, wm.enemies_to_spawn.len());
}

#[test]
fn first_wave_sends_basic_enemies_only() {
    let wave = generate_wave_enemies(1, 9);
    assert_eq!(wave, vec![EnemyType::Basic; 9]);
    assert!(!generate_wave_enemies(11, 30).contains(&EnemyType::Flying));
    assert!(generate_wave_enemies(12, 30).contains(&EnemyType::Flying));
}
