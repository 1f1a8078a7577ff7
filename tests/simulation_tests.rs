use noise::{NoiseFn, Perlin};
use simulation_robots::robots::{
    clear_obstacles_around_resources, generate_map, is_position_blocked, move_entity_avoiding_obstacles,
    rotate_vec2, GameMap, MapResources, Rotation, Vec2, NOISE_SCALE, ROT_SCALE, UNIT,
};

fn noise_grid(width: i64, height: i64, cell: i64, seed: u32) -> Vec<Vec<i64>> {
    let perlin = Perlin::new(seed);
    let cols = width / cell;
    let rows = height / cell;
    (0..rows)
        .map(|y| {
            (0..cols)
                .map(|x| (perlin.get([x as f64 * 0.07, y as f64 * 0.07]) * NOISE_SCALE as f64).floor() as i64)
                .collect()
        })
        .collect()
}

fn world_map(width: i64, height: i64, cell: i64, seed: u32) -> GameMap {
    let noise = noise_grid(width, height, cell, seed);
    generate_map(width * UNIT, height * UNIT, cell * UNIT, seed, &noise)
}

fn rotation(angle: f64) -> Rotation {
    Rotation {
        cos: (angle.cos() * ROT_SCALE as f64).round() as i64,
        sin: (angle.sin() * ROT_SCALE as f64).round() as i64,
    }
}

fn at(x: f64, y: f64) -> Vec2 {
    Vec2::new((x * UNIT as f64).round() as i64, (y * UNIT as f64).round() as i64)
}

// Test de la fonction is_position_blocked
#[test]
fn test_is_position_blocked() {
    let mut obstacles = vec![vec![false; 10]; 10];
    obstacles[5][5] = true;
    obstacles[5][6] = true;
    obstacles[6][5] = true;

    let game_map = GameMap {
        size: Vec2::new(100 * UNIT, 100 * UNIT),
        cell_size: 10 * UNIT,
        obstacles,
        seed: 42,
    };

    assert_eq!(is_position_blocked(at(-45.0, -45.0), &game_map), false);
    assert_eq!(is_position_blocked(at(5.0, 5.0), &game_map), true);
}

// Test de la fonction rotate_vec2
#[test]
fn test_rotate_vec2() {
    let v = at(1.0, 0.0);

    let rotated = rotate_vec2(v, rotation(std::f64::consts::PI / 2.0));
    assert!((rotated.x as f64 / UNIT as f64 - 0.0).abs() < 0.001);
    assert!((rotated.y as f64 / UNIT as f64 - 1.0).abs() < 0.001);

    let rotated = rotate_vec2(v, rotation(std::f64::consts::PI));
    assert!((rotated.x as f64 / UNIT as f64 + 1.0).abs() < 0.001);
    assert!((rotated.y as f64 / UNIT as f64 - 0.0).abs() < 0.001);
}

// Test de la fonction move_entity_avoiding_obstacles
#[test]
fn test_movement_with_obstacles() {
    let mut obstacles = vec![vec![false; 10]; 10];
    obstacles[5][5] = true;

    let game_map = GameMap {
        size: Vec2::new(100 * UNIT, 100 * UNIT),
        cell_size: 10 * UNIT,
        obstacles,
        seed: 42,
    };

    let current_pos = at(0.0, 0.0);
    let target_pos = at(10.0, 0.0);
    let (new_pos, _) = move_entity_avoiding_obstacles(current_pos, target_pos, 10, 1000, &game_map);

    assert_ne!(new_pos, current_pos);

    assert!(!is_position_blocked(new_pos, &game_map));
}

// Test de la fonction generate_map
#[test]
fn test_generate_map() {
    let map = world_map(800, 600, 20, 42);

    assert_eq!(map.size.x, 800 * UNIT);
    assert_eq!(map.size.y, 600 * UNIT);
    assert_eq!(map.cell_size, 20 * UNIT);

    let center_x = map.obstacles[0].len() / 2;
    let center_y = map.obstacles.len() / 2;
    assert_eq!(map.obstacles[center_y][center_x], false);

    assert_eq!(map.obstacles[0].len(), (800 / 20) as usize);
    assert_eq!(map.obstacles.len(), (600 / 20) as usize);
}

// Test de la fonction clear_obstacles_around_resources
#[test]
fn test_clear_obstacles() {
    let obstacles = vec![vec![true; 10]; 10];
    let mut game_map = GameMap {
        size: Vec2::new(100 * UNIT, 100 * UNIT),
        cell_size: 10 * UNIT,
        obstacles,
        seed: 42,
    };

    let map_resources = MapResources {
        energy_positions: vec![at(0.0, 0.0)],
        mineral_positions: vec![at(20.0, 20.0)],
        scientific_sites: vec![],
    };

    clear_obstacles_around_resources(&mut game_map, &map_resources);

    let grid_x1 = ((0 + game_map.size.x / 2) / game_map.cell_size) as usize;
    let grid_y1 = ((0 + game_map.size.y / 2) / game_map.cell_size) as usize;

    assert!(grid_x1 < game_map.obstacles[0].len(), "grid_x1 out of bounds: {} >= {}", grid_x1, game_map.obstacles[0].len());
    assert!(grid_y1 < game_map.obstacles.len(), "grid_y1 out of bounds: {} >= {}", grid_y1, game_map.obstacles.len());

    assert_eq!(game_map.obstacles[grid_y1][grid_x1], false);

    let grid_x2 = ((20 * UNIT + game_map.size.x / 2) / game_map.cell_size) as usize;
    let grid_y2 = ((20 * UNIT + game_map.size.y / 2) / game_map.cell_size) as usize;

    assert!(grid_x2 < game_map.obstacles[0].len(), "grid_x2 out of bounds: {} >= {}", grid_x2, game_map.obstacles[0].len());
    assert!(grid_y2 < game_map.obstacles.len(), "grid_y2 out of bounds: {} >= {}", grid_y2, game_map.obstacles.len());

    assert_eq!(game_map.obstacles[grid_y2][grid_x2], false);
}
