use noise::{NoiseFn, Perlin};
use simulation_robots::robots::{find_path_a_star, generate_map, is_position_blocked, GameMap, Vec2, NOISE_SCALE, UNIT};

fn sampled_map(width: i64, height: i64, cell: i64, seed: u32) -> GameMap {
    let perlin = Perlin::new(seed);
    let noise: Vec<Vec<i64>> = (0..height / cell)
        .map(|y| {
            (0..width / cell)
                .map(|x| (perlin.get([x as f64 * 0.07, y as f64 * 0.07]) * NOISE_SCALE as f64).floor() as i64)
                .collect()
        })
        .collect();
    generate_map(width * UNIT, height * UNIT, cell * UNIT, seed, &noise)
}

#[test]
fn test_is_position_blocked_should_return_true_for_obstacle() {
    let mut map = sampled_map(100, 100, 10, 42);
    let x = (100 / 2 / 10) as usize;
    let y = (100 / 2 / 10) as usize;
    map.obstacles[y][x] = true;

    let pos = Vec2::new(0, 0);
    assert!(is_position_blocked(pos, &map));
}

#[test]
fn test_generate_map_should_have_expected_size() {
    let map = sampled_map(100, 50, 10, 123);
    assert_eq!(map.obstacles.len(), 5);
    assert_eq!(map.obstacles[0].len(), 10);
}

#[test]
fn test_find_path_a_star_returns_some_path() {
    let map = sampled_map(100, 100, 10, 1);
    let start = Vec2::new(-40 * UNIT, -40 * UNIT);
    let end = Vec2::new(40 * UNIT, 40 * UNIT);
    let path = find_path_a_star(start, end, &map);
    assert!(path.is_some());
}
