use noise::{NoiseFn, Perlin};
use simulation_robots::robots::{
    find_path_a_star, generate_map, is_position_blocked, move_entity_avoiding_obstacles, rotate_vec2, setup,
    standard_resources, CollectionState, DiscoveredResource, ExploredZones, GameMap, MapResources, Miner,
    MinerRole, Resource, ResourceRecord, Rotation, Simulation, SimulationPlugin, Vec2, NOISE_SCALE, ROT_SCALE,
    UNIT,
};

fn p(x: i64, y: i64) -> Vec2 {
    Vec2::new(x * UNIT, y * UNIT)
}

fn open_map(cols: usize, rows: usize, cell: i64) -> GameMap {
    GameMap {
        size: Vec2::new(cols as i64 * cell * UNIT, rows as i64 * cell * UNIT),
        cell_size: cell * UNIT,
        obstacles: vec![vec![false; cols]; rows],
        seed: 0,
    }
}

fn perlin_grid(cols: usize, rows: usize, seed: u32) -> Vec<Vec<i64>> {
    let perlin = Perlin::new(seed);
    (0..rows)
        .map(|y| {
            (0..cols)
                .map(|x| (perlin.get([x as f64 * 0.07, y as f64 * 0.07]) * NOISE_SCALE as f64).floor() as i64)
                .collect()
        })
        .collect()
}

fn session_on(map: GameMap) -> Simulation {
    let none = MapResources { energy_positions: vec![], mineral_positions: vec![], scientific_sites: vec![] };
    setup(map, &none, 7)
}

fn cell_of(map: &GameMap, v: Vec2) -> (i64, i64) {
    (
        (2 * v.x + map.size.x).div_euclid(2 * map.cell_size),
        (2 * v.y + map.size.y).div_euclid(2 * map.cell_size),
    )
}

#[test]
fn positions_off_the_grid_are_blocked() {
    let map = open_map(10, 10, 10);
    assert!(is_position_blocked(p(-51, 0), &map));
    assert!(is_position_blocked(p(0, 50), &map));
    assert!(is_position_blocked(p(1000, 1000), &map));
    assert!(is_position_blocked(Vec2::new(i64::MIN, i64::MAX), &map));
    assert!(!is_position_blocked(p(-45, -45), &map));
}

#[test]
fn single_occupied_cell_scenario() {
    let mut map = open_map(10, 10, 10);
    map.obstacles[5][5] = true;
    assert!(is_position_blocked(p(5, 5), &map));
    assert!(!is_position_blocked(p(-45, -45), &map));
    // The footprint reaches 0.7 cells: 7 units left of the occupied cell is blocked, 9 is not.
    assert!(is_position_blocked(p(-2, 5), &map));
    assert!(!is_position_blocked(p(-8, 5), &map));
}

#[test]
fn generated_centre_block_is_free() {
    for seed in [1u32, 2, 3, 42, 99] {
        let noise: Vec<Vec<i64>> = vec![vec![NOISE_SCALE; 40]; 30];
        let map = generate_map(800 * UNIT, 600 * UNIT, 20 * UNIT, seed, &noise);
        let (cx, cy) = (20usize, 15usize);
        for r in cy - 2..=cy + 2 {
            for c in cx - 2..=cx + 2 {
                assert!(!map.obstacles[r][c]);
                let centre = Vec2::new(
                    ((2 * c as i64 + 1) * map.cell_size - map.size.x).div_euclid(2),
                    ((2 * r as i64 + 1) * map.cell_size - map.size.y).div_euclid(2),
                );
                assert!(!is_position_blocked(centre, &map));
            }
        }
        // Everything the noise marks outside the safe zone stays occupied.
        assert!(map.obstacles[0][0]);
        assert!(map.obstacles[29][39]);
    }
}

#[test]
fn generated_map_adds_random_clutter() {
    let noise: Vec<Vec<i64>> = vec![vec![0; 40]; 30];
    let map = generate_map(800 * UNIT, 600 * UNIT, 20 * UNIT, 5, &noise);
    let occupied: usize = map.obstacles.iter().map(|row| row.iter().filter(|b| **b).count()).sum();
    assert!(occupied > 0);
    assert!(occupied < 600);
    let with_noise = generate_map(800 * UNIT, 600 * UNIT, 20 * UNIT, 5, &perlin_grid(40, 30, 5));
    assert_eq!(with_noise.obstacles.len(), 30);
}

#[test]
fn rotation_round_trip() {
    let v = Vec2::new(123_456, -98_765);
    for angle in [0.3f64, -0.6, 1.0, 2.5, 3.1] {
        let r = Rotation {
            cos: (angle.cos() * ROT_SCALE as f64).round() as i64,
            sin: (angle.sin() * ROT_SCALE as f64).round() as i64,
        };
        let inv = Rotation { cos: r.cos, sin: -r.sin };
        let back = rotate_vec2(rotate_vec2(v, r), inv);
        assert!((back.x - v.x).abs() <= 3);
        assert!((back.y - v.y).abs() <= 3);
    }
    let quarter = Rotation { cos: 0, sin: ROT_SCALE };
    assert_eq!(rotate_vec2(Vec2::new(1000, 0), quarter), Vec2::new(0, 1000));
    assert_eq!(rotate_vec2(Vec2::new(-7, 3), quarter), Vec2::new(-3, -7));
}

#[test]
fn path_steps_are_neighbouring_free_cells() {
    let mut map = open_map(10, 10, 10);
    for r in 0..8 {
        map.obstacles[r][4] = true;
    }
    let start = p(-45, -45);
    let goal = p(45, -45);
    let path = find_path_a_star(start, goal, &map).expect("a path around the wall");
    assert_eq!(cell_of(&map, path[0]), (0, 0));
    assert_eq!(cell_of(&map, *path.last().unwrap()), (9, 0));
    for w in path.windows(2) {
        let (a, b) = (cell_of(&map, w[0]), cell_of(&map, w[1]));
        assert!((a.0 - b.0).abs() <= 1 && (a.1 - b.1).abs() <= 1 && a != b);
    }
    for v in &path {
        let (c, r) = cell_of(&map, *v);
        assert!(!map.obstacles[r as usize][c as usize]);
    }
    assert_eq!(path[0], p(-45, -45));
}

#[test]
fn no_path_when_goal_walled_in() {
    let mut map = open_map(10, 10, 10);
    for r in 0..10 {
        map.obstacles[r][4] = true;
    }
    assert!(find_path_a_star(p(-45, -45), p(45, -45), &map).is_none());
    assert!(find_path_a_star(p(-45, -45), p(-5, -45), &map).is_none());
    assert!(find_path_a_star(p(-45, -45), p(200, 0), &map).is_none());
}

#[test]
fn path_to_own_cell_is_one_waypoint() {
    let map = open_map(10, 10, 10);
    let path = find_path_a_star(p(-44, -44), p(-42, -41), &map).unwrap();
    assert_eq!(path, vec![p(-45, -45)]);
}

#[test]
fn straight_move_when_free() {
    let map = open_map(10, 10, 10);
    let (pos, heading) = move_entity_avoiding_obstacles(p(0, 0), p(30, 40), 10, 1000, &map);
    assert_eq!(pos, p(6, 8));
    assert_eq!(heading, Vec2::new(30 * UNIT * ROT_SCALE, 40 * UNIT * ROT_SCALE));
    let (pos, _) = move_entity_avoiding_obstacles(p(0, 0), p(-20, 0), 120, 16, &map);
    assert_eq!(pos, Vec2::new(-1920, 0));
}

#[test]
fn agent_on_target_stays() {
    let map = open_map(10, 10, 10);
    let (pos, heading) = move_entity_avoiding_obstacles(p(3, 3), p(3, 3), 100, 16, &map);
    assert_eq!(pos, p(3, 3));
    assert_eq!(heading, Vec2::new(0, 0));
}

#[test]
fn fully_blocked_agent_stays_facing_target() {
    let mut map = open_map(10, 10, 10);
    for r in 0..10 {
        for c in 0..10 {
            map.obstacles[r][c] = !(r == 5 && c == 5);
        }
    }
    let (pos, heading) = move_entity_avoiding_obstacles(p(5, 5), p(45, 5), 10, 1000, &map);
    assert_eq!(pos, p(5, 5));
    assert_eq!(heading, Vec2::new(40 * UNIT * ROT_SCALE, 0));
}

#[test]
fn marking_twice_equals_marking_once() {
    let mut once = ExploredZones::default();
    once.mark_seen(p(12, -30));
    let mut twice = ExploredZones::default();
    twice.mark_seen(p(12, -30));
    twice.mark_seen(p(12, -30));
    assert_eq!(once.grid, twice.grid);
    let seen: usize = once.grid.iter().map(|row| row.iter().filter(|b| **b).count()).sum();
    assert_eq!(seen, 25);
    assert!(once.is_seen(p(12, -30)));
    assert!(once.is_seen(p(32, -10)));
    assert!(!once.is_seen(p(42, -30)));
    let mut corner = ExploredZones::default();
    corner.mark_seen(p(-400, -300));
    let seen: usize = corner.grid.iter().map(|row| row.iter().filter(|b| **b).count()).sum();
    assert_eq!(seen, 9);
}

fn scenario(resources: Vec<ResourceRecord>, miners: Vec<Miner>, explorer: Vec2) -> Simulation {
    let mut sim = session_on(open_map(40, 30, 20));
    sim.resources = resources;
    sim.miners = miners;
    sim.explorer_position = explorer;
    sim
}

fn miner(x: i64, y: i64, role: MinerRole) -> Miner {
    Miner { position: p(x, y), heading: Vec2::new(0, 0), role }
}

fn resource(x: i64, y: i64) -> ResourceRecord {
    ResourceRecord { position: p(x, y), kind: Resource::Energy, exists: true }
}

#[test]
fn collection_completes_after_two_seconds() {
    let mut sim = scenario(vec![resource(100, 0)], vec![miner(105, 0, MinerRole::Active)], p(0, 50));
    sim.discovered_resource = DiscoveredResource { position: Some(p(100, 0)) };
    sim.tick(500);
    assert!(sim.collection_state.collecting);
    assert_eq!(sim.collection_state.resource_entity, Some(0));
    for _ in 0..3 {
        sim.tick(500);
        assert!(sim.resources[0].exists);
        assert_eq!(sim.miners[0].role, MinerRole::Active);
    }
    sim.tick(500);
    assert!(!sim.resources[0].exists);
    assert_eq!(sim.miners[0].role, MinerRole::Returning);
    assert_eq!(sim.discovered_resource.position, None);
    assert_eq!(sim.collection_state, CollectionState::default());
}

#[test]
fn discovery_activates_every_idle_miner() {
    let miners = vec![miner(-30, -30, MinerRole::Idle), miner(0, -30, MinerRole::Idle), miner(30, -30, MinerRole::Idle)];
    let mut sim = scenario(vec![resource(130, 0), resource(110, 10), resource(100, 0)], miners, p(120, 0));
    sim.check_resource_discovery();
    assert_eq!(sim.discovered_resource.position, Some(p(130, 0)));
    assert!(sim.miners.iter().all(|m| m.role == MinerRole::Active));
}

#[test]
fn discovery_ties_go_to_the_first_resource() {
    let miners = vec![miner(0, -30, MinerRole::Idle)];
    let mut sim = scenario(vec![resource(100, 10), resource(100, -10)], miners, p(100, 0));
    sim.check_resource_discovery();
    assert_eq!(sim.discovered_resource.position, Some(p(100, 10)));
}

#[test]
fn nothing_discovered_out_of_range() {
    let miners = vec![miner(0, -30, MinerRole::Idle)];
    let mut sim = scenario(vec![resource(100, 35)], miners, p(100, 0));
    sim.check_resource_discovery();
    assert_eq!(sim.discovered_resource.position, None);
    assert_eq!(sim.miners[0].role, MinerRole::Idle);
}

#[test]
fn vanished_target_sends_miners_home() {
    let mut gone = resource(100, 0);
    gone.exists = false;
    let mut sim = scenario(vec![gone], vec![miner(0, -30, MinerRole::Active)], p(0, 50));
    sim.discovered_resource = DiscoveredResource { position: Some(p(100, 0)) };
    sim.move_miners(16);
    assert_eq!(sim.discovered_resource.position, None);
    assert_eq!(sim.miners[0].role, MinerRole::Returning);
}

#[test]
fn returning_miner_turns_idle_at_base() {
    let mut sim = scenario(vec![], vec![miner(10, 0, MinerRole::Returning), miner(100, 0, MinerRole::Returning)], p(0, 50));
    sim.move_miners(16);
    assert_eq!(sim.miners[0].role, MinerRole::Idle);
    assert_eq!(sim.miners[0].position, p(10, 0));
    assert_eq!(sim.miners[1].role, MinerRole::Returning);
    assert_eq!(sim.miners[1].position, Vec2::new(100 * UNIT - 1920, 0));
}

#[test]
fn active_miners_head_for_the_target() {
    let mut sim = scenario(vec![resource(100, 0)], vec![miner(0, 0, MinerRole::Active)], p(0, 50));
    sim.discovered_resource = DiscoveredResource { position: Some(p(100, 0)) };
    sim.move_miners(100);
    assert_eq!(sim.miners[0].position, p(12, 0));
    assert!(!sim.collection_state.collecting);
    assert_eq!(sim.collection_state.position, Some(p(100, 0)));
}

#[test]
fn explorer_wanders_and_bounces() {
    let mut sim = session_on(open_map(40, 30, 20));
    sim.miners = vec![];
    sim.wander(100, Vec2::new(0, 1000), Vec2::new(0, -1000));
    assert_eq!(sim.explorer_position, p(10, 50));
    assert_eq!(sim.explorer_state.time_until_change_ms, 1900);
    sim.explorer_state.time_until_change_ms = 50;
    sim.wander(100, Vec2::new(0, 1000), Vec2::new(0, -1000));
    assert_eq!(sim.explorer_position, p(10, 60));
    assert_eq!(sim.explorer_state.current_direction, Vec2::new(0, 1000));
    assert_eq!(sim.explorer_state.time_until_change_ms, 2000);
    sim.explorer_position = p(10, 285);
    sim.wander(100, Vec2::new(0, 1000), Vec2::new(0, -1000));
    assert_eq!(sim.explorer_position, p(10, 295));
    assert_eq!(sim.explorer_state.current_direction, Vec2::new(0, -1000));
    assert_eq!(sim.explorer_state.time_until_change_ms, 1000);
}

#[test]
fn explorer_waits_while_a_resource_is_pursued() {
    let mut sim = session_on(open_map(40, 30, 20));
    sim.discovered_resource = DiscoveredResource { position: Some(p(100, 0)) };
    let before = sim.explorer_position;
    sim.move_explorer(100);
    assert_eq!(sim.explorer_position, before);
}

#[test]
fn explorer_draws_directions_in_range() {
    let mut sim = session_on(open_map(40, 30, 20));
    sim.miners = vec![];
    let mut directions = Vec::new();
    for _ in 0..20 {
        sim.explorer_state.time_until_change_ms = 1;
        sim.move_explorer(16);
        let d = sim.explorer_state.current_direction;
        assert!(d.x.abs() <= 1000 && d.y.abs() <= 1000);
        directions.push(d);
    }
    assert!(directions.iter().any(|d| *d != directions[0]));
    sim.update_explored_map();
    assert!(sim.explored_zones.is_seen(sim.explorer_position));
}

#[test]
fn plugin_builds_a_standard_session() {
    let noise = perlin_grid(40, 30, 11);
    let sim = SimulationPlugin.build(11, &noise);
    assert_eq!(sim.game_map.obstacles.len(), 30);
    assert_eq!(sim.game_map.obstacles[0].len(), 40);
    assert_eq!(sim.resources.len(), 14);
    assert_eq!(sim.miners.len(), 3);
    assert_eq!(sim.explorer_position, p(0, 50));
    assert_eq!(sim.miners[0].position, p(-30, -30));
    let spawns = standard_resources();
    for v in spawns.energy_positions.iter().chain(spawns.mineral_positions.iter()) {
        let (c, r) = cell_of(&sim.game_map, *v);
        for dr in -2..=2i64 {
            for dc in -2..=2i64 {
                let (cc, rr) = (c + dc, r + dr);
                if (0..40).contains(&cc) && (0..30).contains(&rr) {
                    assert!(!sim.game_map.obstacles[rr as usize][cc as usize]);
                }
            }
        }
    }
}
