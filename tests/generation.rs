use simulation_robots::robots::{
    build_obstacles, find_path_a_star, follow_path, generate_map, is_position_blocked, move_entity_avoiding_obstacles,
    setup, standard_resources, DiscoveredResource, GameMap, MapResources, Miner,
    MinerRole, Resource, ResourceRecord, Vec2, WallSegment, NOISE_SCALE, UNIT,
};

#[test]
fn safe_zone_reaches_five_cells_each_way() {
    let noise: Vec<Vec<i64>> = vec![vec![NOISE_SCALE; 40]; 30];
    let map = generate_map(800 * UNIT, 600 * UNIT, 20 * UNIT, 3, &noise);
    for r in 0..30usize {
        for c in 0..40usize {
            let inside = (10..=20).contains(&r) && (15..=25).contains(&c);
            assert_eq!(map.obstacles[r][c], !inside, "cell ({}, {})", c, r);
        }
    }
}

#[test]
fn obstacles_follow_noise_clutter_and_walls() {
    let mut noise = vec![vec![0i64; 20]; 20];
    noise[0][0] = 600_000;
    noise[1][1] = 550_000;
    let mut clutter = vec![vec![false; 20]; 20];
    clutter[2][3] = true;
    clutter[10][10] = true;
    let walls = vec![
        WallSegment { start_col: 1, start_row: 18, length: 3, horizontal: true },
        WallSegment { start_col: 18, start_row: 17, length: 9, horizontal: false },
    ];
    let g = build_obstacles(&noise, &clutter, &walls, 20, 20);
    assert!(g[0][0]);
    assert!(!g[1][1]);
    assert!(g[2][3]);
    assert!(!g[10][10]);
    assert!(g[18][1] && g[18][2] && g[18][3] && !g[18][4] && !g[18][0]);
    assert!(g[17][18] && g[18][18] && g[19][18] && !g[16][18]);
    let occupied: usize = g.iter().map(|row| row.iter().filter(|b| **b).count()).sum();
    assert_eq!(occupied, 2 + 3 + 3);
}

fn open_session() -> simulation_robots::robots::Simulation {
    let map = GameMap {
        size: Vec2::new(800 * UNIT, 600 * UNIT),
        cell_size: 20 * UNIT,
        obstacles: vec![vec![false; 40]; 30],
        seed: 0,
    };
    let none = MapResources { energy_positions: vec![], mineral_positions: vec![], scientific_sites: vec![] };
    setup(map, &none, 1)
}

#[test]
fn collected_elsewhere_resource_drops_the_target() {
    let mut sim = open_session();
    sim.resources = vec![ResourceRecord { position: Vec2::new(100 * UNIT, 0), kind: Resource::Mineral, exists: true }];
    sim.miners = vec![
        Miner { position: Vec2::new(105 * UNIT, 0), heading: Vec2::new(0, 0), role: MinerRole::Active },
        Miner { position: Vec2::new(0, 0), heading: Vec2::new(0, 0), role: MinerRole::Idle },
    ];
    sim.discovered_resource = DiscoveredResource { position: Some(Vec2::new(100 * UNIT, 0)) };
    sim.move_miners(100);
    assert!(sim.collection_state.collecting);
    sim.resources[0].exists = false;
    sim.move_miners(100);
    assert_eq!(sim.discovered_resource.position, None);
    assert!(!sim.collection_state.collecting);
    assert_eq!(sim.collection_state.resource_entity, None);
    assert_eq!(sim.miners[0].role, MinerRole::Returning);
    assert_eq!(sim.miners[1].role, MinerRole::Idle);
}

#[test]
fn zones_cover_the_world_of_the_map() {
    let sim = open_session();
    assert_eq!(sim.explored_zones.width, sim.game_map.size.x);
    assert_eq!(sim.explored_zones.height, sim.game_map.size.y);
    assert_eq!(sim.explored_zones.grid.len(), 60);
    assert_eq!(sim.explored_zones.grid[0].len(), 80);
}

#[test]
fn paths_never_revisit_a_cell() {
    let mut map = GameMap {
        size: Vec2::new(100 * UNIT, 100 * UNIT),
        cell_size: 10 * UNIT,
        obstacles: vec![vec![false; 10]; 10],
        seed: 0,
    };
    for r in 2..10 {
        map.obstacles[r][3] = true;
        map.obstacles[r - 2][6] = true;
    }
    let path = find_path_a_star(Vec2::new(-45 * UNIT, 45 * UNIT), Vec2::new(45 * UNIT, -45 * UNIT), &map).unwrap();
    for i in 0..path.len() {
        for j in i + 1..path.len() {
            assert_ne!(path[i], path[j]);
        }
    }
}

#[test]
fn following_a_path_passes_reached_waypoints() {
    let map = GameMap {
        size: Vec2::new(100 * UNIT, 100 * UNIT),
        cell_size: 10 * UNIT,
        obstacles: vec![vec![false; 10]; 10],
        seed: 0,
    };
    let path = find_path_a_star(Vec2::new(-45 * UNIT, -45 * UNIT), Vec2::new(-45 * UNIT, 45 * UNIT), &map).unwrap();
    assert_eq!(path.len(), 10);
    let (pos, _, next) = follow_path(Vec2::new(-45 * UNIT, -45 * UNIT), &path, 0, 10, 1000, &map);
    // The start cell and the next one, 10 units away, are both within reach.
    assert_eq!(next, 2);
    assert_eq!(pos, Vec2::new(-45 * UNIT, -35 * UNIT));
    let end = *path.last().unwrap();
    let (pos, heading, next) = follow_path(end, &path, 9, 10, 1000, &map);
    assert_eq!(next, path.len());
    assert_eq!(pos, end);
    assert_eq!(heading, Vec2::new(0, 0));
}

#[test]
fn step_length_is_speed_times_time_near_the_target() {
    let map = GameMap {
        size: Vec2::new(100 * UNIT, 100 * UNIT),
        cell_size: 10 * UNIT,
        obstacles: vec![vec![false; 10]; 10],
        seed: 0,
    };
    for (tx, ty) in [(1i64, 1i64), (1, 0), (-3, 2), (7000, -1)] {
        let (pos, _) = move_entity_avoiding_obstacles(Vec2::new(0, 0), Vec2::new(tx, ty), 10, 1000, &map);
        let len = ((pos.x * pos.x + pos.y * pos.y) as f64).sqrt();
        assert!((len - 10_000.0).abs() <= 2.0, "step {} toward ({}, {})", len, tx, ty);
    }
}

#[test]
fn spawn_points_are_free_after_setup() {
    let mut map = GameMap {
        size: Vec2::new(800 * UNIT, 600 * UNIT),
        cell_size: 20 * UNIT,
        obstacles: vec![vec![true; 40]; 30],
        seed: 0,
    };
    map.obstacles[0][0] = true;
    let spawns = standard_resources();
    let sim = setup(map, &spawns, 4);
    for v in spawns.energy_positions.iter().chain(spawns.mineral_positions.iter()) {
        assert!(!is_position_blocked(*v, &sim.game_map));
    }
}
