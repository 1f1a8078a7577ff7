//! Setting up a simulation session: the world, the resource spawn points,
//! the base, the explorer and the miners.
use vstd::prelude::*;
use crate::robots::coordinator::{
    CollectionState, DiscoveredResource, ExplorerState, Miner, MinerRole, Resource, ResourceRecord,
    Simulation, DIRECTION_RANGE, POSITION_LIMIT, WANDER_PERIOD_MS,
};
use crate::robots::explore::ExploredZones;
use crate::robots::geometry::{Vec2, UNIT};
use crate::robots::grid::{cleared_where, clear_obstacles_around_resources, near_cell, GameMap, MapResources};
use crate::robots::mapgen::{generate_map, in_safe_zone, safe_zone_clear, NOISE_THRESHOLD};
use crate::robots::random::seeded_rng;

verus! {

/// The world's extent and the obstacle cell size, in world units.
pub const WORLD_WIDTH: i64 = 800;

pub const WORLD_HEIGHT: i64 = 600;

pub const OBSTACLE_CELL: i64 = 20;

/// Side of the cells of the explored-zone grid, in world units.
pub const SEEN_CELL: i64 = 10;

/// Number of miners in a session.
pub const MINER_COUNT: usize = 3;

/// The resources that the spawn points hold: the energy points, then the
/// mineral points, all present.
pub open spec fn spawned(mr: MapResources) -> Seq<ResourceRecord> {
    mr.energy_positions@.map_values(|p: Vec2| ResourceRecord { position: p, kind: Resource::Energy, exists: true })
        + mr.mineral_positions@.map_values(
        |p: Vec2| ResourceRecord { position: p, kind: Resource::Mineral, exists: true },
    )
}

/// Where miner `i` starts: 30 world units apart, 30 below the base.
pub open spec fn miner_start(i: int) -> Vec2 {
    Vec2 { x: (30 * UNIT * (i - 1)) as i64, y: (-30 * UNIT) as i64 }
}

pub open spec fn sites_in_range(mr: MapResources) -> bool {
    forall|i: int| 0 <= i < mr.all_sites().len() ==> (#[trigger] mr.all_sites()[i]).within(POSITION_LIMIT as int)
}

fn push_records(out: &mut Vec<ResourceRecord>, points: &Vec<Vec2>, kind: Resource)
    ensures
        final(out)@ == old(out)@ + points@.map_values(
            |p: Vec2| ResourceRecord { position: p, kind: kind, exists: true },
        ),
{
    let ghost start = out@;
    let mut i: usize = 0;
    while i < points.len()
        invariant
            i <= points@.len(),
            out@ == start + points@.subrange(0, i as int).map_values(
                |p: Vec2| ResourceRecord { position: p, kind: kind, exists: true },
            ),
        decreases points@.len() - i,
    {
        out.push(ResourceRecord { position: points[i], kind, exists: true });
        i = i + 1;
        assert(points@.subrange(0, i as int) =~= points@.subrange(0, i - 1 as int).push(points@[i - 1]));
    }
    assert(points@.subrange(0, i as int) =~= points@);
}

/// Starts a session on `game_map`: frees the cells around every spawn
/// point, places the base at the origin, the explorer 50 world units above
/// it heading right, and `MINER_COUNT` idle miners below it, and spawns a
/// resource at every energy and mineral point.
pub fn setup(game_map: GameMap, map_resources: &MapResources, seed: u32) -> (r: Simulation)
    requires
        game_map.wf(),
        sites_in_range(*map_resources),
    ensures
        r.wf(),
        cleared_where(
            game_map,
            r.game_map,
            |c: int, row: int|
                exists|i: int|
                    0 <= i < map_resources.all_sites().len() && #[trigger] near_cell(
                        game_map,
                        map_resources.all_sites()[i],
                        c,
                        row,
                    ),
        ),
        r.base == (Vec2 { x: 0, y: 0 }),
        r.explorer_position == (Vec2 { x: 0, y: (50 * UNIT) as i64 }),
        r.explorer_state == (ExplorerState {
            current_direction: Vec2 { x: DIRECTION_RANGE, y: 0 },
            time_until_change_ms: WANDER_PERIOD_MS,
        }),
        r.miners@.len() == MINER_COUNT,
        forall|i: int|
            0 <= i < MINER_COUNT ==> (#[trigger] r.miners@[i]).position == miner_start(i) && r.miners@[i].role
                == MinerRole::Idle,
        r.resources@ == spawned(*map_resources),
        r.discovered_resource.position is None,
        r.collection_state == CollectionState::idle(),
        r.explorer_heading == (Vec2 { x: 0, y: 0 }),
        forall|i: int|
            0 <= i < map_resources.all_sites().len() && r.game_map.position_in_grid(
                #[trigger] map_resources.all_sites()[i],
            ) ==> !r.game_map.is_blocked(map_resources.all_sites()[i]),
        r.explored_zones.cell_size == (SEEN_CELL * UNIT) as i64,
        r.explored_zones.rows() == game_map.size.y / ((SEEN_CELL * UNIT) as i64),
        forall|row: int, col: int|
            0 <= row < r.explored_zones.rows() && 0 <= col < r.explored_zones.cols()
                ==> !#[trigger] r.explored_zones.cells()[row][col],
{
    let mut game_map = game_map;
    clear_obstacles_around_resources(&mut game_map, map_resources);
    let mut miners: Vec<Miner> = Vec::new();
    let mut i: usize = 0;
    while i < MINER_COUNT
        invariant
            i <= MINER_COUNT,
            miners@.len() == i,
            forall|j: int|
                0 <= j < i ==> (#[trigger] miners@[j]).position == miner_start(j) && miners@[j].role
                    == MinerRole::Idle && miners@[j].position.within(POSITION_LIMIT as int),
        decreases MINER_COUNT - i,
    {
        let x = 30 * UNIT * (i as i64 - 1);
        miners.push(
            Miner { position: Vec2 { x, y: -30 * UNIT }, heading: Vec2 { x: 0, y: 0 }, role: MinerRole::Idle },
        );
        i = i + 1;
    }
    let mut resources: Vec<ResourceRecord> = Vec::new();
    push_records(&mut resources, &map_resources.energy_positions, Resource::Energy);
    push_records(&mut resources, &map_resources.mineral_positions, Resource::Mineral);
    proof {
        let mr = *map_resources;
        assert forall|j: int| 0 <= j < resources@.len() implies (#[trigger] resources@[j]).position.within(
            POSITION_LIMIT as int,
        ) by {
            let ne = mr.energy_positions@.len() as int;
            if j < ne {
                assert(mr.all_sites()[j] == mr.energy_positions@[j]);
            } else {
                assert(mr.all_sites()[j] == mr.mineral_positions@[j - ne]);
            }
        }
    }
    assert(game_map.size.x / 10_000 <= 100_000_000 && game_map.size.y / 10_000 <= 100_000_000) by (nonlinear_arith)
        requires
            0 < game_map.size.x <= 1_000_000_000_000,
            0 < game_map.size.y <= 1_000_000_000_000,
    ;
    let explored_zones = ExploredZones::new(game_map.size.x, game_map.size.y, SEEN_CELL * UNIT);
    let r = Simulation {
        game_map,
        base: Vec2 { x: 0, y: 0 },
        explorer_position: Vec2 { x: 0, y: 50 * UNIT },
        explorer_heading: Vec2 { x: 0, y: 0 },
        explorer_state: ExplorerState {
            current_direction: Vec2 { x: DIRECTION_RANGE, y: 0 },
            time_until_change_ms: WANDER_PERIOD_MS,
        },
        miners,
        resources,
        discovered_resource: DiscoveredResource { position: None },
        collection_state: CollectionState::default(),
        explored_zones,
        rng: seeded_rng(seed as u64 + 0x1_0000_0000),
    };
    r
}

/// Builds a point from world units.
pub open spec fn at(x: int, y: int) -> Vec2 {
    Vec2 { x: (x * UNIT) as i64, y: (y * UNIT) as i64 }
}

pub open spec fn standard_energy() -> Seq<Vec2> {
    seq![at(200, 150), at(-200, 150), at(0, -150), at(150, 0), at(-150, 0), at(250, -100), at(-250, 100)]
}

pub open spec fn standard_mineral() -> Seq<Vec2> {
    seq![at(-200, -150), at(200, -150), at(0, 150), at(100, -50), at(-100, 50), at(150, 200), at(-150, -200)]
}

/// The spawn points of a session: seven energy points and seven mineral
/// points, no scientific site.
pub fn standard_resources() -> (r: MapResources)
    ensures
        r.energy_positions@ == standard_energy(),
        r.mineral_positions@ == standard_mineral(),
        r.scientific_sites@.len() == 0,
        sites_in_range(r),
{
    let mut energy: Vec<Vec2> = Vec::new();
    energy.push(Vec2 { x: 200 * UNIT, y: 150 * UNIT });
    energy.push(Vec2 { x: -200 * UNIT, y: 150 * UNIT });
    energy.push(Vec2 { x: 0, y: -150 * UNIT });
    energy.push(Vec2 { x: 150 * UNIT, y: 0 });
    energy.push(Vec2 { x: -150 * UNIT, y: 0 });
    energy.push(Vec2 { x: 250 * UNIT, y: -100 * UNIT });
    energy.push(Vec2 { x: -250 * UNIT, y: 100 * UNIT });
    let mut mineral: Vec<Vec2> = Vec::new();
    mineral.push(Vec2 { x: -200 * UNIT, y: -150 * UNIT });
    mineral.push(Vec2 { x: 200 * UNIT, y: -150 * UNIT });
    mineral.push(Vec2 { x: 0, y: 150 * UNIT });
    mineral.push(Vec2 { x: 100 * UNIT, y: -50 * UNIT });
    mineral.push(Vec2 { x: -100 * UNIT, y: 50 * UNIT });
    mineral.push(Vec2 { x: 150 * UNIT, y: 200 * UNIT });
    mineral.push(Vec2 { x: -150 * UNIT, y: -200 * UNIT });
    let r = MapResources { energy_positions: energy, mineral_positions: mineral, scientific_sites: Vec::new() };
    assert(r.energy_positions@ =~= standard_energy());
    assert(r.mineral_positions@ =~= standard_mineral());
    proof {
        assert forall|i: int| 0 <= i < r.all_sites().len() implies (#[trigger] r.all_sites()[i]).within(
            POSITION_LIMIT as int,
        ) by {
            if i < 7 {
                assert(r.all_sites()[i] == r.energy_positions@[i]);
            } else {
                assert(r.all_sites()[i] == r.mineral_positions@[i - 7]);
            }
        }
    }
    r
}

/// The cell `(col, row)` lies within two cells, each way, of the cell of a
/// standard spawn point.
pub open spec fn near_standard_site(map: GameMap, col: int, row: int) -> bool {
    exists|i: int|
        0 <= i < (standard_energy() + standard_mineral()).len() && #[trigger] near_cell(
            map,
            (standard_energy() + standard_mineral())[i],
            col,
            row,
        )
}

/// Builds sessions of an 800 by 600 world cut in cells of 20 world units.
pub struct SimulationPlugin;

impl SimulationPlugin {
    /// Generates the map from `seed` and the noise samples (30 rows of 40,
    /// see `generate_map`), then sets the session up on the standard spawn
    /// points.
    pub fn build(&self, seed: u32, noise: &Vec<Vec<i64>>) -> (r: Simulation)
        requires
            noise@.len() == WORLD_HEIGHT / OBSTACLE_CELL,
            forall|row: int|
                0 <= row < noise@.len() ==> (#[trigger] noise@[row])@.len() == WORLD_WIDTH / OBSTACLE_CELL,
        ensures
            r.wf(),
            r.game_map.size == (Vec2 { x: (WORLD_WIDTH * UNIT) as i64, y: (WORLD_HEIGHT * UNIT) as i64 }),
            r.game_map.cell_size == OBSTACLE_CELL * UNIT,
            r.game_map.seed == seed,
            r.game_map.rows() == WORLD_HEIGHT / OBSTACLE_CELL,
            r.game_map.cols() == WORLD_WIDTH / OBSTACLE_CELL,
            r.resources@ == standard_energy().map_values(
                |p: Vec2| ResourceRecord { position: p, kind: Resource::Energy, exists: true },
            ) + standard_mineral().map_values(
                |p: Vec2| ResourceRecord { position: p, kind: Resource::Mineral, exists: true },
            ),
            r.miners@.len() == MINER_COUNT,
            forall|i: int|
                0 <= i < MINER_COUNT ==> (#[trigger] r.miners@[i]).position == miner_start(i)
                    && r.miners@[i].role == MinerRole::Idle,
            r.explorer_position == at(0, 50),
            r.explorer_heading == (Vec2 { x: 0, y: 0 }),
            r.explorer_state == (ExplorerState {
                current_direction: Vec2 { x: DIRECTION_RANGE, y: 0 },
                time_until_change_ms: WANDER_PERIOD_MS,
            }),
            r.discovered_resource.position is None,
            r.collection_state == CollectionState::idle(),
            safe_zone_clear(r.game_map),
            forall|row: int, col: int|
                r.game_map.in_grid(col, row) && near_standard_site(r.game_map, col, row)
                    ==> !#[trigger] r.game_map.cells()[row][col],
            forall|row: int, col: int|
                r.game_map.in_grid(col, row) && !in_safe_zone(r.game_map.rows(), r.game_map.cols(), col, row)
                    && !near_standard_site(r.game_map, col, row) && noise@[row]@[col] > NOISE_THRESHOLD
                    ==> #[trigger] r.game_map.cells()[row][col],
            r.explored_zones.width == r.game_map.size.x,
            r.explored_zones.height == r.game_map.size.y,
            forall|row: int, col: int|
                0 <= row < r.explored_zones.rows() && 0 <= col < r.explored_zones.cols()
                    ==> !#[trigger] r.explored_zones.cells()[row][col],
    {
        let game_map = generate_map(
            WORLD_WIDTH * UNIT,
            WORLD_HEIGHT * UNIT,
            OBSTACLE_CELL * UNIT,
            seed,
            noise,
        );
        let map_resources = standard_resources();
        let ghost gm = game_map;
        let r = setup(game_map, &map_resources, seed);
        proof {
            let sites = map_resources.all_sites();
            assert(sites =~= standard_energy() + standard_mineral());
            assert forall|row: int, col: int| gm.in_grid(col, row) implies #[trigger] r.game_map.cells()[row][col] == (
            gm.cells()[row][col] && !near_standard_site(r.game_map, col, row)) by {
                if near_standard_site(r.game_map, col, row) {
                    let i = choose|i: int| 0 <= i < sites.len() && #[trigger] near_cell(r.game_map, sites[i], col, row);
                    assert(near_cell(gm, sites[i], col, row));
                }
                if exists|i: int| 0 <= i < sites.len() && #[trigger] near_cell(gm, sites[i], col, row) {
                    let i = choose|i: int| 0 <= i < sites.len() && #[trigger] near_cell(gm, sites[i], col, row);
                    assert(near_cell(r.game_map, sites[i], col, row));
                }
            }
        }
        r
    }
}

} // verus!
