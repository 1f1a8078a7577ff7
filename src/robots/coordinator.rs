//! The simulation session and the state machine that sends the miners to a
//! discovered resource, collects it and brings them home.
use vstd::prelude::*;
use rand::rngs::StdRng;
use crate::robots::explore::{marked, ExploredZones};
use crate::robots::geometry::{dist2, distance_squared, Vec2, UNIT};
use crate::robots::grid::{lemma_in_grid_bounded, GameMap};
use crate::robots::random::draw_range;
use crate::robots::steering::{move_entity_avoiding_obstacles, steer};

verus! {

/// The explorer finds a resource closer than this.
pub const DISCOVERY_RADIUS: i64 = 35 * UNIT;

/// A miner closer than this to its destination has arrived.
pub const ARRIVAL_RADIUS: i64 = 15 * UNIT;

/// The resource pursued is the one closer than this to the shared target.
pub const TARGET_MATCH_RADIUS: i64 = 20 * UNIT;

/// Time that collecting a resource takes.
pub const COLLECTION_MS: i64 = 2000;

/// Speeds, in world units per second.
pub const MINER_SPEED: i64 = 120;

pub const EXPLORER_SPEED: i64 = 100;

/// The explorer keeps a direction this long before drawing a new one.
pub const WANDER_PERIOD_MS: i64 = 2000;

/// Delay before the explorer reconsiders after a blocked move or a bounce.
pub const RETRY_MS: i64 = 1000;

/// Range of each coordinate of the explorer's direction.
pub const DIRECTION_RANGE: i64 = 1000;

/// The explorer aims this many times its direction ahead.
pub const LOOKAHEAD: i64 = 50;

/// The explorer turns back within this distance of the world's edge.
pub const EDGE_MARGIN: i64 = 10 * UNIT;

/// Bound on the time that one tick may cover.
pub const TICK_LIMIT_MS: i64 = 1_000_000;

/// Bound on every position the session holds: half of `COORD_LIMIT`, as
/// for any point of a map.
pub const POSITION_LIMIT: i64 = 500_000_000_000;

#[derive(Clone, Copy, Debug, PartialEq, Eq, Structural)]
pub enum Resource {
    Energy,
    Mineral,
}

/// What a miner is doing.
#[derive(Clone, Copy, Debug, PartialEq, Eq, Structural)]
pub enum MinerRole {
    Idle,
    Active,
    Returning,
}

#[derive(Clone, Copy, Debug, PartialEq, Eq, Structural)]
pub struct ResourceRecord {
    pub position: Vec2,
    pub kind: Resource,
    /// False once the resource has been collected.
    pub exists: bool,
}

#[derive(Clone, Copy, Debug, PartialEq, Eq, Structural)]
pub struct Miner {
    pub position: Vec2,
    pub heading: Vec2,
    pub role: MinerRole,
}

/// The target shared by all miners, if a resource is being pursued.
#[derive(Clone, Copy, Debug, PartialEq, Eq, Structural)]
pub struct DiscoveredResource {
    pub position: Option<Vec2>,
}

/// The explorer's wandering direction and the time left before it changes.
#[derive(Clone, Copy, Debug, PartialEq, Eq, Structural)]
pub struct ExplorerState {
    pub current_direction: Vec2,
    pub time_until_change_ms: i64,
}

/// The collection timer and the resource it is for.
#[derive(Clone, Copy, Debug, PartialEq, Eq, Structural)]
pub struct CollectionState {
    pub elapsed_ms: i64,
    pub resource_entity: Option<usize>,
    pub collecting: bool,
    pub position: Option<Vec2>,
}

impl CollectionState {
    pub open spec fn idle() -> CollectionState {
        CollectionState { elapsed_ms: 0, resource_entity: None, collecting: false, position: None }
    }
}

impl Default for CollectionState {
    /// No collection under way.
    fn default() -> (r: CollectionState)
        ensures
            r == CollectionState::idle(),
    {
        CollectionState { elapsed_ms: 0, resource_entity: None, collecting: false, position: None }
    }
}

/// One simulation session: the world, one explorer, the miners and the
/// resources, with the coordinator's shared state.
pub struct Simulation {
    pub game_map: GameMap,
    pub base: Vec2,
    pub explorer_position: Vec2,
    pub explorer_heading: Vec2,
    pub explorer_state: ExplorerState,
    pub miners: Vec<Miner>,
    pub resources: Vec<ResourceRecord>,
    pub discovered_resource: DiscoveredResource,
    pub collection_state: CollectionState,
    pub explored_zones: ExploredZones,
    pub rng: StdRng,
}

pub open spec fn arrived(p: Vec2, target: Vec2) -> bool {
    dist2(p, target) < ARRIVAL_RADIUS * ARRIVAL_RADIUS
}

/// Resource `i` exists and lies within the discovery radius of `p`.
pub open spec fn discoverable(res: Seq<ResourceRecord>, p: Vec2, i: int) -> bool {
    &&& 0 <= i < res.len()
    &&& res[i].exists
    &&& dist2(p, res[i].position) < DISCOVERY_RADIUS * DISCOVERY_RADIUS
}

/// Resource `i` is the nearest discoverable one from `p`, the first of them
/// on a tie.
pub open spec fn nearest_discoverable(res: Seq<ResourceRecord>, p: Vec2, i: int) -> bool {
    &&& discoverable(res, p, i)
    &&& forall|j: int| #[trigger]
        discoverable(res, p, j) ==> dist2(p, res[i].position) <= dist2(p, res[j].position)
    &&& forall|j: int|
        0 <= j < i && #[trigger] discoverable(res, p, j) ==> dist2(p, res[i].position) < dist2(
            p,
            res[j].position,
        )
}

/// Resource `i` is the first existing one within `TARGET_MATCH_RADIUS` of
/// `target`.
pub open spec fn first_match(res: Seq<ResourceRecord>, target: Vec2, i: int) -> bool {
    &&& 0 <= i < res.len()
    &&& res[i].exists
    &&& dist2(res[i].position, target) < TARGET_MATCH_RADIUS * TARGET_MATCH_RADIUS
    &&& forall|j: int|
        0 <= j < i ==> !(#[trigger] res[j].exists && dist2(res[j].position, target)
            < TARGET_MATCH_RADIUS * TARGET_MATCH_RADIUS)
}

/// Resource `i` still exists and lies within `TARGET_MATCH_RADIUS` of
/// `target`.
pub open spec fn bound_live(res: Seq<ResourceRecord>, i: int, target: Vec2) -> bool {
    &&& 0 <= i < res.len()
    &&& res[i].exists
    &&& dist2(res[i].position, target) < TARGET_MATCH_RADIUS * TARGET_MATCH_RADIUS
}

pub open spec fn no_match(res: Seq<ResourceRecord>, target: Vec2) -> bool {
    forall|j: int|
        0 <= j < res.len() ==> !(#[trigger] res[j].exists && dist2(res[j].position, target)
            < TARGET_MATCH_RADIUS * TARGET_MATCH_RADIUS)
}

pub open spec fn some_idle(ms: Seq<Miner>) -> bool {
    exists|k: int| 0 <= k < ms.len() && #[trigger] ms[k].role == MinerRole::Idle
}

pub open spec fn some_active(ms: Seq<Miner>) -> bool {
    exists|k: int| 0 <= k < ms.len() && #[trigger] ms[k].role == MinerRole::Active
}

/// Some active miner has arrived at `target`.
pub open spec fn some_arrived(ms: Seq<Miner>, target: Vec2) -> bool {
    exists|k: int|
        0 <= k < ms.len() && #[trigger] ms[k].role == MinerRole::Active && arrived(
            ms[k].position,
            target,
        )
}

pub open spec fn activated(m: Miner) -> Miner {
    if m.role == MinerRole::Idle {
        Miner { position: m.position, heading: m.heading, role: MinerRole::Active }
    } else {
        m
    }
}

pub open spec fn recalled(m: Miner) -> Miner {
    if m.role == MinerRole::Active {
        Miner { position: m.position, heading: m.heading, role: MinerRole::Returning }
    } else {
        m
    }
}

/// A returning miner at the base turns idle; one away from it steers home.
pub open spec fn homeward(m: Miner, map: GameMap, base: Vec2, dt: int) -> Miner {
    if m.role == MinerRole::Returning {
        if arrived(m.position, base) {
            Miner { position: m.position, heading: m.heading, role: MinerRole::Idle }
        } else {
            let (p, h) = steer(map, m.position, base, MINER_SPEED * dt);
            Miner { position: p, heading: h, role: MinerRole::Returning }
        }
    } else {
        m
    }
}

/// An active miner that has not arrived at `target` steers toward it.
pub open spec fn advanced(m: Miner, map: GameMap, target: Vec2, dt: int) -> Miner {
    if m.role == MinerRole::Active && !arrived(m.position, target) {
        let (p, h) = steer(map, m.position, target, MINER_SPEED * dt);
        Miner { position: p, heading: h, role: m.role }
    } else {
        m
    }
}

impl Simulation {
    /// Every position within `POSITION_LIMIT`, the maps well formed, the
    /// timers in range and the collected resource's index valid.
    pub open spec fn wf(&self) -> bool {
        &&& self.game_map.wf()
        &&& self.explored_zones.wf()
        &&& self.base.within(POSITION_LIMIT as int)
        &&& self.explorer_position.within(POSITION_LIMIT as int)
        &&& self.explorer_state.current_direction.within(DIRECTION_RANGE as int)
        &&& 0 < self.explorer_state.time_until_change_ms <= WANDER_PERIOD_MS
        &&& forall|k: int|
            0 <= k < self.miners@.len() ==> (#[trigger] self.miners@[k]).position.within(
                POSITION_LIMIT as int,
            )
        &&& forall|i: int|
            0 <= i < self.resources@.len() ==> (#[trigger] self.resources@[i]).position.within(
                POSITION_LIMIT as int,
            )
        &&& 0 <= self.collection_state.elapsed_ms < COLLECTION_MS
        &&& self.collection_state.resource_entity matches Some(i) ==> i < self.resources@.len()
        &&& self.collection_state.collecting ==> self.collection_state.resource_entity is Some
        &&& self.collection_state.resource_entity matches Some(i) ==> self.discovered_resource.position matches Some(
            p,
        ) && bound_live(self.resources@, i as int, p)
        &&& self.discovered_resource.position matches Some(p) ==> p.within(POSITION_LIMIT as int)
        &&& self.explored_zones.width == self.game_map.size.x
        &&& self.explored_zones.height == self.game_map.size.y
    }

    /// The discovery phase: with no target and some idle miner, the nearest
    /// discoverable resource from the explorer becomes the target and every
    /// idle miner turns active; else nothing changes.
    pub open spec fn discovery_step(pre: Simulation, post: Simulation) -> bool {
        &&& post.game_map == pre.game_map
        &&& post.base == pre.base
        &&& post.explorer_position == pre.explorer_position
        &&& post.explorer_heading == pre.explorer_heading
        &&& post.explorer_state == pre.explorer_state
        &&& post.resources@ == pre.resources@
        &&& post.collection_state == pre.collection_state
        &&& post.explored_zones == pre.explored_zones
        &&& if pre.discovered_resource.position is None && some_idle(pre.miners@) && exists|i: int|
            discoverable(pre.resources@, pre.explorer_position, i) {
            &&& exists|i: int|
                #[trigger] nearest_discoverable(pre.resources@, pre.explorer_position, i)
                    && post.discovered_resource.position == Some(pre.resources@[i].position)
            &&& post.miners@ == pre.miners@.map_values(|m: Miner| activated(m))
        } else {
            &&& post.discovered_resource == pre.discovered_resource
            &&& post.miners@ == pre.miners@
        }
    }

    /// The miners' phase: returning miners go home; the collection timer
    /// runs and, on expiry, the resource goes and every active miner turns
    /// back; else active miners head for the target, and the first arrival
    /// starts the timer. A target with no resource near it is dropped and
    /// the active miners recalled.
    pub open spec fn miners_step(pre: Simulation, post: Simulation, dt: int) -> bool {
        let homed = pre.miners@.map_values(|m: Miner| homeward(m, pre.game_map, pre.base, dt));
        let cs = pre.collection_state;
        let expired = cs.collecting && cs.elapsed_ms + dt >= COLLECTION_MS;
        let elapsed = if cs.collecting { cs.elapsed_ms + dt } else { cs.elapsed_ms as int };
        &&& post.game_map == pre.game_map
        &&& post.base == pre.base
        &&& post.explorer_position == pre.explorer_position
        &&& post.explorer_heading == pre.explorer_heading
        &&& post.explorer_state == pre.explorer_state
        &&& post.explored_zones == pre.explored_zones
        &&& if expired {
            &&& post.miners@ == homed.map_values(|m: Miner| recalled(m))
            &&& post.resources@ == (match cs.resource_entity {
                Some(i) => pre.resources@.update(
                    i as int,
                    ResourceRecord {
                        position: pre.resources@[i as int].position,
                        kind: pre.resources@[i as int].kind,
                        exists: false,
                    },
                ),
                None => pre.resources@,
            })
            &&& post.discovered_resource.position is None
            &&& post.collection_state == CollectionState::idle()
        } else if pre.discovered_resource.position is None {
            &&& post.miners@ == homed
            &&& post.resources@ == pre.resources@
            &&& post.discovered_resource == pre.discovered_resource
            &&& post.collection_state == CollectionState { elapsed_ms: elapsed as i64, ..cs }
        } else {
            let target = pre.discovered_resource.position->Some_0;
            let keep = cs.resource_entity is Some;
            let stale = cs.resource_entity matches Some(i) && !bound_live(pre.resources@, i as int, target);
            &&& post.resources@ == pre.resources@
            &&& if stale || (!keep && no_match(pre.resources@, target)) {
                &&& post.miners@ == homed.map_values(|m: Miner| recalled(m))
                &&& post.discovered_resource.position is None
                &&& post.collection_state == CollectionState::idle()
            } else {
                let starts = !cs.collecting && some_arrived(homed, target);
                &&& post.miners@ == homed.map_values(|m: Miner| advanced(m, pre.game_map, target, dt))
                &&& post.discovered_resource == pre.discovered_resource
                &&& post.collection_state.position == Some(target)
                &&& post.collection_state.collecting == (cs.collecting || starts)
                &&& post.collection_state.elapsed_ms == (if starts { 0 } else { elapsed })
                &&& if keep {
                    post.collection_state.resource_entity == cs.resource_entity
                } else {
                    exists|i: int|
                        #[trigger] first_match(pre.resources@, target, i)
                            && post.collection_state.resource_entity == Some(i as usize)
                }
            }
        }
    }

    /// The explorer's phase, given the two fresh directions that it draws
    /// when its time runs out and when it is stuck. It waits while a
    /// resource is pursued; else it steers `LOOKAHEAD` times its direction
    /// ahead, takes a fresh direction when stuck and turns back near the
    /// world's edge.
    pub open spec fn explorer_step(pre: Simulation, post: Simulation, dt: int, fresh: Vec2, stuck_fresh: Vec2) -> bool {
        let st = pre.explorer_state;
        let paused = pre.discovered_resource.position is Some || some_active(pre.miners@);
        let t = st.time_until_change_ms - dt;
        let dir = if t <= 0 { fresh } else { st.current_direction };
        let time = if t <= 0 { WANDER_PERIOD_MS as int } else { t };
        let p = pre.explorer_position;
        let target = Vec2 { x: (p.x + LOOKAHEAD * dir.x) as i64, y: (p.y + LOOKAHEAD * dir.y) as i64 };
        let (np, nh) = steer(pre.game_map, p, target, EXPLORER_SPEED * dt);
        let w = pre.game_map.size.x;
        let h = pre.game_map.size.y;
        let beyond = 2 * np.x > w - 2 * EDGE_MARGIN || 2 * np.x < -(w - 2 * EDGE_MARGIN) || 2 * np.y
            > h - 2 * EDGE_MARGIN || 2 * np.y < -(h - 2 * EDGE_MARGIN);
        &&& post.game_map == pre.game_map
        &&& post.base == pre.base
        &&& post.miners@ == pre.miners@
        &&& post.resources@ == pre.resources@
        &&& post.discovered_resource == pre.discovered_resource
        &&& post.collection_state == pre.collection_state
        &&& post.explored_zones == pre.explored_zones
        &&& if paused {
            &&& post.explorer_position == pre.explorer_position
            &&& post.explorer_heading == pre.explorer_heading
            &&& post.explorer_state == pre.explorer_state
        } else if np == p {
            &&& post.explorer_position == p
            &&& post.explorer_heading == pre.explorer_heading
            &&& post.explorer_state == (ExplorerState { current_direction: stuck_fresh, time_until_change_ms: RETRY_MS })
        } else {
            &&& post.explorer_position == np
            &&& post.explorer_heading == nh
            &&& post.explorer_state == (if beyond {
                ExplorerState {
                    current_direction: Vec2 { x: (-dir.x) as i64, y: (-dir.y) as i64 },
                    time_until_change_ms: RETRY_MS,
                }
            } else {
                ExplorerState { current_direction: dir, time_until_change_ms: time as i64 }
            })
        }
    }

    /// The marking phase: the explorer's surroundings are marked seen.
    pub open spec fn explored_step(pre: Simulation, post: Simulation) -> bool {
        &&& post.game_map == pre.game_map
        &&& post.base == pre.base
        &&& post.explorer_position == pre.explorer_position
        &&& post.explorer_heading == pre.explorer_heading
        &&& post.explorer_state == pre.explorer_state
        &&& post.miners@ == pre.miners@
        &&& post.resources@ == pre.resources@
        &&& post.discovered_resource == pre.discovered_resource
        &&& post.collection_state == pre.collection_state
        &&& post.explored_zones.width == pre.explored_zones.width
        &&& post.explored_zones.height == pre.explored_zones.height
        &&& post.explored_zones.cell_size == pre.explored_zones.cell_size
        &&& post.explored_zones.cells() == marked(
            pre.explored_zones.cells(),
            pre.explored_zones.col_of(pre.explorer_position),
            pre.explored_zones.row_of(pre.explorer_position),
        )
    }
}

impl Simulation {
    /// The discovery phase: with no target and some idle miner, the nearest
    /// existing resource within `DISCOVERY_RADIUS` of the explorer becomes
    /// the shared target and every idle miner turns active.
    pub fn check_resource_discovery(&mut self)
        requires
            old(self).wf(),
        ensures
            final(self).wf(),
            Simulation::discovery_step(*old(self), *final(self)),
    {
        if self.discovered_resource.position.is_some() {
            return;
        }
        let n = self.miners.len();
        let mut any_idle = false;
        let mut k: usize = 0;
        while k < n
            invariant
                n == self.miners@.len(),
                k <= n,
                any_idle ==> some_idle(self.miners@),
                !any_idle ==> forall|j: int| 0 <= j < k ==> (#[trigger] self.miners@[j]).role != MinerRole::Idle,
            decreases n - k,
        {
            if self.miners[k].role == MinerRole::Idle {
                any_idle = true;
            }
            k = k + 1;
        }
        if !any_idle {
            return;
        }
        let p = self.explorer_position;
        let nr = self.resources.len();
        let mut best: Option<usize> = None;
        let mut best_d: i128 = 0;
        let mut i: usize = 0;
        while i < nr
            invariant
                self.wf(),
                p == self.explorer_position,
                nr == self.resources@.len(),
                i <= nr,
                best is None ==> forall|j: int| 0 <= j < i ==> !#[trigger] discoverable(self.resources@, p, j),
                best matches Some(b) ==> {
                    &&& b < i
                    &&& discoverable(self.resources@, p, b as int)
                    &&& best_d == dist2(p, self.resources@[b as int].position)
                    &&& forall|j: int|
                        0 <= j < i && #[trigger] discoverable(self.resources@, p, j) ==> best_d <= dist2(
                            p,
                            self.resources@[j].position,
                        )
                    &&& forall|j: int|
                        0 <= j < b && #[trigger] discoverable(self.resources@, p, j) ==> best_d < dist2(
                            p,
                            self.resources@[j].position,
                        )
                },
            decreases nr - i,
        {
            let r = self.resources[i];
            let d = distance_squared(p, r.position);
            if r.exists && d < (DISCOVERY_RADIUS as i128) * (DISCOVERY_RADIUS as i128) {
                let better = match best {
                    None => true,
                    Some(_) => d < best_d,
                };
                if better {
                    best = Some(i);
                    best_d = d;
                }
            }
            i = i + 1;
        }
        match best {
            None => {},
            Some(b) => {
                let ghost pre = *self;
                assert(nearest_discoverable(self.resources@, p, b as int));
                self.discovered_resource = DiscoveredResource { position: Some(self.resources[b].position) };
                self.activate_idle_miners();
                assert(self.miners@ =~= pre.miners@.map_values(|m: Miner| activated(m)));
            },
        }
    }

    fn activate_idle_miners(&mut self)
        requires
            old(self).wf(),
        ensures
            final(self).wf(),
            final(self).miners@ == old(self).miners@.map_values(|m: Miner| activated(m)),
            final(self).game_map == old(self).game_map,
            final(self).base == old(self).base,
            final(self).explorer_position == old(self).explorer_position,
            final(self).explorer_heading == old(self).explorer_heading,
            final(self).explorer_state == old(self).explorer_state,
            final(self).resources@ == old(self).resources@,
            final(self).discovered_resource == old(self).discovered_resource,
            final(self).collection_state == old(self).collection_state,
            final(self).explored_zones == old(self).explored_zones,
    {
        let ghost pre = *self;
        let n = self.miners.len();
        let mut k: usize = 0;
        while k < n
            invariant
                self.wf(),
                n == self.miners@.len(),
                pre.miners@.len() == n,
                k <= n,
                forall|j: int| 0 <= j < k ==> #[trigger] self.miners@[j] == activated(pre.miners@[j]),
                forall|j: int| k <= j < n ==> #[trigger] self.miners@[j] == pre.miners@[j],
                self.game_map == pre.game_map,
                self.base == pre.base,
                self.explorer_position == pre.explorer_position,
                self.explorer_heading == pre.explorer_heading,
                self.explorer_state == pre.explorer_state,
                self.resources@ == pre.resources@,
                self.discovered_resource == pre.discovered_resource,
                self.collection_state == pre.collection_state,
                self.explored_zones == pre.explored_zones,
            decreases n - k,
        {
            let m = self.miners[k];
            if m.role == MinerRole::Idle {
                self.miners.set(k, Miner { position: m.position, heading: m.heading, role: MinerRole::Active });
            }
            k = k + 1;
        }
        assert(self.miners@ =~= pre.miners@.map_values(|m: Miner| activated(m)));
    }

    /// Turns every active miner back toward the base.
    fn recall_active_miners(&mut self)
        requires
            old(self).wf(),
        ensures
            final(self).wf(),
            final(self).miners@ == old(self).miners@.map_values(|m: Miner| recalled(m)),
            final(self).game_map == old(self).game_map,
            final(self).base == old(self).base,
            final(self).explorer_position == old(self).explorer_position,
            final(self).explorer_heading == old(self).explorer_heading,
            final(self).explorer_state == old(self).explorer_state,
            final(self).resources@ == old(self).resources@,
            final(self).discovered_resource == old(self).discovered_resource,
            final(self).collection_state == old(self).collection_state,
            final(self).explored_zones == old(self).explored_zones,
    {
        let ghost pre = *self;
        let n = self.miners.len();
        let mut k: usize = 0;
        while k < n
            invariant
                self.wf(),
                n == self.miners@.len(),
                pre.miners@.len() == n,
                k <= n,
                forall|j: int| 0 <= j < k ==> #[trigger] self.miners@[j] == recalled(pre.miners@[j]),
                forall|j: int| k <= j < n ==> #[trigger] self.miners@[j] == pre.miners@[j],
                self.game_map == pre.game_map,
                self.base == pre.base,
                self.explorer_position == pre.explorer_position,
                self.explorer_heading == pre.explorer_heading,
                self.explorer_state == pre.explorer_state,
                self.resources@ == pre.resources@,
                self.discovered_resource == pre.discovered_resource,
                self.collection_state == pre.collection_state,
                self.explored_zones == pre.explored_zones,
            decreases n - k,
        {
            let m = self.miners[k];
            if m.role == MinerRole::Active {
                self.miners.set(k, Miner { position: m.position, heading: m.heading, role: MinerRole::Returning });
            }
            k = k + 1;
        }
        assert(self.miners@ =~= pre.miners@.map_values(|m: Miner| recalled(m)));
    }

    /// Moves the returning miners home; those at the base turn idle.
    fn return_miners(&mut self, dt: i64)
        requires
            old(self).wf(),
            0 <= dt <= TICK_LIMIT_MS,
        ensures
            final(self).wf(),
            final(self).miners@ == old(self).miners@.map_values(
                |m: Miner| homeward(m, old(self).game_map, old(self).base, dt as int),
            ),
            final(self).game_map == old(self).game_map,
            final(self).base == old(self).base,
            final(self).explorer_position == old(self).explorer_position,
            final(self).explorer_heading == old(self).explorer_heading,
            final(self).explorer_state == old(self).explorer_state,
            final(self).resources@ == old(self).resources@,
            final(self).discovered_resource == old(self).discovered_resource,
            final(self).collection_state == old(self).collection_state,
            final(self).explored_zones == old(self).explored_zones,
    {
        let ghost pre = *self;
        let n = self.miners.len();
        let mut k: usize = 0;
        while k < n
            invariant
                self.wf(),
                0 <= dt <= TICK_LIMIT_MS,
                n == self.miners@.len(),
                pre.miners@.len() == n,
                k <= n,
                forall|j: int|
                    0 <= j < k ==> #[trigger] self.miners@[j] == homeward(
                        pre.miners@[j],
                        pre.game_map,
                        pre.base,
                        dt as int,
                    ),
                forall|j: int| k <= j < n ==> #[trigger] self.miners@[j] == pre.miners@[j],
                self.game_map == pre.game_map,
                self.base == pre.base,
                self.explorer_position == pre.explorer_position,
                self.explorer_heading == pre.explorer_heading,
                self.explorer_state == pre.explorer_state,
                self.resources@ == pre.resources@,
                self.discovered_resource == pre.discovered_resource,
                self.collection_state == pre.collection_state,
                self.explored_zones == pre.explored_zones,
            decreases n - k,
        {
            let m = self.miners[k];
            if m.role == MinerRole::Returning {
                let d = distance_squared(m.position, self.base);
                if d < (ARRIVAL_RADIUS as i128) * (ARRIVAL_RADIUS as i128) {
                    self.miners.set(k, Miner { position: m.position, heading: m.heading, role: MinerRole::Idle });
                } else {
                    let (np, nh) = move_entity_avoiding_obstacles(m.position, self.base, MINER_SPEED, dt, &self.game_map);
                    proof {
                        if np != m.position {
                            lemma_in_grid_bounded(&self.game_map, np);
                        }
                    }
                    self.miners.set(k, Miner { position: np, heading: nh, role: MinerRole::Returning });
                }
            }
            k = k + 1;
        }
        assert(self.miners@ =~= pre.miners@.map_values(
            |m: Miner| homeward(m, pre.game_map, pre.base, dt as int),
        ));
    }

    /// Moves the active miners that have not arrived toward `target`, and
    /// tells whether some active miner had arrived.
    fn advance_miners(&mut self, target: Vec2, dt: i64) -> (some: bool)
        requires
            old(self).wf(),
            target.within(POSITION_LIMIT as int),
            0 <= dt <= TICK_LIMIT_MS,
        ensures
            final(self).wf(),
            some == some_arrived(old(self).miners@, target),
            final(self).miners@ == old(self).miners@.map_values(
                |m: Miner| advanced(m, old(self).game_map, target, dt as int),
            ),
            final(self).game_map == old(self).game_map,
            final(self).base == old(self).base,
            final(self).explorer_position == old(self).explorer_position,
            final(self).explorer_heading == old(self).explorer_heading,
            final(self).explorer_state == old(self).explorer_state,
            final(self).resources@ == old(self).resources@,
            final(self).discovered_resource == old(self).discovered_resource,
            final(self).collection_state == old(self).collection_state,
            final(self).explored_zones == old(self).explored_zones,
    {
        let ghost pre = *self;
        let n = self.miners.len();
        let mut some = false;
        let mut k: usize = 0;
        while k < n
            invariant
                self.wf(),
                target.within(POSITION_LIMIT as int),
                0 <= dt <= TICK_LIMIT_MS,
                n == self.miners@.len(),
                pre.miners@.len() == n,
                k <= n,
                some <==> exists|j: int|
                    0 <= j < k && #[trigger] pre.miners@[j].role == MinerRole::Active && arrived(
                        pre.miners@[j].position,
                        target,
                    ),
                forall|j: int|
                    0 <= j < k ==> #[trigger] self.miners@[j] == advanced(
                        pre.miners@[j],
                        pre.game_map,
                        target,
                        dt as int,
                    ),
                forall|j: int| k <= j < n ==> #[trigger] self.miners@[j] == pre.miners@[j],
                self.game_map == pre.game_map,
                self.base == pre.base,
                self.explorer_position == pre.explorer_position,
                self.explorer_heading == pre.explorer_heading,
                self.explorer_state == pre.explorer_state,
                self.resources@ == pre.resources@,
                self.discovered_resource == pre.discovered_resource,
                self.collection_state == pre.collection_state,
                self.explored_zones == pre.explored_zones,
            decreases n - k,
        {
            let m = self.miners[k];
            if m.role == MinerRole::Active {
                let d = distance_squared(m.position, target);
                let radius = ARRIVAL_RADIUS as i128;
                if d < radius * radius {
                    some = true;
                } else {
                    let (np, nh) = move_entity_avoiding_obstacles(m.position, target, MINER_SPEED, dt, &self.game_map);
                    proof {
                        if np != m.position {
                            lemma_in_grid_bounded(&self.game_map, np);
                        }
                    }
                    self.miners.set(k, Miner { position: np, heading: nh, role: MinerRole::Active });
                }
            }
            k = k + 1;
        }
        assert(self.miners@ =~= pre.miners@.map_values(
            |m: Miner| advanced(m, pre.game_map, target, dt as int),
        ));
        some
    }

    /// The first existing resource within `TARGET_MATCH_RADIUS` of `target`.
    fn find_target_resource(&self, target: Vec2) -> (r: Option<usize>)
        requires
            self.wf(),
            target.within(POSITION_LIMIT as int),
        ensures
            r matches Some(i) ==> first_match(self.resources@, target, i as int),
            r is None ==> no_match(self.resources@, target),
    {
        let nr = self.resources.len();
        let mut i: usize = 0;
        while i < nr
            invariant
                self.wf(),
                target.within(POSITION_LIMIT as int),
                nr == self.resources@.len(),
                i <= nr,
                forall|j: int|
                    0 <= j < i ==> !(#[trigger] self.resources@[j].exists && dist2(
                        self.resources@[j].position,
                        target,
                    ) < TARGET_MATCH_RADIUS * TARGET_MATCH_RADIUS),
            decreases nr - i,
        {
            let r = self.resources[i];
            let d = distance_squared(r.position, target);
            if r.exists && d < (TARGET_MATCH_RADIUS as i128) * (TARGET_MATCH_RADIUS as i128) {
                return Some(i);
            }
            i = i + 1;
        }
        None
    }

    /// The miners' phase: returning miners head home and turn idle at the
    /// base; the collection timer runs and, once `COLLECTION_MS` have gone,
    /// the resource is removed, the target cleared and every active miner
    /// sent home; else active miners head for the target and the first tick
    /// with an arrival starts the timer. A target with no resource left near
    /// it is dropped and the active miners sent home.
    pub fn move_miners(&mut self, dt: i64)
        requires
            old(self).wf(),
            0 <= dt <= TICK_LIMIT_MS,
        ensures
            final(self).wf(),
            Simulation::miners_step(*old(self), *final(self), dt as int),
    {
        let ghost pre = *self;
        self.return_miners(dt);
        if self.collection_state.collecting {
            let elapsed = self.collection_state.elapsed_ms + dt;
            if elapsed >= COLLECTION_MS {
                match self.collection_state.resource_entity {
                    Some(i) => {
                        let r = self.resources[i];
                        self.resources.set(i, ResourceRecord { position: r.position, kind: r.kind, exists: false });
                    },
                    None => {},
                }
                self.collection_state = CollectionState::default();
                self.discovered_resource = DiscoveredResource { position: None };
                self.recall_active_miners();
                return;
            }
            self.collection_state.elapsed_ms = elapsed;
        }
        let target = match self.discovered_resource.position {
            None => {
                return;
            },
            Some(t) => t,
        };
        self.collection_state.position = Some(target);
        let stale = match self.collection_state.resource_entity {
            Some(i) => {
                let r = self.resources[i];
                let radius = TARGET_MATCH_RADIUS as i128;
                !(r.exists && distance_squared(r.position, target) < radius * radius)
            },
            None => false,
        };
        if stale {
            self.collection_state = CollectionState::default();
            self.discovered_resource = DiscoveredResource { position: None };
            self.recall_active_miners();
            return;
        }
        if !self.collection_state.collecting && self.collection_state.resource_entity.is_none() {
            let found = self.find_target_resource(target);
            proof {
                if let Some(i) = found {
                    assert(first_match(pre.resources@, target, i as int));
                }
            }
            self.collection_state.resource_entity = found;
        }
        if self.collection_state.resource_entity.is_none() {
            self.collection_state = CollectionState::default();
            self.discovered_resource = DiscoveredResource { position: None };
            self.recall_active_miners();
            return;
        }
        let arrivals = self.advance_miners(target, dt);
        if arrivals && !self.collection_state.collecting {
            self.collection_state.collecting = true;
            self.collection_state.elapsed_ms = 0;
        }
    }
}

impl Simulation {
    /// The explorer's phase, given the direction to take when its time runs
    /// out (`fresh`) and the one to take when it is stuck (`stuck_fresh`).
    /// While a resource is pursued it waits. Else it steers toward the point
    /// `LOOKAHEAD` times its direction ahead; when it cannot move it takes
    /// `stuck_fresh` and retries after `RETRY_MS`; when it ends up within
    /// `EDGE_MARGIN` of the world's edge it turns around.
    pub fn wander(&mut self, dt: i64, fresh: Vec2, stuck_fresh: Vec2)
        requires
            old(self).wf(),
            0 <= dt <= TICK_LIMIT_MS,
            fresh.within(DIRECTION_RANGE as int),
            stuck_fresh.within(DIRECTION_RANGE as int),
        ensures
            final(self).wf(),
            Simulation::explorer_step(*old(self), *final(self), dt as int, fresh, stuck_fresh),
    {
        if self.discovered_resource.position.is_some() {
            return;
        }
        let n = self.miners.len();
        let mut k: usize = 0;
        while k < n
            invariant
                self.wf(),
                n == self.miners@.len(),
                k <= n,
                forall|j: int| 0 <= j < k ==> (#[trigger] self.miners@[j]).role != MinerRole::Active,
            decreases n - k,
        {
            if self.miners[k].role == MinerRole::Active {
                return;
            }
            k = k + 1;
        }
        let t = self.explorer_state.time_until_change_ms - dt;
        let (dir, time) = if t <= 0 {
            (fresh, WANDER_PERIOD_MS)
        } else {
            (self.explorer_state.current_direction, t)
        };
        let p = self.explorer_position;
        let target = Vec2 { x: p.x + LOOKAHEAD * dir.x, y: p.y + LOOKAHEAD * dir.y };
        let (np, nh) = move_entity_avoiding_obstacles(p, target, EXPLORER_SPEED, dt, &self.game_map);
        if np == p {
            self.explorer_state = ExplorerState { current_direction: stuck_fresh, time_until_change_ms: RETRY_MS };
        } else {
            proof {
                lemma_in_grid_bounded(&self.game_map, np);
            }
            self.explorer_position = np;
            self.explorer_heading = nh;
            let w = self.game_map.size.x;
            let h = self.game_map.size.y;
            if 2 * np.x > w - 2 * EDGE_MARGIN || 2 * np.x < -(w - 2 * EDGE_MARGIN) || 2 * np.y > h - 2
                * EDGE_MARGIN || 2 * np.y < -(h - 2 * EDGE_MARGIN) {
                self.explorer_state = ExplorerState {
                    current_direction: Vec2 { x: -dir.x, y: -dir.y },
                    time_until_change_ms: RETRY_MS,
                };
            } else {
                self.explorer_state = ExplorerState { current_direction: dir, time_until_change_ms: time };
            }
        }
    }

    /// A direction drawn at random, each coordinate in
    /// `[-DIRECTION_RANGE, DIRECTION_RANGE]`.
    fn random_direction(&mut self) -> (d: Vec2)
        requires
            old(self).wf(),
        ensures
            d.within(DIRECTION_RANGE as int),
            final(self).wf(),
            final(self).game_map == old(self).game_map,
            final(self).base == old(self).base,
            final(self).explorer_position == old(self).explorer_position,
            final(self).explorer_heading == old(self).explorer_heading,
            final(self).explorer_state == old(self).explorer_state,
            final(self).miners@ == old(self).miners@,
            final(self).resources@ == old(self).resources@,
            final(self).discovered_resource == old(self).discovered_resource,
            final(self).collection_state == old(self).collection_state,
            final(self).explored_zones == old(self).explored_zones,
    {
        let x = draw_range(&mut self.rng, -DIRECTION_RANGE, DIRECTION_RANGE + 1);
        let y = draw_range(&mut self.rng, -DIRECTION_RANGE, DIRECTION_RANGE + 1);
        Vec2 { x, y }
    }

    /// The explorer's phase, with the fresh directions drawn from the
    /// session's generator.
    pub fn move_explorer(&mut self, dt: i64)
        requires
            old(self).wf(),
            0 <= dt <= TICK_LIMIT_MS,
        ensures
            final(self).wf(),
            exists|fresh: Vec2, stuck_fresh: Vec2|
                fresh.within(DIRECTION_RANGE as int) && stuck_fresh.within(DIRECTION_RANGE as int)
                    && #[trigger] Simulation::explorer_step(*old(self), *final(self), dt as int, fresh, stuck_fresh),
    {
        let ghost pre = *self;
        let fresh = self.random_direction();
        let stuck_fresh = self.random_direction();
        let ghost mid = *self;
        self.wander(dt, fresh, stuck_fresh);
        assert(Simulation::explorer_step(mid, *self, dt as int, fresh, stuck_fresh));
        assert(mid.miners@ == pre.miners@);
        assert(Simulation::explorer_step(pre, *self, dt as int, fresh, stuck_fresh));
    }

    /// The marking phase: the cells around the explorer are marked seen.
    pub fn update_explored_map(&mut self)
        requires
            old(self).wf(),
        ensures
            final(self).wf(),
            Simulation::explored_step(*old(self), *final(self)),
    {
        let p = self.explorer_position;
        self.explored_zones.mark_seen(p);
    }

    /// One tick of `dt_ms` milliseconds: discovery, then the explorer's
    /// move, then the miners', then the marking of what the explorer sees.
    pub fn tick(&mut self, dt_ms: i64)
        requires
            old(self).wf(),
            0 <= dt_ms <= TICK_LIMIT_MS,
        ensures
            final(self).wf(),
            exists|a: Simulation, b: Simulation, c: Simulation, fresh: Vec2, stuck_fresh: Vec2|
                Simulation::discovery_step(*old(self), a) && fresh.within(DIRECTION_RANGE as int)
                    && stuck_fresh.within(DIRECTION_RANGE as int) && #[trigger] Simulation::explorer_step(
                    a,
                    b,
                    dt_ms as int,
                    fresh,
                    stuck_fresh,
                ) && #[trigger] Simulation::miners_step(b, c, dt_ms as int)
                    && Simulation::explored_step(c, *final(self)),
    {
        let ghost pre = *self;
        self.check_resource_discovery();
        let ghost a = *self;
        self.move_explorer(dt_ms);
        let ghost b = *self;
        self.move_miners(dt_ms);
        let ghost c = *self;
        self.update_explored_map();
        proof {
            let (fresh, stuck_fresh) = choose|fresh: Vec2, stuck_fresh: Vec2|
                fresh.within(DIRECTION_RANGE as int) && stuck_fresh.within(DIRECTION_RANGE as int)
                    && #[trigger] Simulation::explorer_step(a, b, dt_ms as int, fresh, stuck_fresh);
            assert(Simulation::discovery_step(pre, a));
            assert(Simulation::miners_step(b, c, dt_ms as int));
            assert(Simulation::explored_step(c, *self));
        }
    }
}

/// The time covered by the first `k` ticks.
pub open spec fn elapsed_after(dts: Seq<int>, k: int) -> int
    decreases k,
{
    if k <= 0 {
        0
    } else {
        elapsed_after(dts, k - 1) + dts[k - 1]
    }
}

proof fn lemma_elapsed_monotone(dts: Seq<int>, a: int, b: int)
    requires
        0 <= a <= b <= dts.len(),
        forall|k: int| 0 <= k < dts.len() ==> 0 <= #[trigger] dts[k],
    ensures
        elapsed_after(dts, a) <= elapsed_after(dts, b),
    decreases b - a,
{
    if a < b {
        lemma_elapsed_monotone(dts, a, b - 1);
    }
}

/// A run of miners' phases, state `k + 1` following state `k` by a tick of
/// `dts[k]`, with nothing else happening in between.
pub open spec fn miners_run(states: Seq<Simulation>, dts: Seq<int>) -> bool {
    &&& states.len() == dts.len() + 1
    &&& forall|k: int|
        0 <= k < dts.len() ==> (#[trigger] states[k]).wf() && 0 <= dts[k] && Simulation::miners_step(
            states[k],
            states[k + 1],
            dts[k],
        )
}

/// One miners' phase during collection, before the timer runs out.
proof fn lemma_collecting_step(pre: Simulation, post: Simulation, dt: int, e: usize, j: int)
    requires
        pre.wf(),
        0 <= dt,
        Simulation::miners_step(pre, post, dt),
        pre.collection_state.collecting,
        pre.collection_state.resource_entity == Some(e),
        0 <= j < pre.miners@.len(),
        pre.miners@[j].role == MinerRole::Active,
        pre.collection_state.elapsed_ms + dt < COLLECTION_MS,
    ensures
        post.collection_state.collecting,
        post.collection_state.elapsed_ms == pre.collection_state.elapsed_ms + dt,
        post.collection_state.resource_entity == Some(e),
        post.discovered_resource == pre.discovered_resource,
        post.resources@ == pre.resources@,
        post.miners@.len() == pre.miners@.len(),
        post.miners@[j].role == MinerRole::Active,
{
    let homed = pre.miners@.map_values(|m: Miner| homeward(m, pre.game_map, pre.base, dt));
    assert(homed[j].role == MinerRole::Active);
}

/// The miners' phase on which the collection timer runs out.
proof fn lemma_expiry_step(pre: Simulation, post: Simulation, dt: int, e: usize, j: int)
    requires
        pre.wf(),
        Simulation::miners_step(pre, post, dt),
        pre.collection_state.collecting,
        e < pre.resources@.len(),
        pre.collection_state.resource_entity == Some(e),
        0 <= j < pre.miners@.len(),
        pre.miners@[j].role == MinerRole::Active,
        pre.collection_state.elapsed_ms + dt >= COLLECTION_MS,
    ensures
        !post.resources@[e as int].exists,
        post.discovered_resource.position is None,
        post.miners@[j].role == MinerRole::Returning,
{
    let homed = pre.miners@.map_values(|m: Miner| homeward(m, pre.game_map, pre.base, dt));
    assert(homed[j].role == MinerRole::Active);
}

proof fn lemma_still_collecting(states: Seq<Simulation>, dts: Seq<int>, e: usize, j: int, k: int)
    requires
        miners_run(states, dts),
        dts.len() >= 1,
        states[0].collection_state.collecting,
        states[0].collection_state.elapsed_ms == 0,
        e < states[0].resources@.len(),
        states[0].collection_state.resource_entity == Some(e),
        0 <= j < states[0].miners@.len(),
        states[0].miners@[j].role == MinerRole::Active,
        elapsed_after(dts, dts.len() - 1) < COLLECTION_MS,
        0 <= k < dts.len(),
    ensures
        states[k].collection_state.collecting,
        states[k].collection_state.elapsed_ms == elapsed_after(dts, k),
        states[k].collection_state.resource_entity == Some(e),
        states[k].resources@.len() == states[0].resources@.len(),
        states[k].miners@.len() == states[0].miners@.len(),
        states[k].miners@[j].role == MinerRole::Active,
    decreases k,
{
    if k > 0 {
        lemma_still_collecting(states, dts, e, j, k - 1);
        assert(states[k - 1].wf());
        assert forall|i: int| 0 <= i < dts.len() implies 0 <= #[trigger] dts[i] by {
            assert(states[i].wf());
        }
        lemma_elapsed_monotone(dts, k, dts.len() - 1);
        lemma_collecting_step(states[k - 1], states[k], dts[k - 1], e, j);
    }
}

/// A resource bound by a well-formed state exists.
proof fn lemma_bound_exists(st: Simulation, e: usize)
    requires
        st.wf(),
        st.collection_state.resource_entity == Some(e),
    ensures
        e < st.resources@.len(),
        st.resources@[e as int].exists,
        st.discovered_resource.position is Some,
{
}

/// Once collection of resource `e` has started, with miner `j` active,
/// only miners' phases following, the resource stays, the target stays set
/// and the miner stays active while the ticks add up to less than
/// `COLLECTION_MS`; on the tick that reaches it the resource is removed, the
/// target cleared and the miner sent back to the base.
pub proof fn lemma_collection_completes(states: Seq<Simulation>, dts: Seq<int>, e: usize, j: int)
    requires
        miners_run(states, dts),
        dts.len() >= 1,
        states[0].collection_state.collecting,
        states[0].collection_state.elapsed_ms == 0,
        e < states[0].resources@.len(),
        states[0].collection_state.resource_entity == Some(e),
        0 <= j < states[0].miners@.len(),
        states[0].miners@[j].role == MinerRole::Active,
        elapsed_after(dts, dts.len() - 1) < COLLECTION_MS <= elapsed_after(dts, dts.len() as int),
    ensures
        forall|k: int|
            0 <= k < dts.len() ==> (#[trigger] states[k]).resources@[e as int].exists
                && states[k].discovered_resource.position is Some && states[k].miners@[j].role
                == MinerRole::Active,
        !states[dts.len() as int].resources@[e as int].exists,
        states[dts.len() as int].discovered_resource.position is None,
        states[dts.len() as int].miners@[j].role == MinerRole::Returning,
{
    assert forall|k: int| 0 <= k < dts.len() implies (#[trigger] states[k]).resources@[e as int].exists
        && states[k].discovered_resource.position is Some && states[k].miners@[j].role == MinerRole::Active by {
        lemma_still_collecting(states, dts, e, j, k);
        assert(states[k].wf());
        lemma_bound_exists(states[k], e);
    }
    let n = dts.len() as int;
    lemma_still_collecting(states, dts, e, j, n - 1);
    assert(states[n - 1].wf());
    lemma_expiry_step(states[n - 1], states[n], dts[n - 1], e, j);
}

} // verus!
