//! The spatial simulation engine: obstacle grid, collision queries, steering,
//! path search, exploration memory and the resource coordinator.
pub mod coordinator;
pub mod explore;
pub mod geometry;
pub mod grid;
pub mod mapgen;
pub mod pathfind;
pub mod random;
pub mod session;
pub mod steering;

pub use coordinator::{
    CollectionState, DiscoveredResource, ExplorerState, Miner, MinerRole, Resource, ResourceRecord,
    Simulation,
};
pub use explore::ExploredZones;
pub use geometry::{rotate_vec2, Rotation, Vec2, ROT_SCALE, UNIT};
pub use grid::{clear_obstacles_around_resources, is_position_blocked, GameMap, MapResources};
pub use mapgen::{build_obstacles, generate_map, WallSegment, NOISE_SCALE};
pub use pathfind::find_path_a_star;
pub use session::{setup, standard_resources, SimulationPlugin};
pub use steering::{follow_path, move_entity_avoiding_obstacles};
