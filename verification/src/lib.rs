//! Simulation core of a turn-based, grid-based dungeon exploration game:
//! procedural level generation, per-entity line-of-sight computation, and
//! monster pursuit behaviour driven by that line of sight.
//!
//! Rendering, input decoding, and the entity store are external collaborators;
//! this crate holds the map, its derived indices (blocked, revealed, visible),
//! and the rules that keep them consistent from turn to turn.

mod rng;

pub mod components;
pub mod fov;
pub mod map;
pub mod map_indexing_system;
pub mod monster_ai_system;
pub mod path;
pub mod player;
pub mod rect;
pub mod visibility_system;

pub use components::{BlocksTiles, EntityRecord, Monster, Name, Point, Position, RunState, Viewshed};
pub use fov::field_of_view;
pub use map::{GridMap, TileType};
pub use map_indexing_system::MapIndexingSystem;
pub use monster_ai_system::{Chatter, MonsterAI};
pub use path::{is_shortest_walk, is_walk, reachable};
pub use player::{try_move_player, Player};
pub use rect::Rect;
pub use visibility_system::VisibilitySystem;
