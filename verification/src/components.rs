//! Per-entity data: coordinates, viewsheds, and the marker tags that select
//! which systems act on an entity. Entities carry an optional attachment of
//! each kind; no inheritance hierarchy exists.

use vstd::prelude::*;

use crate::player::Player;

verus! {

/// A grid coordinate.
#[derive(Clone, Copy, PartialEq, Eq, Structural, Debug)]
pub struct Point {
    pub x: i32,
    pub y: i32,
}

/// An entity's position on the grid.
#[derive(Clone, Copy, PartialEq, Eq, Structural, Debug)]
pub struct Position {
    pub x: i32,
    pub y: i32,
}

/// The set of tiles currently visible from an entity's position, plus the
/// parameters needed to recompute it. Created with `dirty` set and no tiles;
/// whoever moves the owning entity must set `dirty` again, and visibility
/// recomputation is the only writer of `visible_tiles` and the only system
/// allowed to clear `dirty`.
#[derive(Clone, Debug)]
pub struct Viewshed {
    pub visible_tiles: Vec<Point>,
    pub range: i32,
    pub dirty: bool,
}

/// Marker: monster behaviour acts on this entity.
#[derive(Clone, Copy, PartialEq, Eq, Structural, Debug)]
pub struct Monster {}

/// Marker: this entity occupies its tile, so map indexing adds its position
/// to the blocked set.
#[derive(Clone, Copy, PartialEq, Eq, Structural, Debug)]
pub struct BlocksTiles {}

/// A display name, used when a monster speaks.
#[derive(Clone, Debug)]
pub struct Name {
    pub name: String,
}

/// Whether the game loop runs the systems this tick or waits for input.
#[derive(Clone, Copy, PartialEq, Eq, Structural, Debug)]
pub enum RunState {
    Paused,
    Running,
}

/// One entity of the store: the closed set of optional attachments the
/// simulation core reads and writes. The entity store itself is an external
/// collaborator; it hands the systems records of this shape.
#[derive(Clone, Debug)]
pub struct EntityRecord {
    pub position: Option<Position>,
    pub viewshed: Option<Viewshed>,
    pub monster: Option<Monster>,
    pub player: Option<Player>,
    pub blocks_tiles: Option<BlocksTiles>,
    pub name: Option<Name>,
}

} // verus!
