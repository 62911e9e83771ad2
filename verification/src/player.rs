//! The player tag and the player-move operation that the movement intent
//! source (input decoding, an external collaborator) calls into.

use vstd::prelude::*;

use crate::components::{Point, Position, Viewshed};
use crate::map::GridMap;

verus! {

/// Marker: this entity is the player; its viewshed folds into the map's
/// global visible and revealed sets.
#[derive(Clone, Copy, PartialEq, Eq, Structural, Debug)]
pub struct Player {}

/// `v` clamped into `[lo, hi]`.
pub open spec fn clamped(v: int, lo: int, hi: int) -> int {
    if v < lo {
        lo
    } else if v > hi {
        hi
    } else {
        v
    }
}

/// Moves the player one step in direction `(delta_x, delta_y)`, clamped to
/// the map bounds. The move is rejected, with no state change at all, when
/// the target tile is blocked; otherwise the position and the last known
/// player coordinate are updated and the player's viewshed is marked dirty.
pub fn try_move_player(
    delta_x: i32,
    delta_y: i32,
    map: &GridMap,
    pos: &mut Position,
    viewshed: &mut Viewshed,
    player_point: &mut Point,
)
    requires
        map.wf(),
        (delta_x == -1 && delta_y == 0) || (delta_x == 1 && delta_y == 0) || (delta_x == 0
            && delta_y == -1) || (delta_x == 0 && delta_y == 1),
        map.in_bounds(old(pos).x as int, old(pos).y as int),
    ensures
        ({
            let tx = clamped(old(pos).x + delta_x, 0, map.width - 1);
            let ty = clamped(old(pos).y + delta_y, 0, map.height - 1);
            if map.blocked@[map.spec_xy_idx(tx, ty)] {
                &&& *final(pos) == *old(pos)
                &&& *final(viewshed) == *old(viewshed)
                &&& *final(player_point) == *old(player_point)
            } else {
                &&& final(pos).x == tx
                &&& final(pos).y == ty
                &&& final(player_point).x == tx
                &&& final(player_point).y == ty
                &&& final(viewshed).dirty
                &&& final(viewshed).range == old(viewshed).range
                &&& final(viewshed).visible_tiles == old(viewshed).visible_tiles
            }
        }),
{
    let raw_x = pos.x + delta_x;
    let raw_y = pos.y + delta_y;
    let next_x = if raw_x < 0 {
        0
    } else if raw_x > map.width - 1 {
        map.width - 1
    } else {
        raw_x
    };
    let next_y = if raw_y < 0 {
        0
    } else if raw_y > map.height - 1 {
        map.height - 1
    } else {
        raw_y
    };
    let next_idx = map.xy_idx(next_x, next_y);
    if !map.blocked[next_idx] {
        // Only move the player when the target tile is passable.
        pos.x = next_x;
        pos.y = next_y;
        // Update the last known player coordinate for the other systems.
        player_point.x = pos.x;
        player_point.y = pos.y;
        // The player moved, so the field of view must be recomputed.
        viewshed.dirty = true;
    }
}

} // verus!
