//! Map indexing: rebuilds the map's blocked set each turn from static wall
//! tiles plus the positions of blocking entities, so pathing and movement
//! see a current obstacle set.

use vstd::prelude::*;

use crate::components::EntityRecord;
use crate::map::{flat_idx, GridMap, TileType};

verus! {

/// True iff entity `e` blocks flat index `i` on a grid `w` tiles wide: it
/// carries both a position and the blocks-tiles tag, and stands on `i`.
pub open spec fn blocks_at(e: EntityRecord, w: int, i: int) -> bool {
    &&& e.position is Some
    &&& e.blocks_tiles is Some
    &&& flat_idx(w, e.position->0.x as int, e.position->0.y as int) == i
}

/// The per-turn pass that rebuilds the blocked set.
pub struct MapIndexingSystem {}

impl MapIndexingSystem {
    /// After the pass, a tile is blocked iff it is a wall or some entity
    /// carrying a position and the blocks-tiles tag stands on it.
    #[verifier::loop_isolation(false)]
    pub fn run(&self, map: &mut GridMap, entities: &Vec<EntityRecord>)
        requires
            old(map).wf(),
            forall|k: int|
                0 <= k < entities@.len() && (#[trigger] entities@[k]).position is Some
                    && entities@[k].blocks_tiles is Some ==> old(map).in_bounds(
                    entities@[k].position->0.x as int,
                    entities@[k].position->0.y as int,
                ),
        ensures
            final(map).wf(),
            final(map).tiles == old(map).tiles,
            final(map).rooms == old(map).rooms,
            final(map).revealed_tiles == old(map).revealed_tiles,
            final(map).visible_tiles == old(map).visible_tiles,
            final(map).width == old(map).width,
            final(map).height == old(map).height,
            forall|i: int|
                0 <= i < final(map).blocked@.len() ==> (#[trigger] final(map).blocked@[i] <==> (
                old(map).tiles@[i] == TileType::Wall || exists|k: int|
                    0 <= k < entities@.len() && #[trigger] blocks_at(
                        entities@[k],
                        old(map).width as int,
                        i,
                    ))),
    {
        map.populate_blocked();
        let ghost w = map.width as int;
        let mut k: usize = 0;
        while k < entities.len()
            invariant
                map.wf(),
                map.tiles == old(map).tiles,
                map.rooms == old(map).rooms,
                map.revealed_tiles == old(map).revealed_tiles,
                map.visible_tiles == old(map).visible_tiles,
                map.width == old(map).width,
                map.height == old(map).height,
                k <= entities@.len(),
                forall|i: int|
                    0 <= i < map.blocked@.len() ==> (#[trigger] map.blocked@[i] <==> (
                    old(map).tiles@[i] == TileType::Wall || exists|t: int|
                        0 <= t < k && #[trigger] blocks_at(entities@[t], w, i))),
            decreases entities@.len() - k,
        {
            let e = &entities[k];
            match (e.position, e.blocks_tiles) {
                (Some(pos), Some(_tag)) => {
                    let idx = map.xy_idx(pos.x, pos.y);
                    map.blocked[idx] = true;
                    proof {
                        assert forall|i: int| 0 <= i < map.blocked@.len() implies (
                        #[trigger] map.blocked@[i] <==> (old(map).tiles@[i] == TileType::Wall
                            || exists|t: int|
                            0 <= t < k + 1 && #[trigger] blocks_at(entities@[t], w, i))) by {
                            if i == idx {
                                assert(blocks_at(entities@[k as int], w, i));
                            }
                        }
                    }
                }
                _ => {
                    proof {
                        assert forall|i: int| 0 <= i < map.blocked@.len() implies (
                        #[trigger] map.blocked@[i] <==> (old(map).tiles@[i] == TileType::Wall
                            || exists|t: int|
                            0 <= t < k + 1 && #[trigger] blocks_at(entities@[t], w, i))) by {
                            assert(!blocks_at(entities@[k as int], w, i));
                        }
                    }
                }
            }
            k = k + 1;
        }
    }
}

} // verus!
