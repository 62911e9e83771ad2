//! Visibility recomputation: refreshes the viewshed of every entity whose
//! field of view is stale, and folds the player's viewshed into the map's
//! global visible and revealed sets. Entities whose viewshed is not dirty
//! are untouched, and the revealed set only ever grows.

use vstd::prelude::*;

use crate::components::{EntityRecord, Point, Viewshed};
use crate::fov::{field_of_view, spec_los_clear, spec_visible};
use crate::map::{col_of, filled, flat_idx, row_of, GridMap};

verus! {

/// The entity holds a position and a viewshed marked dirty, so this pass
/// recomputes its field of view.
pub open spec fn needs_recompute(e: EntityRecord) -> bool {
    e.position is Some && e.viewshed is Some && e.viewshed->0.dirty
}

/// The entity is the player and its viewshed is recomputed this pass, so
/// the map's global visible and revealed sets are refreshed from it.
pub open spec fn player_recompute(e: EntityRecord) -> bool {
    e.player is Some && needs_recompute(e)
}

/// Relates an entity's record before and after recomputation: the viewshed
/// holds exactly the points visible from its position, the dirty flag is
/// cleared, and every other attachment carries over unchanged.
pub open spec fn recomputed(m: GridMap, pre: EntityRecord, post: EntityRecord) -> bool {
    &&& post.position == pre.position
    &&& post.monster == pre.monster
    &&& post.player == pre.player
    &&& post.blocks_tiles == pre.blocks_tiles
    &&& post.name == pre.name
    &&& post.viewshed is Some
    &&& post.viewshed->0.range == pre.viewshed->0.range
    &&& !post.viewshed->0.dirty
    &&& forall|p: Point|
        #[trigger] post.viewshed->0.visible_tiles@.contains(p) <==> spec_visible(
            m,
            pre.position->0.x as int,
            pre.position->0.y as int,
            pre.viewshed->0.range as int,
            p.x as int,
            p.y as int,
        )
}

/// Relates the map before and after the player's viewshed is folded in: the
/// visible set holds exactly the player's visible tiles, and the revealed
/// set has grown by exactly those tiles.
pub open spec fn player_folded(pre: GridMap, post: GridMap, e: EntityRecord) -> bool {
    let x = e.position->0.x as int;
    let y = e.position->0.y as int;
    let r = e.viewshed->0.range as int;
    let w = pre.width as int;
    &&& forall|i: int|
        0 <= i < post.visible_tiles@.len() ==> (#[trigger] post.visible_tiles@[i] <==> spec_visible(
            pre,
            x,
            y,
            r,
            col_of(w, i),
            row_of(w, i),
        ))
    &&& forall|i: int|
        0 <= i < post.revealed_tiles@.len() ==> (#[trigger] post.revealed_tiles@[i]
            <==> pre.revealed_tiles@[i] || spec_visible(pre, x, y, r, col_of(w, i), row_of(w, i)))
}

/// Law: the revealed set only ever grows. Each recomputation pass ensures
/// that every tile revealed before it stays revealed after it; this is the
/// step that extends that guarantee across any sequence of passes, so the
/// revealed set at a later time includes the revealed set at any earlier
/// time.
pub proof fn lemma_revealed_growth_composes(a: Seq<bool>, b: Seq<bool>, c: Seq<bool>)
    requires
        a.len() == b.len(),
        b.len() == c.len(),
        forall|i: int| 0 <= i < a.len() && a[i] ==> #[trigger] b[i],
        forall|i: int| 0 <= i < b.len() && b[i] ==> #[trigger] c[i],
    ensures
        forall|i: int| 0 <= i < a.len() && a[i] ==> #[trigger] c[i],
{
}

/// Visibility depends only on the terrain: two maps with the same tiles and
/// dimensions agree on what is visible.
proof fn lemma_visible_same_terrain(
    m1: GridMap,
    m2: GridMap,
    ox: int,
    oy: int,
    range: int,
    x: int,
    y: int,
)
    requires
        m1.tiles == m2.tiles,
        m1.width == m2.width,
        m1.height == m2.height,
    ensures
        spec_visible(m1, ox, oy, range, x, y) == spec_visible(m2, ox, oy, range, x, y),
{
    assert(spec_los_clear(m1, ox, oy, x, y) == spec_los_clear(m2, ox, oy, x, y)) by {
        if spec_los_clear(m1, ox, oy, x, y) {
            assert forall|i: int|
                0 < i < crate::fov::line_steps(ox, oy, x, y) implies !m2.spec_is_opaque(
                flat_idx(
                    m2.width as int,
                    #[trigger] crate::fov::line_coord(ox, x, i, crate::fov::line_steps(ox, oy, x, y)),
                    crate::fov::line_coord(oy, y, i, crate::fov::line_steps(ox, oy, x, y)),
                ),
            ) by {}
        }
        if spec_los_clear(m2, ox, oy, x, y) {
            assert forall|i: int|
                0 < i < crate::fov::line_steps(ox, oy, x, y) implies !m1.spec_is_opaque(
                flat_idx(
                    m1.width as int,
                    #[trigger] crate::fov::line_coord(ox, x, i, crate::fov::line_steps(ox, oy, x, y)),
                    crate::fov::line_coord(oy, y, i, crate::fov::line_steps(ox, oy, x, y)),
                ),
            ) by {}
        }
    }
}

/// Recomputes the map's visible set from scratch as the tiles of `pts`, and
/// marks those tiles in the cumulative revealed set.
#[verifier::loop_isolation(false)]
fn fold_player_view(map: &mut GridMap, pts: &Vec<Point>)
    requires
        old(map).wf(),
        forall|j: int|
            0 <= j < pts@.len() ==> old(map).in_bounds(
                (#[trigger] pts@[j]).x as int,
                pts@[j].y as int,
            ),
    ensures
        final(map).wf(),
        final(map).tiles == old(map).tiles,
        final(map).rooms == old(map).rooms,
        final(map).blocked == old(map).blocked,
        final(map).width == old(map).width,
        final(map).height == old(map).height,
        forall|i: int|
            0 <= i < final(map).visible_tiles@.len() ==> (#[trigger] final(map).visible_tiles@[i]
                <==> exists|j: int|
                0 <= j < pts@.len() && flat_idx(
                    old(map).width as int,
                    (#[trigger] pts@[j]).x as int,
                    pts@[j].y as int,
                ) == i),
        forall|i: int|
            0 <= i < final(map).revealed_tiles@.len() ==> (#[trigger] final(map).revealed_tiles@[i]
                <==> old(map).revealed_tiles@[i] || exists|j: int|
                0 <= j < pts@.len() && flat_idx(
                    old(map).width as int,
                    (#[trigger] pts@[j]).x as int,
                    pts@[j].y as int,
                ) == i),
{
    let ghost w = map.width as int;
    let n = map.tiles.len();
    map.visible_tiles = filled(n, false);
    let mut j: usize = 0;
    while j < pts.len()
        invariant
            map.wf(),
            map.tiles == old(map).tiles,
            map.rooms == old(map).rooms,
            map.blocked == old(map).blocked,
            map.width == old(map).width,
            map.height == old(map).height,
            j <= pts@.len(),
            forall|i: int|
                0 <= i < map.visible_tiles@.len() ==> (#[trigger] map.visible_tiles@[i]
                    <==> exists|t: int|
                    0 <= t < j && flat_idx(w, (#[trigger] pts@[t]).x as int, pts@[t].y as int) == i),
            forall|i: int|
                0 <= i < map.revealed_tiles@.len() ==> (#[trigger] map.revealed_tiles@[i]
                    <==> old(map).revealed_tiles@[i] || exists|t: int|
                    0 <= t < j && flat_idx(w, (#[trigger] pts@[t]).x as int, pts@[t].y as int) == i),
        decreases pts@.len() - j,
    {
        let pt = pts[j];
        let idx = map.xy_idx(pt.x, pt.y);
        map.revealed_tiles[idx] = true;
        map.visible_tiles[idx] = true;
        proof {
            assert forall|i: int| 0 <= i < map.visible_tiles@.len() implies (
            #[trigger] map.visible_tiles@[i] <==> exists|t: int|
                0 <= t < j + 1 && flat_idx(w, (#[trigger] pts@[t]).x as int, pts@[t].y as int)
                    == i) by {
                if i == idx {
                    assert(flat_idx(w, pts@[j as int].x as int, pts@[j as int].y as int) == i);
                }
            }
            assert forall|i: int| 0 <= i < map.revealed_tiles@.len() implies (
            #[trigger] map.revealed_tiles@[i] <==> old(map).revealed_tiles@[i] || exists|t: int|
                0 <= t < j + 1 && flat_idx(w, (#[trigger] pts@[t]).x as int, pts@[t].y as int)
                    == i) by {
                if i == idx {
                    assert(flat_idx(w, pts@[j as int].x as int, pts@[j as int].y as int) == i);
                }
            }
        }
        j = j + 1;
    }
}

/// The per-turn pass that refreshes dirty viewsheds.
pub struct VisibilitySystem {}

impl VisibilitySystem {
    /// For every entity holding a position and a dirty viewshed: recompute
    /// its field of view and clear the flag; for the player, also refresh
    /// the map's visible set and grow its revealed set. Entities whose
    /// viewshed is not dirty are untouched, byte for byte.
    #[verifier::loop_isolation(false)]
    #[verifier::rlimit(30)]
    pub fn run(&self, map: &mut GridMap, entities: &mut Vec<EntityRecord>)
        requires
            old(map).wf(),
            forall|k: int|
                0 <= k < old(entities)@.len() && (#[trigger] old(entities)@[k]).position is Some
                    && old(entities)@[k].viewshed is Some ==> old(map).in_bounds(
                    old(entities)@[k].position->0.x as int,
                    old(entities)@[k].position->0.y as int,
                ) && old(entities)@[k].viewshed->0.range >= 0,
            forall|a: int, b: int|
                0 <= a < b < old(entities)@.len() ==> !((#[trigger] old(entities)@[a]).player
                    is Some && (#[trigger] old(entities)@[b]).player is Some),
        ensures
            final(map).wf(),
            final(map).tiles == old(map).tiles,
            final(map).rooms == old(map).rooms,
            final(map).blocked == old(map).blocked,
            final(map).width == old(map).width,
            final(map).height == old(map).height,
            final(entities)@.len() == old(entities)@.len(),
            forall|k: int|
                0 <= k < old(entities)@.len() && !needs_recompute(#[trigger] old(entities)@[k])
                    ==> final(entities)@[k] == old(entities)@[k],
            forall|k: int|
                0 <= k < old(entities)@.len() && needs_recompute(#[trigger] old(entities)@[k])
                    ==> recomputed(*old(map), old(entities)@[k], final(entities)@[k]),
            forall|i: int|
                0 <= i < old(map).revealed_tiles@.len() && old(map).revealed_tiles@[i]
                    ==> #[trigger] final(map).revealed_tiles@[i],
            (forall|k: int|
                0 <= k < old(entities)@.len() ==> !player_recompute(#[trigger] old(entities)@[k]))
                ==> final(map).visible_tiles == old(map).visible_tiles
                    && final(map).revealed_tiles == old(map).revealed_tiles,
            forall|k: int|
                0 <= k < old(entities)@.len() && player_recompute(#[trigger] old(entities)@[k])
                    ==> player_folded(*old(map), *final(map), old(entities)@[k]),
    {
        let n = entities.len();
        let mut k: usize = 0;
        while k < n
            invariant
                map.wf(),
                map.tiles == old(map).tiles,
                map.rooms == old(map).rooms,
                map.blocked == old(map).blocked,
                map.width == old(map).width,
                map.height == old(map).height,
                entities@.len() == n,
                k <= n,
                forall|j: int| k <= j < n ==> entities@[j] == old(entities)@[j],
                forall|j: int|
                    0 <= j < k && !needs_recompute(#[trigger] old(entities)@[j]) ==> entities@[j]
                        == old(entities)@[j],
                forall|j: int|
                    0 <= j < k && needs_recompute(#[trigger] old(entities)@[j]) ==> recomputed(
                        *old(map),
                        old(entities)@[j],
                        entities@[j],
                    ),
                forall|i: int|
                    0 <= i < old(map).revealed_tiles@.len() && old(map).revealed_tiles@[i]
                        ==> #[trigger] map.revealed_tiles@[i],
                (forall|j: int|
                    0 <= j < k ==> !player_recompute(#[trigger] old(entities)@[j]))
                    ==> map.visible_tiles == old(map).visible_tiles && map.revealed_tiles == old(
                    map,
                ).revealed_tiles,
                forall|j: int|
                    0 <= j < k && player_recompute(#[trigger] old(entities)@[j]) ==> player_folded(
                        *old(map),
                        *map,
                        old(entities)@[j],
                    ),
            decreases n - k,
        {
            let rec = entities.remove(k);
            let ghost pre_entities = entities@;
            let position = rec.position;
            let viewshed_opt = rec.viewshed;
            let monster = rec.monster;
            let player = rec.player;
            let blocks_tiles = rec.blocks_tiles;
            let name = rec.name;
            let ghost pre_map = *map;
            let new_viewshed: Option<Viewshed> = match viewshed_opt {
                Some(vs) => {
                    if vs.dirty {
                        match position {
                            Some(pos) => {
                                let pts = field_of_view(map, pos.x, pos.y, vs.range);
                                if player.is_some() {
                                    proof {
                                        assert forall|j: int| 0 <= j < pts@.len() implies map
                                            .in_bounds(
                                            (#[trigger] pts@[j]).x as int,
                                            pts@[j].y as int,
                                        ) by {
                                            assert(pts@.contains(pts@[j]));
                                        }
                                    }
                                    fold_player_view(map, &pts);
                                    proof {
                                        let x = pos.x as int;
                                        let y = pos.y as int;
                                        let r = vs.range as int;
                                        let w = old(map).width as int;
                                        assert forall|i: int|
                                            0 <= i < map.visible_tiles@.len() implies (
                                        #[trigger] map.visible_tiles@[i] <==> spec_visible(
                                            *old(map),
                                            x,
                                            y,
                                            r,
                                            col_of(w, i),
                                            row_of(w, i),
                                        )) by {
                                            map.lemma_coord_roundtrip(i);
                                            lemma_visible_same_terrain(
                                                pre_map,
                                                *old(map),
                                                x,
                                                y,
                                                r,
                                                col_of(w, i),
                                                row_of(w, i),
                                            );
                                            if map.visible_tiles@[i] {
                                                let j = choose|j: int|
                                                    0 <= j < pts@.len() && flat_idx(
                                                        w,
                                                        (#[trigger] pts@[j]).x as int,
                                                        pts@[j].y as int,
                                                    ) == i;
                                                assert(pts@.contains(pts@[j]));
                                                map.lemma_xy_idx_injective(
                                                    pts@[j].x as int,
                                                    pts@[j].y as int,
                                                    col_of(w, i),
                                                    row_of(w, i),
                                                );
                                                lemma_visible_same_terrain(
                                                    pre_map,
                                                    *old(map),
                                                    x,
                                                    y,
                                                    r,
                                                    pts@[j].x as int,
                                                    pts@[j].y as int,
                                                );
                                            }
                                            if spec_visible(
                                                *old(map),
                                                x,
                                                y,
                                                r,
                                                col_of(w, i),
                                                row_of(w, i),
                                            ) {
                                                let p = Point {
                                                    x: col_of(w, i) as i32,
                                                    y: row_of(w, i) as i32,
                                                };
                                                assert(pts@.contains(p));
                                                let j = choose|j: int|
                                                    0 <= j < pts@.len() && pts@[j] == p;
                                                assert(flat_idx(w, p.x as int, p.y as int) == i);
                                            }
                                        }
                                        assert forall|i: int|
                                            0 <= i < map.revealed_tiles@.len() implies (
                                        #[trigger] map.revealed_tiles@[i] <==> old(
                                            map,
                                        ).revealed_tiles@[i] || spec_visible(
                                            *old(map),
                                            x,
                                            y,
                                            r,
                                            col_of(w, i),
                                            row_of(w, i),
                                        )) by {
                                            map.lemma_coord_roundtrip(i);
                                            lemma_visible_same_terrain(
                                                pre_map,
                                                *old(map),
                                                x,
                                                y,
                                                r,
                                                col_of(w, i),
                                                row_of(w, i),
                                            );
                                            if map.revealed_tiles@[i] && !old(
                                                map,
                                            ).revealed_tiles@[i] {
                                                let j = choose|j: int|
                                                    0 <= j < pts@.len() && flat_idx(
                                                        w,
                                                        (#[trigger] pts@[j]).x as int,
                                                        pts@[j].y as int,
                                                    ) == i;
                                                assert(pts@.contains(pts@[j]));
                                                map.lemma_xy_idx_injective(
                                                    pts@[j].x as int,
                                                    pts@[j].y as int,
                                                    col_of(w, i),
                                                    row_of(w, i),
                                                );
                                                lemma_visible_same_terrain(
                                                    pre_map,
                                                    *old(map),
                                                    x,
                                                    y,
                                                    r,
                                                    pts@[j].x as int,
                                                    pts@[j].y as int,
                                                );
                                            }
                                            if spec_visible(
                                                *old(map),
                                                x,
                                                y,
                                                r,
                                                col_of(w, i),
                                                row_of(w, i),
                                            ) && !old(map).revealed_tiles@[i] {
                                                let p = Point {
                                                    x: col_of(w, i) as i32,
                                                    y: row_of(w, i) as i32,
                                                };
                                                assert(pts@.contains(p));
                                                let j = choose|j: int|
                                                    0 <= j < pts@.len() && pts@[j] == p;
                                                assert(flat_idx(w, p.x as int, p.y as int) == i);
                                            }
                                        }
                                    }
                                }
                                Some(Viewshed { visible_tiles: pts, range: vs.range, dirty: false })
                            },
                            None => Some(vs),
                        }
                    } else {
                        Some(vs)
                    }
                },
                None => None,
            };
            let rec2 = EntityRecord {
                position,
                viewshed: new_viewshed,
                monster,
                player,
                blocks_tiles,
                name,
            };
            entities.insert(k, rec2);
            proof {
                assert(entities@ =~= pre_entities.insert(k as int, rec2));
                assert forall|j: int| k + 1 <= j < n implies entities@[j] == old(entities)@[j] by {}
                if needs_recompute(old(entities)@[k as int]) {
                    assert forall|p: Point|
                        #[trigger] rec2.viewshed->0.visible_tiles@.contains(p) <==> spec_visible(
                        *old(map),
                        old(entities)@[k as int].position->0.x as int,
                        old(entities)@[k as int].position->0.y as int,
                        old(entities)@[k as int].viewshed->0.range as int,
                        p.x as int,
                        p.y as int,
                    ) by {
                        lemma_visible_same_terrain(
                            pre_map,
                            *old(map),
                            old(entities)@[k as int].position->0.x as int,
                            old(entities)@[k as int].position->0.y as int,
                            old(entities)@[k as int].viewshed->0.range as int,
                            p.x as int,
                            p.y as int,
                        );
                    }
                }
            }
            k = k + 1;
        }
    }
}

} // verus!
