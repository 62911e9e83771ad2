//! Monster behaviour: every monster whose viewshed currently contains the
//! player's tile speaks one line of idle text and advances one step along a
//! shortest path toward the player, recomputed fresh every such turn. A
//! monster that cannot reach the player, or already stands on the player's
//! tile, stays put. There is no persisted alert memory: the transition is
//! evaluated fresh each turn from the current viewshed contents.

use vstd::prelude::*;

use crate::components::{EntityRecord, Point, Position, Viewshed};
use crate::map::{col_of, flat_idx, row_of, GridMap};
use crate::path::{is_shortest_walk, is_walk, reachable};
use crate::rng::rng_random_slice_entry;

verus! {

/// One line of monster chatter: which entity spoke, and the phrase chosen
/// from the idle-text source. Formatting for display is left to the caller.
pub struct Chatter {
    pub entity: usize,
    pub text: String,
}

/// The entity is a monster this pass acts on: it carries the monster tag, a
/// viewshed, a position and a name.
pub open spec fn is_active_monster(e: EntityRecord) -> bool {
    e.monster is Some && e.viewshed is Some && e.position is Some && e.name is Some
}

/// The entity's viewshed currently contains the player's tile.
pub open spec fn sees_player(e: EntityRecord, player_pos: Point) -> bool {
    e.viewshed->0.visible_tiles@.contains(player_pos)
}

/// Relates a pursuing monster's record before and after its turn: when a
/// path to the player exists and the monster is not already on the player's
/// tile, it moves to the second tile of some shortest walk and its viewshed
/// turns dirty; otherwise it stays exactly where it was.
pub open spec fn pursued(
    m: GridMap,
    player_pos: Point,
    pre: EntityRecord,
    post: EntityRecord,
) -> bool {
    let w = m.width as int;
    let s = flat_idx(w, pre.position->0.x as int, pre.position->0.y as int);
    let g = flat_idx(w, player_pos.x as int, player_pos.y as int);
    &&& post.monster == pre.monster
    &&& post.player == pre.player
    &&& post.blocks_tiles == pre.blocks_tiles
    &&& post.name == pre.name
    &&& post.position is Some
    &&& post.viewshed is Some
    &&& post.viewshed->0.range == pre.viewshed->0.range
    &&& post.viewshed->0.visible_tiles == pre.viewshed->0.visible_tiles
    &&& if reachable(m, s as usize, g as usize) && s != g {
        exists|wk: Seq<usize>|
            #![trigger is_shortest_walk(m, wk, s as usize, g as usize)]
            {
                &&& is_shortest_walk(m, wk, s as usize, g as usize)
                &&& wk.len() >= 2
                &&& post.position->0.x as int == col_of(w, wk[1] as int)
                &&& post.position->0.y as int == row_of(w, wk[1] as int)
                &&& post.viewshed->0.dirty
            }
    } else {
        post.position == pre.position && post.viewshed->0.dirty == pre.viewshed->0.dirty
    }
}

/// True iff `v` holds the point `p`.
fn contains_point(v: &Vec<Point>, p: Point) -> (r: bool)
    ensures
        r == v@.contains(p),
{
    let mut i: usize = 0;
    while i < v.len()
        invariant
            i <= v@.len(),
            forall|j: int| 0 <= j < i ==> v@[j] != p,
        decreases v@.len() - i,
    {
        if v[i] == p {
            return true;
        }
        i = i + 1;
    }
    false
}

/// The per-turn monster behaviour pass.
pub struct MonsterAI {}

impl MonsterAI {
    /// Runs one monster turn: every monster that sees the player speaks one
    /// line from `idle_text` (none when the source is empty) and takes one
    /// step along a shortest path toward the player when one exists. All
    /// other entities, and monsters that do not see the player, are
    /// untouched. The map is read-only for this pass.
    #[verifier::loop_isolation(false)]
    #[verifier::rlimit(100)]
    pub fn run(
        &self,
        map: &GridMap,
        player_pos: Point,
        entities: &mut Vec<EntityRecord>,
        rng: &mut rltk::RandomNumberGenerator,
        idle_text: &Vec<String>,
    ) -> (chatter: Vec<Chatter>)
        requires
            map.wf(),
            map.in_bounds(player_pos.x as int, player_pos.y as int),
            idle_text@.len() < i32::MAX,
            forall|k: int|
                0 <= k < old(entities)@.len() && is_active_monster(#[trigger] old(entities)@[k])
                    ==> map.in_bounds(
                    old(entities)@[k].position->0.x as int,
                    old(entities)@[k].position->0.y as int,
                ),
        ensures
            final(entities)@.len() == old(entities)@.len(),
            forall|k: int|
                0 <= k < old(entities)@.len() && !(is_active_monster(#[trigger] old(entities)@[k])
                    && sees_player(old(entities)@[k], player_pos)) ==> final(entities)@[k] == old(
                    entities,
                )@[k],
            forall|k: int|
                0 <= k < old(entities)@.len() && is_active_monster(#[trigger] old(entities)@[k])
                    && sees_player(old(entities)@[k], player_pos) ==> pursued(
                    *map,
                    player_pos,
                    old(entities)@[k],
                    final(entities)@[k],
                ),
            forall|j: int|
                0 <= j < chatter@.len() ==> 0 <= (#[trigger] chatter@[j]).entity < old(
                    entities,
                )@.len() && is_active_monster(old(entities)@[chatter@[j].entity as int])
                    && sees_player(old(entities)@[chatter@[j].entity as int], player_pos) && exists|
                    t: int,
                |
                    0 <= t < idle_text@.len() && chatter@[j].text@ == #[trigger] idle_text@[t]@,
            idle_text@.len() > 0 ==> forall|k: int|
                0 <= k < old(entities)@.len() && is_active_monster(#[trigger] old(entities)@[k])
                    && sees_player(old(entities)@[k], player_pos) ==> exists|j: int|
                    0 <= j < chatter@.len() && (#[trigger] chatter@[j]).entity == k,
    {
        let mut chatter: Vec<Chatter> = Vec::new();
        let n = entities.len();
        let mut k: usize = 0;
        while k < n
            invariant
                entities@.len() == n,
                k <= n,
                forall|j: int| k <= j < n ==> entities@[j] == old(entities)@[j],
                forall|j: int|
                    0 <= j < k && !(is_active_monster(#[trigger] old(entities)@[j]) && sees_player(
                        old(entities)@[j],
                        player_pos,
                    )) ==> entities@[j] == old(entities)@[j],
                forall|j: int|
                    0 <= j < k && is_active_monster(#[trigger] old(entities)@[j]) && sees_player(
                        old(entities)@[j],
                        player_pos,
                    ) ==> pursued(*map, player_pos, old(entities)@[j], entities@[j]),
                forall|j: int|
                    0 <= j < chatter@.len() ==> 0 <= (#[trigger] chatter@[j]).entity < n
                        && is_active_monster(old(entities)@[chatter@[j].entity as int])
                        && sees_player(old(entities)@[chatter@[j].entity as int], player_pos)
                        && exists|t: int|
                        0 <= t < idle_text@.len() && chatter@[j].text@ == #[trigger] idle_text@[t]@,
                idle_text@.len() > 0 ==> forall|j: int|
                    0 <= j < k && is_active_monster(#[trigger] old(entities)@[j]) && sees_player(
                        old(entities)@[j],
                        player_pos,
                    ) ==> exists|c: int|
                        0 <= c < chatter@.len() && (#[trigger] chatter@[c]).entity == j,
            decreases n - k,
        {
            let rec = entities.remove(k);
            let ghost pre_entities = entities@;
            let ghost pre_chatter = chatter@;
            let (rec2, spoken) = monster_turn(map, player_pos, rec, rng, idle_text);
            match spoken {
                Some(text) => {
                    chatter.push(Chatter { entity: k, text });
                    proof {
                        assert(chatter@[chatter@.len() - 1].entity == k);
                        assert forall|j: int|
                            0 <= j < chatter@.len() - 1 implies chatter@[j] == pre_chatter[j] by {}
                    }
                },
                None => {},
            }
            entities.insert(k, rec2);
            proof {
                assert(entities@ =~= pre_entities.insert(k as int, rec2));
            }
            k = k + 1;
        }
        chatter
    }
}

/// One monster's turn: when the record is an active monster that sees the
/// player, it picks a phrase (whenever the idle-text source is nonempty) and
/// steps along a shortest path toward the player when one exists; any other
/// record passes through untouched.
#[verifier::rlimit(30)]
fn monster_turn(
    map: &GridMap,
    player_pos: Point,
    rec: EntityRecord,
    rng: &mut rltk::RandomNumberGenerator,
    idle_text: &Vec<String>,
) -> (out: (EntityRecord, Option<String>))
    requires
        map.wf(),
        map.in_bounds(player_pos.x as int, player_pos.y as int),
        idle_text@.len() < i32::MAX,
        is_active_monster(rec) ==> map.in_bounds(
            rec.position->0.x as int,
            rec.position->0.y as int,
        ),
    ensures
        !(is_active_monster(rec) && sees_player(rec, player_pos)) ==> out.0 == rec && out.1
            is None,
        is_active_monster(rec) && sees_player(rec, player_pos) ==> pursued(
            *map,
            player_pos,
            rec,
            out.0,
        ) && ((out.1 is Some) <==> idle_text@.len() > 0),
        out.1 is Some ==> exists|t: int|
            0 <= t < idle_text@.len() && out.1->0@ == #[trigger] idle_text@[t]@,
{
    let mut position = rec.position;
    let mut viewshed_opt = rec.viewshed;
    let monster = rec.monster;
    let player = rec.player;
    let blocks_tiles = rec.blocks_tiles;
    let name = rec.name;
    let is_monster = monster.is_some() && viewshed_opt.is_some() && position.is_some()
        && name.is_some();
    let mut spoken: Option<String> = None;
    if is_monster {
        let sees = match &viewshed_opt {
            Some(vs) => contains_point(&vs.visible_tiles, player_pos),
            None => false,
        };
        if sees {
            spoken = rng_random_slice_entry(rng, idle_text);
            let pos = position.unwrap();
            let s = map.xy_idx(pos.x, pos.y);
            let g = map.xy_idx(player_pos.x, player_pos.y);
            match map.shortest_path(s, g) {
                Some(path) => {
                    if path.len() > 1 {
                        let step = path[1];
                        let (nx, ny) = map.idx_xy(step);
                        position = Some(Position { x: nx, y: ny });
                        viewshed_opt = match viewshed_opt {
                            Some(vs) => Some(
                                Viewshed {
                                    visible_tiles: vs.visible_tiles,
                                    range: vs.range,
                                    dirty: true,
                                },
                            ),
                            None => None,
                        };
                        proof {
                            assert(is_shortest_walk(*map, path@, s, g));
                            assert(path@[0] == s && path@[path@.len() - 1] == g);
                            if s == g {
                                let unit = seq![s];
                                assert(is_walk(*map, unit, s, g));
                                assert(path@.len() <= 1);
                                assert(false);
                            }
                            assert(map.spec_valid_step(path@[0] as int, path@[1] as int));
                        }
                    } else {
                        proof {
                            assert(path@[0] == s && path@[path@.len() - 1] == g);
                            assert(s == g);
                        }
                    }
                },
                None => {},
            }
        }
    }
    let rec2 = EntityRecord { position, viewshed: viewshed_opt, monster, player, blocks_tiles, name };
    (rec2, spoken)
}

} // verus!
