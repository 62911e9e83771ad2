//! The grid map: the tile grid, per-tile derived state (blocked, revealed,
//! visible), the room list, and the procedural generator that carves rooms
//! and corridors.

use vstd::arithmetic::div_mod::{
    lemma_fundamental_div_mod, lemma_fundamental_div_mod_converse,
};
use vstd::prelude::*;

use crate::rect::Rect;
use crate::rng::{rng_range, rng_roll_dice};

verus! {

/// A vector of `n` copies of `v`.
pub(crate) fn filled<T: Copy>(n: usize, v: T) -> (r: Vec<T>)
    ensures
        r@.len() == n,
        forall|i: int| 0 <= i < n ==> r@[i] == v,
{
    let mut r: Vec<T> = Vec::new();
    let mut i: usize = 0;
    while i < n
        invariant
            i <= n,
            r@.len() == i,
            forall|j: int| 0 <= j < i ==> r@[j] == v,
        decreases n - i,
    {
        r.push(v);
        i = i + 1;
    }
    r
}

/// True iff `r` fits strictly inside the one-tile border of a `width` by
/// `height` grid with a carvable interior at least two tiles wide.
pub open spec fn room_fits(r: Rect, width: int, height: int) -> bool {
    &&& 0 <= r.x1
    &&& r.x1 + 2 <= r.x2
    &&& r.x2 <= width - 2
    &&& 0 <= r.y1
    &&& r.y1 + 2 <= r.y2
    &&& r.y2 <= height - 2
}

/// One grid cell's terrain classification.
#[derive(Clone, Copy, PartialEq, Eq, Structural, Debug)]
pub enum TileType {
    Wall,
    Floor,
}

/// The flat index of the coordinate `(x, y)` on a grid `width` tiles wide.
pub open spec fn flat_idx(width: int, x: int, y: int) -> int {
    y * width + x
}

/// The column of the flat index `idx` on a grid `width` tiles wide.
pub open spec fn col_of(width: int, idx: int) -> int {
    idx % width
}

/// The row of the flat index `idx` on a grid `width` tiles wide.
pub open spec fn row_of(width: int, idx: int) -> int {
    idx / width
}

/// True iff the flat index `idx` lies on the outer one-tile border of a
/// `width` by `height` grid.
pub open spec fn on_border(width: int, height: int, idx: int) -> bool {
    col_of(width, idx) == 0 || col_of(width, idx) == width - 1 || row_of(width, idx) == 0
        || row_of(width, idx) == height - 1
}

/// The map of one dungeon level.
pub struct GridMap {
    pub rooms: Vec<Rect>,
    pub tiles: Vec<TileType>,
    pub revealed_tiles: Vec<bool>,
    pub visible_tiles: Vec<bool>,
    pub height: i32,
    pub width: i32,
    pub blocked: Vec<bool>,
}

impl GridMap {
    /// Well-formedness: positive dimensions that fit index arithmetic, and
    /// every per-tile vector holding exactly `width * height` entries.
    pub open spec fn wf(self) -> bool {
        &&& 0 < self.width
        &&& 0 < self.height
        &&& self.width * self.height <= i32::MAX
        &&& self.tiles@.len() == self.width * self.height
        &&& self.revealed_tiles@.len() == self.width * self.height
        &&& self.visible_tiles@.len() == self.width * self.height
        &&& self.blocked@.len() == self.width * self.height
    }

    /// True iff `(x, y)` lies on the grid.
    pub open spec fn in_bounds(self, x: int, y: int) -> bool {
        0 <= x < self.width && 0 <= y < self.height
    }

    /// The flat index of `(x, y)` on this map.
    pub open spec fn spec_xy_idx(self, x: int, y: int) -> int {
        flat_idx(self.width as int, x, y)
    }

    /// True iff the tile at `idx` is a wall, the full occluder for sight.
    pub open spec fn spec_is_opaque(self, idx: int) -> bool {
        self.tiles@[idx] == TileType::Wall
    }

    /// A coordinate within bounds has its flat index within the tile vector.
    pub proof fn lemma_xy_idx_in_range(self, x: int, y: int)
        requires
            self.wf(),
            self.in_bounds(x, y),
        ensures
            0 <= self.spec_xy_idx(x, y) < self.width * self.height,
    {
        let w = self.width as int;
        let h = self.height as int;
        assert(0 <= y * w + x < w * h) by (nonlinear_arith)
            requires
                0 < w,
                0 < h,
                0 <= x < w,
                0 <= y < h,
        ;
    }

    /// Law: converting a coordinate within bounds to a flat index and back
    /// returns the same coordinate.
    pub proof fn lemma_index_roundtrip(self, x: int, y: int)
        requires
            self.wf(),
            self.in_bounds(x, y),
        ensures
            col_of(self.width as int, self.spec_xy_idx(x, y)) == x,
            row_of(self.width as int, self.spec_xy_idx(x, y)) == y,
    {
        let w = self.width as int;
        lemma_fundamental_div_mod_converse(y * w + x, w, y, x);
    }

    /// Law: converting a flat index within the grid to a coordinate and back
    /// returns the same index, and the coordinate is within bounds.
    pub proof fn lemma_coord_roundtrip(self, idx: int)
        requires
            self.wf(),
            0 <= idx < self.width * self.height,
        ensures
            self.in_bounds(col_of(self.width as int, idx), row_of(self.width as int, idx)),
            self.spec_xy_idx(col_of(self.width as int, idx), row_of(self.width as int, idx)) == idx,
    {
        let w = self.width as int;
        let h = self.height as int;
        lemma_fundamental_div_mod(idx, w);
        assert(0 <= idx % w < w) by (nonlinear_arith)
            requires
                0 < w,
                0 <= idx,
        ;
        assert(0 <= idx / w < h) by (nonlinear_arith)
            requires
                0 < w,
                0 < h,
                0 <= idx < w * h,
                idx == w * (idx / w) + idx % w,
                0 <= idx % w < w,
        ;
    }

    /// Two distinct coordinates within bounds have distinct flat indices.
    pub proof fn lemma_xy_idx_injective(self, xa: int, ya: int, xb: int, yb: int)
        requires
            self.wf(),
            self.in_bounds(xa, ya),
            self.in_bounds(xb, yb),
            self.spec_xy_idx(xa, ya) == self.spec_xy_idx(xb, yb),
        ensures
            xa == xb && ya == yb,
    {
        self.lemma_index_roundtrip(xa, ya);
        self.lemma_index_roundtrip(xb, yb);
    }

    /// The canonical conversion from a coordinate to a flat tile index.
    pub fn xy_idx(&self, x: i32, y: i32) -> (idx: usize)
        requires
            self.wf(),
            self.in_bounds(x as int, y as int),
        ensures
            idx == self.spec_xy_idx(x as int, y as int),
            idx < self.tiles@.len(),
    {
        proof {
            self.lemma_xy_idx_in_range(x as int, y as int);
        }
        (y as usize * self.width as usize) + x as usize
    }

    /// The canonical conversion from a flat tile index back to a coordinate.
    pub fn idx_xy(&self, idx: usize) -> (c: (i32, i32))
        requires
            self.wf(),
            idx < self.tiles@.len(),
        ensures
            c.0 == col_of(self.width as int, idx as int),
            c.1 == row_of(self.width as int, idx as int),
            self.in_bounds(c.0 as int, c.1 as int),
            self.spec_xy_idx(c.0 as int, c.1 as int) == idx,
    {
        proof {
            self.lemma_coord_roundtrip(idx as int);
        }
        (idx as i32 % self.width, idx as i32 / self.width)
    }

    /// True iff the tile at `idx` blocks sight.
    pub fn is_opaque(&self, idx: usize) -> (r: bool)
        requires
            idx < self.tiles@.len(),
        ensures
            r == self.spec_is_opaque(idx as int),
    {
        self.tiles[idx] == TileType::Wall
    }

    /// True iff `(x, y)` can be stepped onto: strictly inside the one-tile
    /// border and not currently blocked.
    pub open spec fn spec_exit_valid(self, x: int, y: int) -> bool {
        &&& 1 <= x < self.width - 1
        &&& 1 <= y < self.height - 1
        &&& !self.blocked@[flat_idx(self.width as int, x, y)]
    }

    /// True iff a creature may step from tile `u` to tile `v`: both on the
    /// grid, `v` a cardinal neighbour of `u`, and `v` a valid exit.
    pub open spec fn spec_valid_step(self, u: int, v: int) -> bool {
        let w = self.width as int;
        let ux = col_of(w, u);
        let uy = row_of(w, u);
        let vx = col_of(w, v);
        let vy = row_of(w, v);
        &&& 0 <= u < self.width * self.height
        &&& 0 <= v < self.width * self.height
        &&& self.spec_exit_valid(vx, vy)
        &&& ((vx == ux - 1 && vy == uy) || (vx == ux + 1 && vy == uy) || (vx == ux && vy == uy - 1)
            || (vx == ux && vy == uy + 1))
    }

    /// True iff `(x, y)` is strictly inside the border and not blocked.
    fn is_exit_valid(&self, x: i32, y: i32) -> (r: bool)
        requires
            self.wf(),
        ensures
            r == self.spec_exit_valid(x as int, y as int),
    {
        if x < 1 || x >= self.width - 1 || y < 1 || y >= self.height - 1 {
            return false;
        }
        let map_idx = self.xy_idx(x, y);
        !self.blocked[map_idx]
    }

    /// The tiles a creature on `idx` may step onto: the cardinal neighbours
    /// that are strictly inside the border and not blocked. Step cost is
    /// uniform, so the exits carry no weights.
    pub fn get_available_exits(&self, idx: usize) -> (exits: Vec<usize>)
        requires
            self.wf(),
            idx < self.tiles@.len(),
        ensures
            forall|j: int|
                0 <= j < exits@.len() ==> self.spec_valid_step(idx as int, #[trigger] exits@[j] as int),
            forall|v: int|
                #[trigger] self.spec_valid_step(idx as int, v) ==> exists|j: int|
                    0 <= j < exits@.len() && exits@[j] == v,
    {
        let (x, y) = self.idx_xy(idx);
        let mut exits: Vec<usize> = Vec::new();
        let ghost mut jleft: int = -1;
        let ghost mut jright: int = -1;
        let ghost mut jup: int = -1;
        let ghost mut jdown: int = -1;
        if self.is_exit_valid(x - 1, y) {
            let e = self.xy_idx(x - 1, y);
            proof {
                self.lemma_index_roundtrip(x - 1, y as int);
            }
            exits.push(e);
            proof {
                jleft = exits@.len() - 1;
            }
        }
        if self.is_exit_valid(x + 1, y) {
            let e = self.xy_idx(x + 1, y);
            proof {
                self.lemma_index_roundtrip(x + 1, y as int);
            }
            exits.push(e);
            proof {
                jright = exits@.len() - 1;
            }
        }
        if self.is_exit_valid(x, y - 1) {
            let e = self.xy_idx(x, y - 1);
            proof {
                self.lemma_index_roundtrip(x as int, y - 1);
            }
            exits.push(e);
            proof {
                jup = exits@.len() - 1;
            }
        }
        if self.is_exit_valid(x, y + 1) {
            let e = self.xy_idx(x, y + 1);
            proof {
                self.lemma_index_roundtrip(x as int, y + 1);
            }
            exits.push(e);
            proof {
                jdown = exits@.len() - 1;
            }
        }
        proof {
            let w = self.width as int;
            assert forall|v: int| self.spec_valid_step(idx as int, v) implies exists|j: int|
                0 <= j < exits@.len() && exits@[j] == v by {
                self.lemma_coord_roundtrip(v);
                self.lemma_coord_roundtrip(idx as int);
                let vx = col_of(w, v);
                let vy = row_of(w, v);
                if vx == x - 1 && vy == y as int {
                    assert(0 <= jleft < exits@.len() && exits@[jleft] == v);
                } else if vx == x + 1 && vy == y as int {
                    assert(0 <= jright < exits@.len() && exits@[jright] == v);
                } else if vx == x as int && vy == y - 1 {
                    assert(0 <= jup < exits@.len() && exits@[jup] == v);
                } else {
                    assert(0 <= jdown < exits@.len() && exits@[jdown] == v);
                }
            }
        }
        exits
    }

    /// True iff `post` differs from `self` in the tile terrain alone: the
    /// room list, the derived sets and the dimensions all carry over.
    pub open spec fn same_but_tiles(self, post: GridMap) -> bool {
        &&& post.rooms == self.rooms
        &&& post.revealed_tiles == self.revealed_tiles
        &&& post.visible_tiles == self.visible_tiles
        &&& post.blocked == self.blocked
        &&& post.width == self.width
        &&& post.height == self.height
        &&& post.tiles@.len() == self.tiles@.len()
    }

    /// Carves the interior of `room` to floor, leaving every other tile as
    /// it was. The interior never touches the outer one-tile border.
    #[verifier::loop_isolation(false)]
    fn apply_room_to_map(&mut self, room: &Rect)
        requires
            old(self).wf(),
            0 <= room.x1 < room.x2 <= old(self).width - 2,
            0 <= room.y1 < room.y2 <= old(self).height - 2,
        ensures
            final(self).wf(),
            old(self).same_but_tiles(*final(self)),
            forall|i: int|
                0 <= i < final(self).tiles@.len() ==> #[trigger] final(self).tiles@[i] == (
                if room.spec_interior_contains(
                    col_of(old(self).width as int, i),
                    row_of(old(self).width as int, i),
                ) {
                    TileType::Floor
                } else {
                    old(self).tiles@[i]
                }),
    {
        let ghost w = self.width as int;
        let mut y = room.y1 + 1;
        while y <= room.y2
            invariant
                self.wf(),
                old(self).same_but_tiles(*self),
                room.y1 + 1 <= y <= room.y2 + 1,
                forall|i: int|
                    0 <= i < self.tiles@.len() ==> #[trigger] self.tiles@[i] == (
                    if room.spec_interior_contains(col_of(w, i), row_of(w, i)) && row_of(w, i)
                        < y {
                        TileType::Floor
                    } else {
                        old(self).tiles@[i]
                    }),
            decreases room.y2 + 1 - y,
        {
            let mut x = room.x1 + 1;
            while x <= room.x2
                invariant
                    self.wf(),
                    old(self).same_but_tiles(*self),
                    room.y1 + 1 <= y <= room.y2,
                    room.x1 + 1 <= x <= room.x2 + 1,
                    forall|i: int|
                        0 <= i < self.tiles@.len() ==> #[trigger] self.tiles@[i] == (
                        if room.spec_interior_contains(col_of(w, i), row_of(w, i)) && (row_of(
                            w,
                            i,
                        ) < y || (row_of(w, i) == y && col_of(w, i) < x)) {
                            TileType::Floor
                        } else {
                            old(self).tiles@[i]
                        }),
                decreases room.x2 + 1 - x,
            {
                let room_tile_index = self.xy_idx(x, y);
                self.tiles[room_tile_index] = TileType::Floor;
                proof {
                    self.lemma_index_roundtrip(x as int, y as int);
                    assert forall|i: int| 0 <= i < self.tiles@.len() implies #[trigger] self
                        .tiles@[i] == (if room.spec_interior_contains(col_of(w, i), row_of(w, i))
                        && (row_of(w, i) < y || (row_of(w, i) == y && col_of(w, i) < x + 1)) {
                        TileType::Floor
                    } else {
                        old(self).tiles@[i]
                    }) by {
                        self.lemma_coord_roundtrip(i);
                    }
                }
                x = x + 1;
            }
            y = y + 1;
        }
    }

    /// Carves a straight horizontal corridor segment at row `y`, spanning the
    /// columns between `x1` and `x2` inclusive, in either order.
    #[verifier::loop_isolation(false)]
    fn apply_horizontal_tunnel(&mut self, x1: i32, x2: i32, y: i32)
        requires
            old(self).wf(),
            1 <= x1 <= old(self).width - 2,
            1 <= x2 <= old(self).width - 2,
            1 <= y <= old(self).height - 2,
        ensures
            final(self).wf(),
            old(self).same_but_tiles(*final(self)),
            forall|i: int|
                0 <= i < final(self).tiles@.len() ==> #[trigger] final(self).tiles@[i] == (
                if row_of(old(self).width as int, i) == y && (x1 <= col_of(
                    old(self).width as int,
                    i,
                ) <= x2 || x2 <= col_of(old(self).width as int, i) <= x1) {
                    TileType::Floor
                } else {
                    old(self).tiles@[i]
                }),
    {
        let ghost w = self.width as int;
        let lo = if x1 < x2 {
            x1
        } else {
            x2
        };
        let hi = if x1 < x2 {
            x2
        } else {
            x1
        };
        let mut x = lo;
        while x <= hi
            invariant
                self.wf(),
                old(self).same_but_tiles(*self),
                lo <= x <= hi + 1,
                forall|i: int|
                    0 <= i < self.tiles@.len() ==> #[trigger] self.tiles@[i] == (
                    if row_of(w, i) == y && lo <= col_of(w, i) < x {
                        TileType::Floor
                    } else {
                        old(self).tiles@[i]
                    }),
            decreases hi + 1 - x,
        {
            let idx = self.xy_idx(x, y);
            self.tiles[idx] = TileType::Floor;
            proof {
                self.lemma_index_roundtrip(x as int, y as int);
                assert forall|i: int| 0 <= i < self.tiles@.len() implies #[trigger] self.tiles@[i]
                    == (if row_of(w, i) == y && lo <= col_of(w, i) < x + 1 {
                    TileType::Floor
                } else {
                    old(self).tiles@[i]
                }) by {
                    self.lemma_coord_roundtrip(i);
                }
            }
            x = x + 1;
        }
    }

    /// Carves a straight vertical corridor segment at column `x`, spanning
    /// the rows between `y1` and `y2` inclusive, in either order.
    #[verifier::loop_isolation(false)]
    fn apply_vertical_tunnel(&mut self, y1: i32, y2: i32, x: i32)
        requires
            old(self).wf(),
            1 <= y1 <= old(self).height - 2,
            1 <= y2 <= old(self).height - 2,
            1 <= x <= old(self).width - 2,
        ensures
            final(self).wf(),
            old(self).same_but_tiles(*final(self)),
            forall|i: int|
                0 <= i < final(self).tiles@.len() ==> #[trigger] final(self).tiles@[i] == (
                if col_of(old(self).width as int, i) == x && (y1 <= row_of(
                    old(self).width as int,
                    i,
                ) <= y2 || y2 <= row_of(old(self).width as int, i) <= y1) {
                    TileType::Floor
                } else {
                    old(self).tiles@[i]
                }),
    {
        let ghost w = self.width as int;
        let lo = if y1 < y2 {
            y1
        } else {
            y2
        };
        let hi = if y1 < y2 {
            y2
        } else {
            y1
        };
        let mut y = lo;
        while y <= hi
            invariant
                self.wf(),
                old(self).same_but_tiles(*self),
                lo <= y <= hi + 1,
                forall|i: int|
                    0 <= i < self.tiles@.len() ==> #[trigger] self.tiles@[i] == (
                    if col_of(w, i) == x && lo <= row_of(w, i) < y {
                        TileType::Floor
                    } else {
                        old(self).tiles@[i]
                    }),
            decreases hi + 1 - y,
        {
            let idx = self.xy_idx(x, y);
            self.tiles[idx] = TileType::Floor;
            proof {
                self.lemma_index_roundtrip(x as int, y as int);
                assert forall|i: int| 0 <= i < self.tiles@.len() implies #[trigger] self.tiles@[i]
                    == (if col_of(w, i) == x && lo <= row_of(w, i) < y + 1 {
                    TileType::Floor
                } else {
                    old(self).tiles@[i]
                }) by {
                    self.lemma_coord_roundtrip(i);
                }
            }
            y = y + 1;
        }
    }

    /// Resets the blocked set from the terrain alone: a tile is blocked iff
    /// it is a wall. Blocking entities are added on top by map indexing.
    #[verifier::loop_isolation(false)]
    pub fn populate_blocked(&mut self)
        requires
            old(self).wf(),
        ensures
            final(self).wf(),
            final(self).rooms == old(self).rooms,
            final(self).tiles == old(self).tiles,
            final(self).revealed_tiles == old(self).revealed_tiles,
            final(self).visible_tiles == old(self).visible_tiles,
            final(self).width == old(self).width,
            final(self).height == old(self).height,
            forall|i: int|
                0 <= i < final(self).blocked@.len() ==> #[trigger] final(self).blocked@[i] == (
                old(self).tiles@[i] == TileType::Wall),
    {
        let mut i: usize = 0;
        let n = self.tiles.len();
        while i < n
            invariant
                self.wf(),
                n == self.tiles@.len(),
                i <= n,
                self.rooms == old(self).rooms,
                self.tiles == old(self).tiles,
                self.revealed_tiles == old(self).revealed_tiles,
                self.visible_tiles == old(self).visible_tiles,
                self.width == old(self).width,
                self.height == old(self).height,
                forall|j: int|
                    0 <= j < i ==> #[trigger] self.blocked@[j] == (old(self).tiles@[j]
                        == TileType::Wall),
            decreases n - i,
        {
            let is_wall = self.tiles[i] == TileType::Wall;
            self.blocked[i] = is_wall;
            i = i + 1;
        }
    }

    /// A map with solid boundaries and up to 400 randomly placed walls,
    /// sparing the spawn tile at `(40, 25)`. Just for testing.
    #[verifier::loop_isolation(false)]
    pub fn new_map_test(rng: &mut rltk::RandomNumberGenerator) -> (map: GridMap)
        ensures
            map.wf(),
            map.width == 80,
            map.height == 50,
            map.rooms@.len() == 0,
            forall|i: int|
                0 <= i < map.tiles@.len() && on_border(80, 50, i) ==> #[trigger] map.tiles@[i]
                    == TileType::Wall,
            map.tiles@[flat_idx(80, 40, 25)] == TileType::Floor,
            forall|i: int| 0 <= i < map.revealed_tiles@.len() ==> !(#[trigger] map.revealed_tiles@[i]),
            forall|i: int| 0 <= i < map.visible_tiles@.len() ==> !(#[trigger] map.visible_tiles@[i]),
            forall|i: int| 0 <= i < map.blocked@.len() ==> !(#[trigger] map.blocked@[i]),
    {
        let mut tiles: Vec<TileType> = Vec::new();
        let mut i: usize = 0;
        // Solid boundaries around an open floor.
        while i < 80 * 50
            invariant
                i <= 80 * 50,
                tiles@.len() == i,
                forall|j: int|
                    0 <= j < i ==> #[trigger] tiles@[j] == (if on_border(80, 50, j) {
                        TileType::Wall
                    } else {
                        TileType::Floor
                    }),
            decreases 80 * 50 - i,
        {
            let x = (i % 80) as i32;
            let y = (i / 80) as i32;
            let t = if x == 0 || x == 79 || y == 0 || y == 49 {
                TileType::Wall
            } else {
                TileType::Floor
            };
            tiles.push(t);
            i = i + 1;
        }
        let mut map = GridMap {
            tiles,
            rooms: Vec::new(),
            revealed_tiles: filled(80 * 50, false),
            visible_tiles: filled(80 * 50, false),
            blocked: filled(80 * 50, false),
            height: 50,
            width: 80,
        };
        let spawn_index = map.xy_idx(40, 25);
        proof {
            map.lemma_index_roundtrip(40, 25);
        }
        // Scatter walls around the inner part of the map, sparing the spawn.
        let mut k: usize = 0;
        while k < 400
            invariant
                map.wf(),
                map.width == 80,
                map.height == 50,
                map.rooms@.len() == 0,
                spawn_index == flat_idx(80, 40, 25),
                forall|i: int|
                    0 <= i < map.tiles@.len() && on_border(80, 50, i) ==> #[trigger] map.tiles@[i]
                        == TileType::Wall,
                map.tiles@[flat_idx(80, 40, 25)] == TileType::Floor,
                forall|i: int|
                    0 <= i < map.revealed_tiles@.len() ==> !(#[trigger] map.revealed_tiles@[i]),
                forall|i: int|
                    0 <= i < map.visible_tiles@.len() ==> !(#[trigger] map.visible_tiles@[i]),
                forall|i: int| 0 <= i < map.blocked@.len() ==> !(#[trigger] map.blocked@[i]),
            decreases 400 - k,
        {
            let x = rng_roll_dice(rng, 1, 79);
            let y = rng_roll_dice(rng, 1, 49);
            let idx = map.xy_idx(x, y);
            if idx != spawn_index {
                map.tiles[idx] = TileType::Wall;
            }
            k = k + 1;
        }
        map
    }

    /// The procedural generator: starts from solid wall, carves up to 30
    /// non-overlapping rooms strictly inside the border, and connects each
    /// accepted room's centre to the previous accepted room's centre with an
    /// L-shaped corridor.
    #[verifier::loop_isolation(false)]
    pub fn new(rng: &mut rltk::RandomNumberGenerator) -> (map: GridMap)
        ensures
            map.wf(),
            map.width == 80,
            map.height == 50,
            1 <= map.rooms@.len() <= 30,
            forall|a: int, b: int|
                0 <= a < b < map.rooms@.len() ==> !(#[trigger] map.rooms@[a].spec_intersect(
                    map.rooms@[b],
                )),
            forall|k: int| 0 <= k < map.rooms@.len() ==> room_fits(#[trigger] map.rooms@[k], 80, 50),
            forall|i: int|
                0 <= i < map.tiles@.len() && on_border(80, 50, i) ==> #[trigger] map.tiles@[i]
                    == TileType::Wall,
            forall|k: int, i: int|
                #![trigger map.rooms@[k].spec_interior_contains(col_of(80, i), row_of(80, i))]
                0 <= k < map.rooms@.len() && 0 <= i < map.tiles@.len()
                    && map.rooms@[k].spec_interior_contains(col_of(80, i), row_of(80, i))
                    ==> map.tiles@[i] == TileType::Floor,
            forall|i: int| 0 <= i < map.revealed_tiles@.len() ==> !(#[trigger] map.revealed_tiles@[i]),
            forall|i: int| 0 <= i < map.visible_tiles@.len() ==> !(#[trigger] map.visible_tiles@[i]),
            forall|i: int| 0 <= i < map.blocked@.len() ==> !(#[trigger] map.blocked@[i]),
    {
        let mut map = GridMap {
            tiles: filled(80 * 50, TileType::Wall),
            rooms: Vec::new(),
            revealed_tiles: filled(80 * 50, false),
            visible_tiles: filled(80 * 50, false),
            blocked: filled(80 * 50, false),
            height: 50,
            width: 80,
        };
        let mut attempt: usize = 0;
        while attempt < 30
            invariant
                map.wf(),
                map.width == 80,
                map.height == 50,
                map.rooms@.len() <= attempt,
                attempt <= 30,
                1 <= attempt ==> 1 <= map.rooms@.len(),
                forall|a: int, b: int|
                    0 <= a < b < map.rooms@.len() ==> !(#[trigger] map.rooms@[a].spec_intersect(
                        map.rooms@[b],
                    )),
                forall|k: int|
                    0 <= k < map.rooms@.len() ==> room_fits(#[trigger] map.rooms@[k], 80, 50),
                forall|i: int|
                    0 <= i < map.tiles@.len() && on_border(80, 50, i) ==> #[trigger] map.tiles@[i]
                        == TileType::Wall,
                forall|k: int, i: int|
                    #![trigger map.rooms@[k].spec_interior_contains(col_of(80, i), row_of(80, i))]
                    0 <= k < map.rooms@.len() && 0 <= i < map.tiles@.len()
                        && map.rooms@[k].spec_interior_contains(col_of(80, i), row_of(80, i))
                        ==> map.tiles@[i] == TileType::Floor,
                forall|i: int|
                    0 <= i < map.revealed_tiles@.len() ==> !(#[trigger] map.revealed_tiles@[i]),
                forall|i: int|
                    0 <= i < map.visible_tiles@.len() ==> !(#[trigger] map.visible_tiles@[i]),
                forall|i: int| 0 <= i < map.blocked@.len() ==> !(#[trigger] map.blocked@[i]),
            decreases 30 - attempt,
        {
            let w = rng_range(rng, 6, 10);
            let h = rng_range(rng, 6, 10);
            let x = rng_roll_dice(rng, 1, 80 - w - 1) - 1;
            let y = rng_roll_dice(rng, 1, 50 - h - 1) - 1;
            let new_room = Rect::new(x, y, w, h);
            let mut ok = true;
            let mut j: usize = 0;
            while j < map.rooms.len()
                invariant
                    j <= map.rooms@.len(),
                    ok <==> forall|t: int|
                        0 <= t < j ==> !new_room.spec_intersect(#[trigger] map.rooms@[t]),
                decreases map.rooms@.len() - j,
            {
                let other = map.rooms[j];
                if new_room.intersect(&other) {
                    ok = false;
                }
                j = j + 1;
            }
            if ok {
                map.apply_room_to_map(&new_room);
                if map.rooms.len() > 0 {
                    proof {
                        new_room.lemma_center_strictly_inside();
                        map.rooms@[map.rooms@.len() - 1].lemma_center_strictly_inside();
                    }
                    let (new_x, new_y) = new_room.center();
                    let prev = map.rooms[map.rooms.len() - 1];
                    let (prev_x, prev_y) = prev.center();
                    if rng_roll_dice(rng, 1, 2) == 1 {
                        map.apply_vertical_tunnel(prev_y, new_y, prev_x);
                        map.apply_horizontal_tunnel(prev_x, new_x, new_y);
                    } else {
                        map.apply_horizontal_tunnel(prev_x, new_x, prev_y);
                        map.apply_vertical_tunnel(prev_y, new_y, new_x);
                    }
                }
                map.rooms.push(new_room);
            }
            attempt = attempt + 1;
        }
        map
    }
}

} // verus!
