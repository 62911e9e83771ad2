//! Field of view: the set of coordinates with unobstructed line of sight
//! from an origin out to a range, with walls as full occluders. Sight is
//! discretised along straight lines sampled in equal steps of the larger
//! axis delta, rounding to the nearest tile.

use vstd::arithmetic::div_mod::{lemma_div_pos_is_pos, lemma_fundamental_div_mod};
use vstd::prelude::*;

use crate::components::Point;
use crate::map::{flat_idx, GridMap};

verus! {

/// The absolute difference of `a` and `b`.
pub open spec fn abs_delta(a: int, b: int) -> int {
    if b >= a {
        b - a
    } else {
        a - b
    }
}

/// The number of equal steps used to discretise the line between two
/// coordinates: the larger axis delta.
pub open spec fn line_steps(x0: int, y0: int, x1: int, y1: int) -> int {
    if abs_delta(x0, x1) >= abs_delta(y0, y1) {
        abs_delta(x0, x1)
    } else {
        abs_delta(y0, y1)
    }
}

/// One axis of the point reached after `i` of `n` equal steps from `a`
/// toward `b`: `a` moved by `i * |b - a| / n`, rounded to the nearest tile.
pub open spec fn line_coord(a: int, b: int, i: int, n: int) -> int {
    let d = abs_delta(a, b);
    let o = (2 * i * d + n) / (2 * n);
    if b >= a {
        a + o
    } else {
        a - o
    }
}

/// The offset along one axis after `i` of `n` steps lies between 0 and the
/// full axis delta, so every sampled point stays between the endpoints.
proof fn lemma_line_offset_bounds(d: int, i: int, n: int)
    requires
        0 <= d <= n,
        0 < n,
        0 <= i <= n,
    ensures
        0 <= (2 * i * d + n) / (2 * n) <= d,
{
    assert(0 <= 2 * i * d) by (nonlinear_arith)
        requires
            0 <= i,
            0 <= d,
    ;
    lemma_div_pos_is_pos(2 * i * d + n, 2 * n);
    let q = (2 * i * d + n) / (2 * n);
    let r = (2 * i * d + n) % (2 * n);
    lemma_fundamental_div_mod(2 * i * d + n, 2 * n);
    assert(q <= d) by (nonlinear_arith)
        requires
            2 * i * d + n == 2 * n * q + r,
            0 <= r < 2 * n,
            0 < n,
            0 <= d,
            i <= n,
            0 <= q,
    ;
}

/// True iff no tile strictly between `(x0, y0)` and `(x1, y1)` on the
/// discretised line is opaque: the line of sight is clear. The endpoints
/// themselves never block the line, so a wall at the far end is seen.
pub open spec fn spec_los_clear(m: GridMap, x0: int, y0: int, x1: int, y1: int) -> bool {
    let n = line_steps(x0, y0, x1, y1);
    forall|i: int|
        0 < i < n ==> !m.spec_is_opaque(
            flat_idx(m.width as int, #[trigger] line_coord(x0, x1, i, n), line_coord(y0, y1, i, n)),
        )
}

/// True iff `(x, y)` is visible from `(ox, oy)`: on the grid, within
/// `range` by Euclidean distance, and with a clear line of sight.
pub open spec fn spec_visible(m: GridMap, ox: int, oy: int, range: int, x: int, y: int) -> bool {
    &&& m.in_bounds(x, y)
    &&& (x - ox) * (x - ox) + (y - oy) * (y - oy) <= range * range
    &&& spec_los_clear(m, ox, oy, x, y)
}

/// True iff the line of sight from `(x0, y0)` to `(x1, y1)` is clear of
/// walls between the endpoints.
#[verifier::loop_isolation(false)]
fn line_clear(m: &GridMap, x0: i32, y0: i32, x1: i32, y1: i32) -> (r: bool)
    requires
        m.wf(),
        m.in_bounds(x0 as int, y0 as int),
        m.in_bounds(x1 as int, y1 as int),
    ensures
        r == spec_los_clear(*m, x0 as int, y0 as int, x1 as int, y1 as int),
{
    let adx = if x1 >= x0 {
        x1 - x0
    } else {
        x0 - x1
    };
    let ady = if y1 >= y0 {
        y1 - y0
    } else {
        y0 - y1
    };
    let n = if adx >= ady {
        adx
    } else {
        ady
    };
    let ghost gn = line_steps(x0 as int, y0 as int, x1 as int, y1 as int);
    let mut i: i32 = 1;
    while i < n
        invariant
            1 <= i,
            i <= n || i == 1,
            forall|k: int|
                0 < k < i ==> !m.spec_is_opaque(
                    flat_idx(
                        m.width as int,
                        #[trigger] line_coord(x0 as int, x1 as int, k, gn),
                        line_coord(y0 as int, y1 as int, k, gn),
                    ),
                ),
        decreases n - i,
    {
        proof {
            assert(0 <= 2 * (i as int) * (adx as int) <= 0x2_0000_0000_0000_0000) by (nonlinear_arith)
                requires
                    0 <= i <= 0x8000_0000,
                    0 <= adx <= 0x8000_0000,
            ;
            assert(0 <= 2 * (i as int) * (ady as int) <= 0x2_0000_0000_0000_0000) by (nonlinear_arith)
                requires
                    0 <= i <= 0x8000_0000,
                    0 <= ady <= 0x8000_0000,
            ;
        }
        let qx: i128 = (2 * (i as i128) * (adx as i128) + (n as i128)) / (2 * (n as i128));
        let qy: i128 = (2 * (i as i128) * (ady as i128) + (n as i128)) / (2 * (n as i128));
        proof {
            lemma_line_offset_bounds(adx as int, i as int, n as int);
            lemma_line_offset_bounds(ady as int, i as int, n as int);
        }
        let ox = qx as i32;
        let oy = qy as i32;
        let px = if x1 >= x0 {
            x0 + ox
        } else {
            x0 - ox
        };
        let py = if y1 >= y0 {
            y0 + oy
        } else {
            y0 - oy
        };
        proof {
            assert(px as int == line_coord(x0 as int, x1 as int, i as int, gn));
            assert(py as int == line_coord(y0 as int, y1 as int, i as int, gn));
        }
        let idx = m.xy_idx(px, py);
        if m.is_opaque(idx) {
            return false;
        }
        i = i + 1;
    }
    true
}

/// The field of view from `(ox, oy)` out to `range`: exactly the points on
/// the grid within range that have a clear line of sight from the origin.
/// Every returned coordinate lies on the grid; nothing out of bounds is
/// ever produced.
#[verifier::loop_isolation(false)]
pub fn field_of_view(m: &GridMap, ox: i32, oy: i32, range: i32) -> (pts: Vec<Point>)
    requires
        m.wf(),
        m.in_bounds(ox as int, oy as int),
        0 <= range,
    ensures
        forall|p: Point|
            #[trigger] pts@.contains(p) <==> spec_visible(
                *m,
                ox as int,
                oy as int,
                range as int,
                p.x as int,
                p.y as int,
            ),
{
    let mut pts: Vec<Point> = Vec::new();
    let mut y: i32 = 0;
    while y < m.height
        invariant
            0 <= y <= m.height,
            forall|p: Point|
                #[trigger] pts@.contains(p) <==> (spec_visible(
                    *m,
                    ox as int,
                    oy as int,
                    range as int,
                    p.x as int,
                    p.y as int,
                ) && p.y < y),
        decreases m.height - y,
    {
        let mut x: i32 = 0;
        while x < m.width
            invariant
                0 <= y < m.height,
                0 <= x <= m.width,
                forall|p: Point|
                    #[trigger] pts@.contains(p) <==> (spec_visible(
                        *m,
                        ox as int,
                        oy as int,
                        range as int,
                        p.x as int,
                        p.y as int,
                    ) && (p.y < y || (p.y == y && p.x < x))),
            decreases m.width - x,
        {
            let dx: i128 = (x as i128) - (ox as i128);
            let dy: i128 = (y as i128) - (oy as i128);
            proof {
                assert(0 <= dx * dx <= 0x1_0000_0000_0000_0000 && 0 <= dy * dy
                    <= 0x1_0000_0000_0000_0000) by (nonlinear_arith)
                    requires
                        -0x1_0000_0000 <= dx <= 0x1_0000_0000,
                        -0x1_0000_0000 <= dy <= 0x1_0000_0000,
                ;
            }
            let d2: i128 = dx * dx + dy * dy;
            proof {
                assert(0 <= (range as int) * (range as int) <= 0x1_0000_0000_0000_0000)
                    by (nonlinear_arith)
                    requires
                        0 <= range <= 0x1_0000_0000,
                ;
            }
            let r2: i128 = (range as i128) * (range as i128);
            if d2 <= r2 {
                if line_clear(m, ox, oy, x, y) {
                    let ghost prev = pts@;
                    pts.push(Point { x, y });
                    proof {
                        assert(pts@[pts@.len() - 1] == Point { x, y });
                        assert forall|p: Point| #[trigger] pts@.contains(p) implies (spec_visible(
                            *m,
                            ox as int,
                            oy as int,
                            range as int,
                            p.x as int,
                            p.y as int,
                        ) && (p.y < y || (p.y == y && p.x < x + 1))) by {
                            if p != (Point { x, y }) {
                                let j = choose|j: int| 0 <= j < pts@.len() && pts@[j] == p;
                                assert(prev[j] == p);
                                assert(prev.contains(p));
                            }
                        }
                        assert forall|p: Point|
                            (spec_visible(
                                *m,
                                ox as int,
                                oy as int,
                                range as int,
                                p.x as int,
                                p.y as int,
                            ) && (p.y < y || (p.y == y && p.x < x + 1))) implies #[trigger] pts@
                            .contains(p) by {
                            if p == (Point { x, y }) {
                                assert(pts@[pts@.len() - 1] == p);
                            } else {
                                assert(prev.contains(p));
                                let j = choose|j: int| 0 <= j < prev.len() && prev[j] == p;
                                assert(pts@[j] == p);
                            }
                        }
                    }
                }
            }
            x = x + 1;
        }
        y = y + 1;
    }
    pts
}

} // verus!
