//! Shortest-path search over the map's step relation, used by monster
//! pursuit. Step cost is uniform, so breadth-first order yields walks no
//! longer than any other walk between the same tiles.

use vstd::prelude::*;
use vstd::relations::injective;
use vstd::set_lib::{lemma_int_range, lemma_len_subset, set_int_range};

use crate::map::{filled, GridMap};

verus! {

/// True iff `w` is a walk from `start` to `goal` on `m`: nonempty, starting
/// and ending there, and every consecutive pair a valid step.
pub open spec fn is_walk(m: GridMap, w: Seq<usize>, start: usize, goal: usize) -> bool {
    &&& w.len() >= 1
    &&& w[0] == start
    &&& w[w.len() - 1] == goal
    &&& forall|k: int|
        0 <= k < w.len() - 1 ==> m.spec_valid_step(#[trigger] w[k] as int, w[k + 1] as int)
}

/// True iff some walk joins `start` to `goal` on `m`.
pub open spec fn reachable(m: GridMap, start: usize, goal: usize) -> bool {
    exists|w: Seq<usize>| is_walk(m, w, start, goal)
}

/// True iff `w` is a walk from `start` to `goal` no longer than any other.
pub open spec fn is_shortest_walk(m: GridMap, w: Seq<usize>, start: usize, goal: usize) -> bool {
    &&& is_walk(m, w, start, goal)
    &&& forall|w2: Seq<usize>| is_walk(m, w2, start, goal) ==> w.len() <= w2.len()
}

/// Search bookkeeping: every visited tile other than the start has a
/// visited parent one valid step away and one unit closer to the start.
spec fn parents_ok(
    m: GridMap,
    visited: Seq<bool>,
    dist: Seq<usize>,
    parent: Seq<usize>,
    start: usize,
) -> bool {
    forall|v: int|
        0 <= v < visited.len() && #[trigger] visited[v] && v != start ==> parent[v]
            < visited.len() && visited[parent[v] as int] && m.spec_valid_step(parent[v] as int, v)
            && dist[v] == dist[parent[v] as int] + 1
}

/// Search closure: every valid step away from a visited tile lands on a
/// visited tile at most one unit further from the start.
spec fn bfs_closed(m: GridMap, visited: Seq<bool>, dist: Seq<usize>) -> bool {
    forall|u: int, v: int|
        0 <= u < visited.len() && visited[u] && #[trigger] m.spec_valid_step(u, v) ==> 0 <= v
            < visited.len() && visited[v] && dist[v] <= dist[u] + 1
}

/// Under search closure, the end of any walk out of the start is visited,
/// at a distance bounded by the number of the walk's steps.
proof fn lemma_walk_bound(
    m: GridMap,
    visited: Seq<bool>,
    dist: Seq<usize>,
    start: usize,
    w: Seq<usize>,
    goal: usize,
)
    requires
        visited.len() == dist.len(),
        bfs_closed(m, visited, dist),
        (start as int) < visited.len(),
        visited[start as int],
        dist[start as int] == 0,
        is_walk(m, w, start, goal),
    ensures
        (goal as int) < visited.len(),
        visited[goal as int],
        dist[goal as int] <= w.len() - 1,
    decreases w.len(),
{
    if w.len() == 1 {
        assert(goal == start);
    } else {
        let prev = w[w.len() - 2];
        let w2 = w.drop_last();
        assert(is_walk(m, w2, start, prev));
        lemma_walk_bound(m, visited, dist, start, w2, prev);
        assert(m.spec_valid_step(prev as int, w[w.len() - 1] as int));
    }
}

/// A sequence of distinct indices below `n` has at most `n` entries.
proof fn lemma_bounded_distinct_len(q: Seq<usize>, n: int)
    requires
        q.no_duplicates(),
        forall|k: int| 0 <= k < q.len() ==> (#[trigger] q[k] as int) < n,
        0 <= n,
    ensures
        q.len() <= n,
{
    let f = |u: usize| u as int;
    assert(injective(f)) by {
        assert forall|a: usize, b: usize| #[trigger] f(a) == #[trigger] f(b) implies a == b by {}
    }
    q.lemma_no_duplicates_injective(f);
    let mapped = q.map_values(f);
    mapped.unique_seq_to_set();
    assert(mapped.to_set().subset_of(set_int_range(0, n))) by {
        assert forall|x: int| mapped.to_set().contains(x) implies set_int_range(0, n).contains(
            x,
        ) by {
            let k = choose|k: int| 0 <= k < mapped.len() && mapped[k] == x;
            assert((q[k] as int) < n);
        }
    }
    lemma_int_range(0, n);
    lemma_len_subset(mapped.to_set(), set_int_range(0, n));
}

impl GridMap {
    /// Breadth-first search out of `start`: returns the visited flags, the
    /// step counts from the start, and the parent of every visited tile.
    #[verifier::loop_isolation(false)]
    #[verifier::rlimit(100)]
    fn bfs_search(&self, start: usize) -> (r: (Vec<bool>, Vec<usize>, Vec<usize>))
        requires
            self.wf(),
            start < self.tiles@.len(),
        ensures
            r.0@.len() == self.tiles@.len(),
            r.1@.len() == self.tiles@.len(),
            r.2@.len() == self.tiles@.len(),
            r.0@[start as int],
            r.1@[start as int] == 0,
            bfs_closed(*self, r.0@, r.1@),
            parents_ok(*self, r.0@, r.1@, r.2@, start),
    {
        let n = self.tiles.len();
        let mut visited: Vec<bool> = filled(n, false);
        let mut dist: Vec<usize> = filled(n, 0);
        let mut parent: Vec<usize> = filled(n, 0);
        let mut queue: Vec<usize> = Vec::new();
        visited[start] = true;
        queue.push(start);
        proof {
            assert(queue@[0] == start);
        }
        let mut head: usize = 0;
        while head < queue.len()
            invariant
                visited@.len() == n,
                dist@.len() == n,
                parent@.len() == n,
                visited@[start as int],
                dist@[start as int] == 0,
                queue@.no_duplicates(),
                forall|k: int| 0 <= k < queue@.len() ==> (#[trigger] queue@[k] as int) < n,
                queue@.len() <= n,
                head <= queue@.len(),
                forall|k: int|
                    0 <= k < queue@.len() ==> visited@[#[trigger] queue@[k] as int]
                        && dist@[queue@[k] as int] <= k,
                forall|v: int|
                    0 <= v < n && #[trigger] visited@[v] ==> exists|k: int|
                        0 <= k < queue@.len() && queue@[k] as int == v,
                parents_ok(*self, visited@, dist@, parent@, start),
                forall|k1: int, k2: int|
                    #![trigger queue@[k1], queue@[k2]]
                    0 <= k1 <= k2 < queue@.len() ==> dist@[queue@[k1] as int] <= dist@[queue@[k2] as int],
                head < queue@.len() ==> dist@[queue@[queue@.len() - 1] as int] <= dist@[queue@[head as int] as int] + 1,
                forall|k: int, v: int|
                    0 <= k < head && #[trigger] self.spec_valid_step(queue@[k] as int, v)
                        ==> visited@[v] && dist@[v] <= dist@[queue@[k] as int] + 1,
            decreases n - head,
        {
            let u = queue[head];
            let dist_u = dist[u];
            let exits = self.get_available_exits(u);
            let mut e: usize = 0;
            while e < exits.len()
                invariant
                    visited@.len() == n,
                    dist@.len() == n,
                    parent@.len() == n,
                    visited@[start as int],
                    dist@[start as int] == 0,
                    queue@.no_duplicates(),
                    forall|k: int| 0 <= k < queue@.len() ==> (#[trigger] queue@[k] as int) < n,
                    queue@.len() <= n,
                    head < queue@.len(),
                    u == queue@[head as int],
                    visited@[u as int],
                    dist_u == dist@[u as int],
                    dist_u <= head,
                    e <= exits@.len(),
                    forall|k: int|
                        0 <= k < queue@.len() ==> visited@[#[trigger] queue@[k] as int]
                            && dist@[queue@[k] as int] <= k,
                    forall|v: int|
                        0 <= v < n && #[trigger] visited@[v] ==> exists|k: int|
                            0 <= k < queue@.len() && queue@[k] as int == v,
                    parents_ok(*self, visited@, dist@, parent@, start),
                    forall|k1: int, k2: int|
                        #![trigger queue@[k1], queue@[k2]]
                        0 <= k1 <= k2 < queue@.len() ==> dist@[queue@[k1] as int] <= dist@[queue@[k2] as int],
                    dist@[queue@[queue@.len() - 1] as int] <= dist_u + 1,
                    forall|k: int, v: int|
                        0 <= k < head && #[trigger] self.spec_valid_step(queue@[k] as int, v)
                            ==> visited@[v] && dist@[v] <= dist@[queue@[k] as int] + 1,
                    forall|j: int|
                        0 <= j < e ==> visited@[#[trigger] exits@[j] as int] && dist@[exits@[j] as int]
                            <= dist_u + 1,
                decreases exits@.len() - e,
            {
                let v = exits[e];
                if !visited[v] {
                    let ghost pre_q = queue@;
                    let ghost pre_vis = visited@;
                    visited[v] = true;
                    dist[v] = dist_u + 1;
                    parent[v] = u;
                    queue.push(v);
                    proof {
                        lemma_bounded_distinct_len(queue@, n as int);
                        assert forall|vv: int| 0 <= vv < n && visited@[vv] implies exists|k: int|
                            0 <= k < queue@.len() && queue@[k] as int == vv by {
                            if vv == v as int {
                                assert(queue@[queue@.len() - 1] as int == vv);
                            } else {
                                assert(pre_vis[vv]);
                                let k = choose|k: int| 0 <= k < pre_q.len() && pre_q[k] as int
                                    == vv;
                                assert(queue@[k] as int == vv);
                            }
                        }
                    }
                } else {
                    proof {
                        let k = choose|k: int|
                            0 <= k < queue@.len() && queue@[k] as int == v as int;
                        assert(dist@[queue@[k] as int] <= dist@[queue@[queue@.len() - 1] as int]);
                        assert(dist@[v as int] <= dist_u + 1);
                    }
                }
                e = e + 1;
            }
            proof {
                assert forall|v: int| self.spec_valid_step(u as int, v) implies visited@[v]
                    && dist@[v] <= dist@[u as int] + 1 by {
                    let j = choose|j: int| 0 <= j < exits@.len() && exits@[j] == v;
                    assert(visited@[exits@[j] as int] && dist@[exits@[j] as int] <= dist_u + 1);
                }
            }
            head = head + 1;
        }
        proof {
            assert(bfs_closed(*self, visited@, dist@)) by {
                assert forall|u: int, v: int|
                    0 <= u < visited@.len() && visited@[u] && #[trigger] self.spec_valid_step(
                        u,
                        v,
                    ) implies 0 <= v < visited@.len() && visited@[v] && dist@[v] <= dist@[u]
                    + 1 by {
                    let k = choose|k: int| 0 <= k < queue@.len() && queue@[k] as int == u;
                }
            }
        }
        (visited, dist, parent)
    }

    /// A shortest walk from `start` to `goal` over the current blocked set,
    /// or `None` exactly when no walk at all joins them. The walk begins on
    /// `start` itself, so a creature already on its goal gets a one-tile
    /// walk and has nowhere further to move.
    #[verifier::loop_isolation(false)]
    #[verifier::rlimit(100)]
    pub fn shortest_path(&self, start: usize, goal: usize) -> (r: Option<Vec<usize>>)
        requires
            self.wf(),
            start < self.tiles@.len(),
            goal < self.tiles@.len(),
        ensures
            (r is Some) <==> reachable(*self, start, goal),
            r is Some ==> is_shortest_walk(*self, r->0@, start, goal),
    {
        let n = self.tiles.len();
        let (visited, dist, parent) = self.bfs_search(start);
        if visited[goal] {
            let mut rev: Vec<usize> = Vec::new();
            rev.push(goal);
            let mut cur = goal;
            while cur != start
                invariant
                    (cur as int) < n,
                    visited@[cur as int],
                    rev@.len() >= 1,
                    rev@[0] == goal,
                    rev@[rev@.len() - 1] == cur,
                    rev@.len() - 1 + dist@[cur as int] == dist@[goal as int],
                    forall|k: int|
                        0 <= k < rev@.len() - 1 ==> self.spec_valid_step(
                            #[trigger] rev@[k + 1] as int,
                            rev@[k] as int,
                        ),
                decreases dist@[cur as int],
            {
                let p = parent[cur];
                rev.push(p);
                cur = p;
            }
            let mut path: Vec<usize> = Vec::new();
            let mut t: usize = rev.len();
            while t > 0
                invariant
                    t <= rev@.len(),
                    path@.len() == rev@.len() - t,
                    forall|k: int|
                        0 <= k < path@.len() ==> #[trigger] path@[k] == rev@[rev@.len() - 1 - k],
                decreases t,
            {
                t = t - 1;
                path.push(rev[t]);
            }
            proof {
                assert(is_walk(*self, path@, start, goal)) by {
                    assert(path@[0] == rev@[rev@.len() - 1]);
                    assert(path@[path@.len() - 1] == rev@[0]);
                    assert forall|k: int| 0 <= k < path@.len() - 1 implies self.spec_valid_step(
                        #[trigger] path@[k] as int,
                        path@[k + 1] as int,
                    ) by {
                        let kk = rev@.len() - 2 - k;
                        assert(path@[k] == rev@[kk + 1]);
                        assert(path@[k + 1] == rev@[kk]);
                        assert(self.spec_valid_step(rev@[kk + 1] as int, rev@[kk] as int));
                    }
                }
                assert forall|w2: Seq<usize>| is_walk(*self, w2, start, goal) implies path@.len()
                    <= w2.len() by {
                    lemma_walk_bound(*self, visited@, dist@, start, w2, goal);
                }
                assert(reachable(*self, start, goal)) by {
                    assert(is_walk(*self, path@, start, goal));
                }
            }
            Some(path)
        } else {
            proof {
                assert forall|w2: Seq<usize>| !is_walk(*self, w2, start, goal) by {
                    if is_walk(*self, w2, start, goal) {
                        lemma_walk_bound(*self, visited@, dist@, start, w2, goal);
                    }
                }
            }
            None
        }
    }
}

} // verus!
