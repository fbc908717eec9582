//! Shortest-path search over the map's blocked index, used by the actor
//! AI: king moves, with diagonal steps costed at 1.45 times a cardinal
//! step (scaled to integers as 145 against 100).

use vstd::prelude::*;

use crate::map::GameMap;

verus! {

/// The cell of a flattened tile index.
pub open spec fn cell_of(w: int, j: int) -> (int, int) {
    (j % w, j / w)
}

/// Two cells are one king move apart.
pub open spec fn king_adj(a: (int, int), b: (int, int)) -> bool {
    &&& a != b
    &&& -1 <= a.0 - b.0 <= 1
    &&& -1 <= a.1 - b.1 <= 1
}

/// The cell can be entered: inside the map's walkable window and not
/// blocked.
pub open spec fn exit_valid(m: GameMap, x: int, y: int) -> bool {
    &&& 1 <= x <= m.width - 1
    &&& 1 <= y <= m.height - 1
    &&& x < m.width && y < m.height
    &&& !m.blocked@[crate::map::tile_idx(m.width as int, x, y)]
}

/// A legal path step from flattened index `j1` to `j2`.
pub open spec fn step_ok(m: GameMap, j1: int, j2: int) -> bool {
    &&& king_adj(cell_of(m.width as int, j1), cell_of(m.width as int, j2))
    &&& exit_valid(m, cell_of(m.width as int, j2).0, cell_of(m.width as int, j2).1)
}

/// The flattened indices form a walk from `start` to `goal` where every
/// step after the first enters a walkable cell.
pub open spec fn path_valid(m: GameMap, p: Seq<usize>, start: int, goal: int) -> bool {
    &&& p.len() >= 1
    &&& p[0] == start
    &&& p.last() == goal
    &&& forall|i: int| 0 <= i < p.len() ==> #[trigger] p[i] < m.tiles@.len()
    &&& forall|i: int| 1 <= i < p.len() ==> step_ok(m, p[i - 1] as int, #[trigger] p[i] as int)
}

/// Some walk leads from `start` to `goal`.
pub open spec fn path_exists(m: GameMap, start: int, goal: int) -> bool {
    exists|p: Seq<usize>| path_valid(m, p, start, goal)
}

/// How many of the first `n` flags are set.
spec fn count_true(s: Seq<bool>, n: int) -> int
    decreases n,
{
    if n <= 0 {
        0
    } else {
        count_true(s, n - 1) + if s[n - 1] {
            1int
        } else {
            0int
        }
    }
}

/// Setting a clear flag raises the count by one.
proof fn lemma_count_true_set(s1: Seq<bool>, s2: Seq<bool>, u: int, n: int)
    requires
        0 <= u < s1.len(),
        s1.len() == s2.len(),
        !s1[u],
        s2 == s1.update(u, true),
        n <= s1.len(),
    ensures
        count_true(s2, n) == count_true(s1, n) + if u < n {
            1int
        } else {
            0int
        },
    decreases n,
{
    if n > 0 {
        lemma_count_true_set(s1, s2, u, n - 1);
    }
}

/// The count never exceeds the range counted over.
proof fn lemma_count_true_bound(s: Seq<bool>, n: int)
    requires
        0 <= n <= s.len(),
    ensures
        count_true(s, n) <= n,
    decreases n,
{
    if n > 0 {
        lemma_count_true_bound(s, n - 1);
    }
}

/// An all-clear flag array counts to zero.
proof fn lemma_count_true_none(s: Seq<bool>, n: int)
    requires
        forall|k: int| 0 <= k < n ==> !s[k],
    ensures
        count_true(s, n) == 0,
    decreases n,
{
    if n > 0 {
        lemma_count_true_none(s, n - 1);
    }
}

/// The offset of the neighbor tried in direction slot `dd`.
spec fn dir_delta(dd: int) -> (int, int) {
    if dd == 0 {
        (-1, 0)
    } else if dd == 1 {
        (1, 0)
    } else if dd == 2 {
        (0, -1)
    } else if dd == 3 {
        (0, 1)
    } else if dd == 4 {
        (-1, -1)
    } else if dd == 5 {
        (1, -1)
    } else if dd == 6 {
        (-1, 1)
    } else {
        (1, 1)
    }
}

/// Walking a valid path from a visited start through a closed visited set
/// ends on a visited tile.
proof fn lemma_closed_set_swallows_paths(
    m: GameMap,
    visited: Seq<bool>,
    dist: Seq<u64>,
    p: Seq<usize>,
    start: int,
    goal: int,
)
    requires
        path_valid(m, p, start, goal),
        visited.len() == m.tiles@.len(),
        dist.len() == m.tiles@.len(),
        0 <= start < m.tiles@.len(),
        visited[start],
        forall|u: int, v: int|
            0 <= u < m.tiles@.len() && 0 <= v < m.tiles@.len() && visited[u] && #[trigger] step_ok(
                m,
                u,
                v,
            ) ==> dist[v] != u64::MAX,
        forall|v: int| 0 <= v < m.tiles@.len() && #[trigger] dist[v] != u64::MAX ==> visited[v],
    ensures
        0 <= goal < m.tiles@.len() && visited[goal],
    decreases p.len(),
{
    if p.len() == 1 {
        assert(p[0] == start && p.last() == goal);
    } else {
        let q = p.drop_last();
        assert(path_valid(m, q, start, p[p.len() - 2] as int)) by {
            assert(q[0] == p[0]);
            assert forall|i: int| 1 <= i < q.len() implies step_ok(
                m,
                q[i - 1] as int,
                #[trigger] q[i] as int,
            ) by {
                assert(q[i] == p[i] && q[i - 1] == p[i - 1]);
                assert(step_ok(m, p[i - 1] as int, p[i] as int));
            }
        }
        lemma_closed_set_swallows_paths(m, visited, dist, q, start, p[p.len() - 2] as int);
        assert(step_ok(m, p[p.len() - 2] as int, p[p.len() - 1] as int));
        assert(dist[goal] != u64::MAX);
    }
}



/// The unvisited tile with the smallest discovered distance, or the length
/// when every unvisited tile is still undiscovered.
fn select_unvisited_min(dist: &Vec<u64>, visited: &Vec<bool>) -> (r: usize)
    requires
        dist@.len() == visited@.len(),
    ensures
        r <= dist@.len(),
        r < dist@.len() ==> !visited@[r as int] && dist@[r as int] != u64::MAX,
        r == dist@.len() ==> forall|v: int|
            0 <= v < dist@.len() && !visited@[v] ==> #[trigger] dist@[v] == u64::MAX,
{
    let n = dist.len();
    let mut u: usize = n;
    let mut best: u64 = u64::MAX;
    let mut v: usize = 0;
    while v < n
        invariant
            dist@.len() == n,
            visited@.len() == n,
            v <= n,
            u == n || (u < n && !visited@[u as int] && dist@[u as int] == best),
            best != u64::MAX ==> u < n,
            u < n ==> best != u64::MAX,
            u == n ==> best == u64::MAX,
            forall|v2: int| 0 <= v2 < v && !visited@[v2] ==> #[trigger] dist@[v2] >= best,
        decreases n - v,
    {
        if !visited[v] && dist[v] < best {
            best = dist[v];
            u = v;
        }
        v = v + 1;
    }
    u
}

/// Offer every neighbor of the freshly visited tile `u` a path through it.
/// Afterwards each legal step out of `u` leads to a discovered tile, every
/// already-discovered distance only shrank, and the discovered-distance
/// bound and predecessor facts hold with one more tile visited.
#[verifier::rlimit(100)]
fn relax_neighbors(
    map: &GameMap,
    dist: &mut Vec<u64>,
    prev: &mut Vec<usize>,
    u: usize,
    du: u64,
    nv: Ghost<int>,
    start: Ghost<int>,
)
    requires
        map.wf(),
        old(dist)@.len() == map.tiles@.len(),
        old(prev)@.len() == map.tiles@.len(),
        map.tiles@.len() <= 1000000,
        u < map.tiles@.len(),
        du == old(dist)@[u as int],
        du != u64::MAX,
        1 <= nv@ <= 1000000,
        du <= 145 * nv@,
        0 <= start@ < map.tiles@.len(),
        old(dist)@[start@] == 0,
        forall|v: int|
            0 <= v < old(dist)@.len() && #[trigger] old(dist)@[v] != u64::MAX ==> old(dist)@[v]
                <= 145 * nv@,
        forall|v: int|
            0 <= v < old(dist)@.len() && #[trigger] old(dist)@[v] != u64::MAX && v != start@ ==> {
                &&& old(prev)@[v] < old(dist)@.len()
                &&& old(dist)@[old(prev)@[v] as int] != u64::MAX
                &&& old(dist)@[old(prev)@[v] as int] < old(dist)@[v]
                &&& step_ok(*map, old(prev)@[v] as int, v)
            },
    ensures
        final(dist)@.len() == old(dist)@.len(),
        final(prev)@.len() == old(prev)@.len(),
        forall|v: int| 0 <= v < old(dist)@.len() ==> #[trigger] final(dist)@[v] <= old(dist)@[v],
        forall|v: int|
            0 <= v < old(dist)@.len() && #[trigger] final(dist)@[v] != u64::MAX ==> final(dist)@[v] <= 145 * (nv@ + 1),
        forall|v: int|
            0 <= v < old(dist)@.len() && #[trigger] final(dist)@[v] != u64::MAX && v != start@
                ==> {
                &&& final(prev)@[v] < old(dist)@.len()
                &&& final(dist)@[final(prev)@[v] as int] != u64::MAX
                &&& final(dist)@[final(prev)@[v] as int] < final(dist)@[v]
                &&& step_ok(*map, final(prev)@[v] as int, v)
            },
        forall|v2: int|
            0 <= v2 < old(dist)@.len() && #[trigger] step_ok(*map, u as int, v2) ==> final(dist)@[v2] != u64::MAX,
{
    let n = dist.len();
    let ux = (u % (map.width as usize)) as i32;
    let uy = (u / (map.width as usize)) as i32;
    proof {
        let ghost ui = u as int;
        let ghost wi = map.width as int;
        let ghost hi = map.height as int;
        assert(0 <= ui % wi < wi && 0 <= ui / wi < hi) by (nonlinear_arith)
            requires
                0 <= ui,
                ui < wi * hi,
                3 <= wi,
                3 <= hi,
        ;
    }
    let mut dir: usize = 0;
    while dir < 8
        invariant
            map.wf(),
            n == map.tiles@.len(),
            n <= 1000000,
            dist@.len() == n,
            prev@.len() == n,
            u < n,
            du == old(dist)@[u as int],
            du != u64::MAX,
            1 <= nv@ <= 1000000,
            du <= 145 * nv@,
            0 <= start@ < n,
            dist@[u as int] == du,
            ux as int == cell_of(map.width as int, u as int).0,
            uy as int == cell_of(map.width as int, u as int).1,
            0 <= ux < map.width,
            0 <= uy < map.height,
            dir <= 8,
            forall|v: int| 0 <= v < n ==> #[trigger] dist@[v] <= old(dist)@[v],
            forall|v: int|
                0 <= v < n && #[trigger] dist@[v] != u64::MAX ==> dist@[v] <= 145 * (nv@ + 1),
            forall|v: int|
                0 <= v < n && #[trigger] dist@[v] != u64::MAX && v != start@ ==> {
                    &&& prev@[v] < n
                    &&& dist@[prev@[v] as int] != u64::MAX
                    &&& dist@[prev@[v] as int] < dist@[v]
                    &&& step_ok(*map, prev@[v] as int, v)
                },
            forall|dd: int|
                #![trigger dir_delta(dd)]
                0 <= dd < dir ==> {
                    let wx = cell_of(map.width as int, u as int).0 + dir_delta(dd).0;
                    let wy = cell_of(map.width as int, u as int).1 + dir_delta(dd).1;
                    !exit_valid(*map, wx, wy) || dist@[crate::map::tile_idx(
                        map.width as int,
                        wx,
                        wy,
                    )] != u64::MAX
                },
        decreases 8 - dir,
    {
        let ghost d_pre = dist@;
        let (dx, dy, cost): (i32, i32, u64) = match dir {
            0 => (-1, 0, 100),
            1 => (1, 0, 100),
            2 => (0, -1, 100),
            3 => (0, 1, 100),
            4 => (-1, -1, 145),
            5 => (1, -1, 145),
            6 => (-1, 1, 145),
            _ => (1, 1, 145),
        };
        proof {
            assert((dx as int, dy as int) == dir_delta(dir as int));
        }
        let wx = ux + dx;
        let wy = uy + dy;
        if wx >= 1 && wx <= map.width - 1 && wy >= 1 && wy <= map.height - 1 {
            let widx = map.xy_idx(wx, wy);
            proof {
                crate::map::lemma_tile_idx_bounds(
                    map.width as int,
                    map.height as int,
                    wx as int,
                    wy as int,
                );
                assert(cell_of(map.width as int, widx as int) == (wx as int, wy as int))
                    by (nonlinear_arith)
                    requires
                        widx == wy * map.width + wx,
                        0 <= wx < map.width,
                        0 <= wy < map.height,
                        map.width >= 3,
                ;
            }
            if !map.blocked[widx] {
                let nd = du + cost;
                if nd < dist[widx] {
                    proof {
                        assert(step_ok(*map, u as int, widx as int));
                    }
                    dist.set(widx, nd);
                    prev.set(widx, u);
                }
                proof {
                    assert(dist@[widx as int] != u64::MAX);
                }
            }
        }
        proof {
            assert forall|dd: int|
                #![trigger dir_delta(dd)]
                0 <= dd < dir + 1 implies {
                let wx2 = cell_of(map.width as int, u as int).0 + dir_delta(dd).0;
                let wy2 = cell_of(map.width as int, u as int).1 + dir_delta(dd).1;
                !exit_valid(*map, wx2, wy2) || dist@[crate::map::tile_idx(
                    map.width as int,
                    wx2,
                    wy2,
                )] != u64::MAX
            } by {
                let wx2 = cell_of(map.width as int, u as int).0 + dir_delta(dd).0;
                let wy2 = cell_of(map.width as int, u as int).1 + dir_delta(dd).1;
                if exit_valid(*map, wx2, wy2) {
                    let t = crate::map::tile_idx(map.width as int, wx2, wy2);
                    crate::map::lemma_tile_idx_bounds(
                        map.width as int,
                        map.height as int,
                        wx2,
                        wy2,
                    );
                    if dd == dir as int {
                        assert(wx as int == wx2 && wy as int == wy2);
                        assert(dist@[t] != u64::MAX);
                    } else {
                        assert(d_pre[t] != u64::MAX);
                        assert(dist@[t] <= d_pre[t] || dist@[t] == d_pre[t]);
                        assert(dist@[t] != u64::MAX);
                    }
                }
            }
        }
        dir = dir + 1;
    }
    // The eight direction slots cover every legal step out of `u`.
    proof {
        assert forall|v2: int|
            0 <= v2 < n && #[trigger] step_ok(*map, u as int, v2) implies dist@[v2]
            != u64::MAX by {
            let wi = map.width as int;
            let hi = map.height as int;
            let uc = cell_of(wi, u as int);
            let vc = cell_of(wi, v2);
            assert(0 <= vc.0 < wi && 0 <= vc.1 < hi && crate::map::tile_idx(wi, vc.0, vc.1)
                == v2) by (nonlinear_arith)
                requires
                    0 <= v2,
                    v2 < wi * hi,
                    3 <= wi,
                    3 <= hi,
                    vc == (v2 % wi, v2 / wi),
            ;
            let ddx = vc.0 - uc.0;
            let ddy = vc.1 - uc.1;
            let dd: int = if ddx == -1 && ddy == 0 {
                0
            } else if ddx == 1 && ddy == 0 {
                1
            } else if ddx == 0 && ddy == -1 {
                2
            } else if ddx == 0 && ddy == 1 {
                3
            } else if ddx == -1 && ddy == -1 {
                4
            } else if ddx == 1 && ddy == -1 {
                5
            } else if ddx == -1 && ddy == 1 {
                6
            } else {
                7
            };
            assert(dir_delta(dd) == (ddx, ddy));
            assert(!exit_valid(*map, uc.0 + ddx, uc.1 + ddy) || dist@[crate::map::tile_idx(
                map.width as int,
                uc.0 + ddx,
                uc.1 + ddy,
            )] != u64::MAX);
        }
    }
}

/// Search for a path from `start` to `goal` over the blocked index. A
/// returned path always starts at `start`, ends at `goal`, and moves one
/// king step at a time through walkable cells; the search gives up exactly
/// when no such walk exists at all.
#[verifier::rlimit(100)]
pub fn a_star_search(map: &GameMap, start: usize, goal: usize) -> (r: Option<Vec<usize>>)
    requires
        map.wf(),
        start < map.tiles@.len(),
        goal < map.tiles@.len(),
    ensures
        match r {
            Some(p) => path_valid(*map, p@, start as int, goal as int),
            None => !path_exists(*map, start as int, goal as int),
        },
{
    let n = map.tiles.len();
    proof {
        assert(map.width * map.height <= 1000 * 1000) by (nonlinear_arith)
            requires
                3 <= map.width <= 1000,
                3 <= map.height <= 1000,
        ;
    }
    let mut dist: Vec<u64> = Vec::new();
    let mut prev: Vec<usize> = Vec::new();
    let mut visited: Vec<bool> = Vec::new();
    let mut k: usize = 0;
    while k < n
        invariant
            dist@.len() == k,
            prev@.len() == k,
            visited@.len() == k,
            k <= n,
            forall|v: int| 0 <= v < k ==> dist@[v] == u64::MAX,
            forall|v: int| 0 <= v < k ==> !visited@[v],
        decreases n - k,
    {
        dist.push(u64::MAX);
        prev.push(0);
        visited.push(false);
        k = k + 1;
    }
    dist.set(start, 0);

    proof {
        lemma_count_true_none(visited@, n as int);
    }
    let mut num_visited: usize = 0;
    let mut exhausted = false;
    let mut reached_goal = false;
    while !exhausted && !reached_goal
        invariant
            map.wf(),
            n == map.tiles@.len(),
            n <= 1000000,
            start < n,
            goal < n,
            dist@.len() == n,
            prev@.len() == n,
            visited@.len() == n,
            num_visited as int == count_true(visited@, n as int),
            num_visited <= n,
            dist@[start as int] == 0,
            forall|v: int|
                0 <= v < n && #[trigger] dist@[v] != u64::MAX ==> dist@[v] <= 145 * (
                num_visited as int + 1),
            forall|v: int|
                0 <= v < n && #[trigger] dist@[v] != u64::MAX && v != start ==> {
                    &&& prev@[v] < n
                    &&& dist@[prev@[v] as int] != u64::MAX
                    &&& dist@[prev@[v] as int] < dist@[v]
                    &&& step_ok(*map, prev@[v] as int, v)
                },
            forall|v: int| 0 <= v < n && #[trigger] visited@[v] ==> dist@[v] != u64::MAX,
            forall|u: int, v: int|
                0 <= u < n && 0 <= v < n && u != goal as int && visited@[u] && #[trigger] step_ok(
                    *map,
                    u,
                    v,
                ) ==> dist@[v] != u64::MAX,
            visited@[goal as int] == reached_goal,
            exhausted ==> forall|v: int|
                0 <= v < n && #[trigger] dist@[v] != u64::MAX ==> visited@[v],
            exhausted ==> visited@[start as int],
            reached_goal ==> dist@[goal as int] != u64::MAX,
        decreases (if exhausted || reached_goal {
            0int
        } else {
            1int
        }) + n - num_visited,
    {
        // Pick the undiscovered-cheapest unvisited tile.
        let u = select_unvisited_min(&dist, &visited);
        if u == n {
            // Nothing left to explore: every discovered tile is visited.
            exhausted = true;
            proof {
                assert forall|v2: int|
                    0 <= v2 < n && #[trigger] dist@[v2] != u64::MAX implies visited@[v2] by {
                    if !visited@[v2] {
                        assert(dist@[v2] == u64::MAX);
                    }
                }
            }
        } else {
            let du = dist[u];
            let ghost visited_pre = visited@;
            visited.set(u, true);
            proof {
                lemma_count_true_set(visited_pre, visited@, u as int, n as int);
                lemma_count_true_bound(visited@, n as int);
            }
            num_visited = num_visited + 1;
            if u == goal {
                reached_goal = true;
            } else {
                let ghost dist_pre = dist@;
                relax_neighbors(
                    map,
                    &mut dist,
                    &mut prev,
                    u,
                    du,
                    Ghost(num_visited as int),
                    Ghost(start as int),
                );
                proof {
                    assert(dist@[start as int] == 0);
                    assert forall|u2: int, v2: int|
                        0 <= u2 < n && 0 <= v2 < n && u2 != goal as int && visited@[u2]
                            && #[trigger] step_ok(*map, u2, v2) implies dist@[v2]
                        != u64::MAX by {
                        if u2 != u as int {
                            assert(dist_pre[v2] != u64::MAX);
                            assert(dist@[v2] <= dist_pre[v2]);
                        }
                    }
                    assert forall|v2: int|
                        0 <= v2 < n && #[trigger] visited@[v2] implies dist@[v2] != u64::MAX by {
                        assert(dist_pre[v2] != u64::MAX);
                        assert(dist@[v2] <= dist_pre[v2]);
                    }
                }
            }
        }
    }

    if dist[goal] == u64::MAX {
        proof {
            // The search exhausted every reachable tile without discovering
            // the goal, so no walk can lead there.
            assert(!reached_goal && exhausted);
            assert(!visited@[goal as int]);
            assert forall|u2: int, v2: int|
                0 <= u2 < n && 0 <= v2 < n && visited@[u2] && #[trigger] step_ok(*map, u2, v2)
                    implies dist@[v2] != u64::MAX by {
                assert(u2 != goal as int);
            }
            if path_exists(*map, start as int, goal as int) {
                let p = choose|p: Seq<usize>| path_valid(*map, p, start as int, goal as int);
                lemma_closed_set_swallows_paths(
                    *map,
                    visited@,
                    dist@,
                    p,
                    start as int,
                    goal as int,
                );
            }
        }
        return None;
    }

    // Walk the predecessor chain back from the goal.
    let mut rev: Vec<usize> = Vec::new();
    let mut cur: usize = goal;
    rev.push(cur);
    while cur != start
        invariant
            map.wf(),
            n == map.tiles@.len(),
            start < n,
            goal < n,
            dist@.len() == n,
            prev@.len() == n,
            cur < n,
            dist@[cur as int] != u64::MAX,
            dist@[start as int] == 0,
            rev@.len() >= 1,
            rev@[0] == goal,
            rev@.last() == cur,
            forall|i: int| 0 <= i < rev@.len() ==> #[trigger] rev@[i] < n,
            forall|i: int|
                0 <= i < rev@.len() - 1 ==> step_ok(
                    *map,
                    rev@[i + 1] as int,
                    #[trigger] rev@[i] as int,
                ),
            forall|v: int|
                0 <= v < n && #[trigger] dist@[v] != u64::MAX && v != start ==> {
                    &&& prev@[v] < n
                    &&& dist@[prev@[v] as int] != u64::MAX
                    &&& dist@[prev@[v] as int] < dist@[v]
                    &&& step_ok(*map, prev@[v] as int, v)
                },
        decreases dist@[cur as int],
    {
        let p = prev[cur];
        rev.push(p);
        cur = p;
    }

    // Reverse into start-to-goal order.
    let mut out: Vec<usize> = Vec::new();
    let m_len = rev.len();
    let mut i: usize = 0;
    while i < m_len
        invariant
            m_len == rev@.len(),
            i <= m_len,
            out@.len() == i,
            forall|j: int| 0 <= j < i ==> #[trigger] out@[j] == rev@[m_len - 1 - j],
        decreases m_len - i,
    {
        out.push(rev[m_len - 1 - i]);
        i = i + 1;
    }
    proof {
        assert(out@[0] == rev@[m_len - 1]);
        assert(out@.last() == rev@[0]);
        assert forall|j: int| 1 <= j < out@.len() implies step_ok(
            *map,
            out@[j - 1] as int,
            #[trigger] out@[j] as int,
        ) by {
            assert(out@[j - 1] == rev@[m_len - j]);
            assert(out@[j] == rev@[m_len - 1 - j]);
            assert(step_ok(*map, rev@[(m_len - 1 - j) + 1] as int, rev@[m_len - 1 - j] as int));
        }
    }
    Some(out)
}

} // verus!
