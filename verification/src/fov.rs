//! Field of view: which tiles can be seen from a position within a range,
//! over the map's opacity predicate. Visibility is symmetric: the sight line
//! between two tiles reads the same from either end.

use vstd::prelude::*;
use vstd::math::{abs, max, min};

use crate::components::Position;
use crate::map::{in_map, tile_idx, GameMap, TileType};

verus! {

/// Squared Euclidean distance between two cells.
pub open spec fn dist2(a: (int, int), b: (int, int)) -> int {
    (a.0 - b.0) * (a.0 - b.0) + (a.1 - b.1) * (a.1 - b.1)
}

/// Twice the signed area of the triangle `a`, `b`, `c`: zero exactly when
/// `c` lies on the line through `a` and `b`.
pub open spec fn cross_of(a: (int, int), b: (int, int), c: (int, int)) -> int {
    (c.0 - a.0) * (b.1 - a.1) - (c.1 - a.1) * (b.0 - a.0)
}

/// Chebyshev distance between two cells.
pub open spec fn chebyshev(a: (int, int), b: (int, int)) -> int {
    max(abs(a.0 - b.0) as int, abs(a.1 - b.1) as int)
}

/// The cell `c` lies on the digital sight line between `a` and `b`: inside
/// their bounding box and within half a step of the exact segment.
pub open spec fn on_sight_line(a: (int, int), b: (int, int), c: (int, int)) -> bool {
    &&& min(a.0, b.0) <= c.0 <= max(a.0, b.0)
    &&& min(a.1, b.1) <= c.1 <= max(a.1, b.1)
    &&& 2 * (abs(cross_of(a, b, c)) as int) <= chebyshev(a, b)
}

/// The cell is in bounds and opaque (a wall).
pub open spec fn opaque_cell(tiles: Seq<TileType>, w: int, h: int, c: (int, int)) -> bool {
    &&& in_map(w, h, c.0, c.1)
    &&& tiles[tile_idx(w, c.0, c.1)] is Wall
}

/// Some opaque cell other than the endpoints interrupts the sight line.
pub open spec fn blocks_sight(
    tiles: Seq<TileType>,
    w: int,
    h: int,
    a: (int, int),
    b: (int, int),
    c: (int, int),
) -> bool {
    &&& c != a
    &&& c != b
    &&& on_sight_line(a, b, c)
    &&& opaque_cell(tiles, w, h, c)
}

/// Nothing interrupts the sight line between `a` and `b`.
pub open spec fn sight_clear(
    tiles: Seq<TileType>,
    w: int,
    h: int,
    a: (int, int),
    b: (int, int),
) -> bool {
    forall|c: (int, int)| !#[trigger] blocks_sight(tiles, w, h, a, b, c)
}

/// Cell `b` is visible from cell `a` within `range`: both in bounds, close
/// enough, and with a clear sight line. Walls themselves are visible; they
/// only hide what lies behind them.
pub open spec fn visible_from(
    tiles: Seq<TileType>,
    w: int,
    h: int,
    a: (int, int),
    b: (int, int),
    range: int,
) -> bool {
    &&& in_map(w, h, a.0, a.1)
    &&& in_map(w, h, b.0, b.1)
    &&& dist2(a, b) <= range * range
    &&& sight_clear(tiles, w, h, a, b)
}

/// Field-of-view symmetry: tile `b` is visible from tile `a` at a given
/// range exactly when `a` is visible from `b` at that range, for any
/// opacity map.
pub proof fn lemma_fov_symmetric(
    tiles: Seq<TileType>,
    w: int,
    h: int,
    a: (int, int),
    b: (int, int),
    range: int,
)
    ensures
        visible_from(tiles, w, h, a, b, range) == visible_from(tiles, w, h, b, a, range),
{
    assert(dist2(a, b) == dist2(b, a)) by (nonlinear_arith);
    if sight_clear(tiles, w, h, a, b) {
        assert forall|c: (int, int)| !#[trigger] blocks_sight(tiles, w, h, b, a, c) by {
            assert(!blocks_sight(tiles, w, h, a, b, c));
            assert(cross_of(a, b, c) == -cross_of(b, a, c)) by (nonlinear_arith);
        }
    }
    if sight_clear(tiles, w, h, b, a) {
        assert forall|c: (int, int)| !#[trigger] blocks_sight(tiles, w, h, a, b, c) by {
            assert(!blocks_sight(tiles, w, h, b, a, c));
            assert(cross_of(a, b, c) == -cross_of(b, a, c)) by (nonlinear_arith);
        }
    }
}

/// A tile visible within `range` lies in the square box of that radius.
proof fn lemma_visible_in_box(
    tiles: Seq<TileType>,
    w: int,
    h: int,
    o: (int, int),
    p: (int, int),
    range: int,
)
    requires
        visible_from(tiles, w, h, o, p, range),
        range >= 0,
    ensures
        o.0 - range <= p.0 <= o.0 + range,
        o.1 - range <= p.1 <= o.1 + range,
{
    let dx = o.0 - p.0;
    let dy = o.1 - p.1;
    assert(dx * dx + dy * dy <= range * range);
    assert(-range <= dx <= range && -range <= dy <= range) by (nonlinear_arith)
        requires
            dx * dx + dy * dy <= range * range,
            range >= 0,
    ;
}

/// `min`, executable.
fn min_i32(a: i32, b: i32) -> (r: i32)
    ensures
        r == min(a as int, b as int),
{
    if a < b {
        a
    } else {
        b
    }
}

/// `max`, executable.
fn max_i32(a: i32, b: i32) -> (r: i32)
    ensures
        r == max(a as int, b as int),
{
    if a < b {
        b
    } else {
        a
    }
}

/// Whether cell (`cx`, `cy`) interrupts the sight line from `a` to `b`,
/// endpoints excluded.
fn blocks_at(m: &GameMap, ax: i32, ay: i32, bx: i32, by: i32, cx: i32, cy: i32) -> (r: bool)
    requires
        m.wf(),
        m.spec_in_bounds(ax as int, ay as int),
        m.spec_in_bounds(bx as int, by as int),
        m.spec_in_bounds(cx as int, cy as int),
    ensures
        r == blocks_sight(
            m.tiles@,
            m.width as int,
            m.height as int,
            (ax as int, ay as int),
            (bx as int, by as int),
            (cx as int, cy as int),
        ),
{
    if cx == ax && cy == ay {
        return false;
    }
    if cx == bx && cy == by {
        return false;
    }
    if !(min_i32(ax, bx) <= cx && cx <= max_i32(ax, bx) && min_i32(ay, by) <= cy && cy
        <= max_i32(ay, by)) {
        return false;
    }
    proof {
        assert(-1000000 <= (cx as int - ax as int) * (by as int - ay as int) <= 1000000
            && -1000000 <= (cy as int - ay as int) * (bx as int - ax as int)
            <= 1000000) by (nonlinear_arith)
            requires
                -1000 <= cx as int - ax as int <= 1000,
                -1000 <= by as int - ay as int <= 1000,
                -1000 <= cy as int - ay as int <= 1000,
                -1000 <= bx as int - ax as int <= 1000,
        ;
    }
    let cross: i64 = (cx as i64 - ax as i64) * (by as i64 - ay as i64) - (cy as i64 - ay as i64) * (
    bx as i64 - ax as i64);
    let across: i64 = if cross < 0 {
        -cross
    } else {
        cross
    };
    let adx: i64 = if ax < bx {
        bx as i64 - ax as i64
    } else {
        ax as i64 - bx as i64
    };
    let ady: i64 = if ay < by {
        by as i64 - ay as i64
    } else {
        ay as i64 - by as i64
    };
    let cheb: i64 = if adx < ady {
        ady
    } else {
        adx
    };
    if 2 * across > cheb {
        return false;
    }
    let idx = m.xy_idx(cx, cy);
    match m.tiles[idx] {
        TileType::Wall => true,
        _ => false,
    }
}

/// Whether the sight line from `a` to `b` is clear of opaque cells.
fn line_clear(m: &GameMap, ax: i32, ay: i32, bx: i32, by: i32) -> (r: bool)
    requires
        m.wf(),
        m.spec_in_bounds(ax as int, ay as int),
        m.spec_in_bounds(bx as int, by as int),
    ensures
        r == sight_clear(
            m.tiles@,
            m.width as int,
            m.height as int,
            (ax as int, ay as int),
            (bx as int, by as int),
        ),
{
    let ghost wd = m.width as int;
    let ghost hd = m.height as int;
    let ghost a = (ax as int, ay as int);
    let ghost b = (bx as int, by as int);
    let x_lo = min_i32(ax, bx);
    let x_hi = max_i32(ax, bx);
    let y_lo = min_i32(ay, by);
    let y_hi = max_i32(ay, by);
    let mut cy = y_lo;
    while cy <= y_hi
        invariant
            m.wf(),
            wd == m.width as int,
            hd == m.height as int,
            a == (ax as int, ay as int),
            b == (bx as int, by as int),
            m.spec_in_bounds(a.0, a.1),
            m.spec_in_bounds(b.0, b.1),
            x_lo == min(ax as int, bx as int),
            x_hi == max(ax as int, bx as int),
            y_lo == min(ay as int, by as int),
            y_hi == max(ay as int, by as int),
            y_lo <= cy <= y_hi + 1,
            forall|c: (int, int)|
                c.1 < cy ==> !#[trigger] blocks_sight(m.tiles@, wd, hd, a, b, c),
        decreases y_hi + 1 - cy,
    {
        let mut cx = x_lo;
        while cx <= x_hi
            invariant
                m.wf(),
                wd == m.width as int,
                hd == m.height as int,
                a == (ax as int, ay as int),
                b == (bx as int, by as int),
                m.spec_in_bounds(a.0, a.1),
                m.spec_in_bounds(b.0, b.1),
                x_lo == min(ax as int, bx as int),
                x_hi == max(ax as int, bx as int),
                y_lo == min(ay as int, by as int),
                y_hi == max(ay as int, by as int),
                y_lo <= cy <= y_hi,
                x_lo <= cx <= x_hi + 1,
                forall|c: (int, int)|
                    c.1 < cy || (c.1 == cy && c.0 < cx) ==> !#[trigger] blocks_sight(
                        m.tiles@,
                        wd,
                        hd,
                        a,
                        b,
                        c,
                    ),
            decreases x_hi + 1 - cx,
        {
            if blocks_at(m, ax, ay, bx, by, cx, cy) {
                return false;
            }
            cx = cx + 1;
        }
        cy = cy + 1;
    }
    proof {
        assert forall|c: (int, int)| !#[trigger] blocks_sight(m.tiles@, wd, hd, a, b, c) by {
            if blocks_sight(m.tiles@, wd, hd, a, b, c) {
                assert(on_sight_line(a, b, c));
                assert(c.1 <= y_hi);
            }
        }
    }
    true
}

/// Every tile visible from (`ox`, `oy`) within `range`, each exactly once.
pub fn field_of_view(m: &GameMap, ox: i32, oy: i32, range: i32) -> (r: Vec<Position>)
    requires
        m.wf(),
        m.spec_in_bounds(ox as int, oy as int),
        0 <= range <= 500,
    ensures
        forall|p: Position|
            #[trigger] r@.contains(p) <==> visible_from(
                m.tiles@,
                m.width as int,
                m.height as int,
                (ox as int, oy as int),
                (p.x as int, p.y as int),
                range as int,
            ),
        forall|i: int, j: int| 0 <= i < j < r@.len() ==> r@[i] != r@[j],
{
    let ghost wd = m.width as int;
    let ghost hd = m.height as int;
    let ghost o = (ox as int, oy as int);
    let mut out: Vec<Position> = Vec::new();
    proof {
        assert forall|p: Position|
            visible_from(m.tiles@, wd, hd, o, (p.x as int, p.y as int), range as int) implies !(
        p.y < oy + (-range)) by {
            lemma_visible_in_box(m.tiles@, wd, hd, o, (p.x as int, p.y as int), range as int);
        }
    }
    let mut dy = -range;
    while dy <= range
        invariant
            m.wf(),
            wd == m.width as int,
            hd == m.height as int,
            o == (ox as int, oy as int),
            m.spec_in_bounds(o.0, o.1),
            0 <= range <= 500,
            -range <= dy <= range + 1,
            forall|p: Position|
                #[trigger] out@.contains(p) <==> (visible_from(
                    m.tiles@,
                    wd,
                    hd,
                    o,
                    (p.x as int, p.y as int),
                    range as int,
                ) && p.y < oy + dy),
            forall|i: int, j: int| 0 <= i < j < out@.len() ==> out@[i] != out@[j],
            forall|i: int| 0 <= i < out@.len() ==> out@[i].y < oy + dy,
        decreases range + 1 - dy,
    {
        let ty = oy + dy;
        proof {
            assert forall|p: Position|
                visible_from(m.tiles@, wd, hd, o, (p.x as int, p.y as int), range as int) && p.y
                as int == ty as int implies !(p.x < ox + (-range)) by {
                lemma_visible_in_box(m.tiles@, wd, hd, o, (p.x as int, p.y as int), range as int);
            }
        }
        let mut dx = -range;
        while dx <= range
            invariant
                m.wf(),
                wd == m.width as int,
                hd == m.height as int,
                o == (ox as int, oy as int),
                m.spec_in_bounds(o.0, o.1),
                0 <= range <= 500,
                -range <= dy <= range,
                ty == oy + dy,
                -range <= dx <= range + 1,
                forall|p: Position|
                    #[trigger] out@.contains(p) <==> (visible_from(
                        m.tiles@,
                        wd,
                        hd,
                        o,
                        (p.x as int, p.y as int),
                        range as int,
                    ) && (p.y < ty || (p.y == ty && p.x < ox + dx))),
                forall|i: int, j: int| 0 <= i < j < out@.len() ==> out@[i] != out@[j],
                forall|i: int|
                    0 <= i < out@.len() ==> (out@[i].y < ty || (out@[i].y == ty && out@[i].x < ox
                        + dx)),
            decreases range + 1 - dx,
        {
            let tx = ox + dx;
            let ghost prev = out@;
            if m.in_bounds(tx, ty) {
                proof {
                    assert(0 <= (dx as int) * (dx as int) <= 250000 && 0 <= (dy as int) * (dy
                        as int) <= 250000 && 0 <= (range as int) * (range as int)
                        <= 250000) by (nonlinear_arith)
                        requires
                            -500 <= dx as int <= 500,
                            -500 <= dy as int <= 500,
                            0 <= range as int <= 500,
                    ;
                }
                let d2: i64 = (dx as i64) * (dx as i64) + (dy as i64) * (dy as i64);
                if d2 <= (range as i64) * (range as i64) {
                    if line_clear(m, ox, oy, tx, ty) {
                        out.push(Position { x: tx, y: ty });
                    }
                }
            }
            proof {
                let t = (tx as int, ty as int);
                assert(dist2(o, t) == (dx as int) * (dx as int) + (dy as int) * (dy
                as int)) by (nonlinear_arith)
                    requires
                        o.0 == ox as int,
                        o.1 == oy as int,
                        t.0 == ox as int + dx as int,
                        t.1 == oy as int + dy as int,
                ;
                if m.spec_in_bounds(t.0, t.1) && dist2(o, t) <= range * range && sight_clear(
                    m.tiles@,
                    wd,
                    hd,
                    o,
                    t,
                ) {
                    assert(out@ == prev.push(Position { x: tx, y: ty }));
                    assert forall|p: Position| #[trigger] out@.contains(p) implies (visible_from(
                        m.tiles@,
                        wd,
                        hd,
                        o,
                        (p.x as int, p.y as int),
                        range as int,
                    ) && (p.y < ty || (p.y == ty && p.x < ox + dx + 1))) by {
                        if p == (Position { x: tx, y: ty }) {
                        } else {
                            assert(prev.contains(p));
                        }
                    }
                    assert forall|p: Position|
                        (visible_from(m.tiles@, wd, hd, o, (p.x as int, p.y as int), range as int)
                            && (p.y < ty || (p.y == ty && p.x < ox + dx
                            + 1))) implies #[trigger] out@.contains(p) by {
                        if p.y == ty && p.x == tx {
                            assert(out@[out@.len() - 1] == p);
                        } else {
                            assert(prev.contains(p));
                            let i = choose|i: int| 0 <= i < prev.len() && prev[i] == p;
                            assert(out@[i] == p);
                        }
                    }
                } else {
                    assert forall|p: Position|
                        (visible_from(m.tiles@, wd, hd, o, (p.x as int, p.y as int), range as int)
                            && (p.y < ty || (p.y == ty && p.x < ox + dx
                            + 1))) implies #[trigger] out@.contains(p) by {
                        if p.y == ty && p.x == tx {
                            assert(false);
                        }
                    }
                }
            }
            dx = dx + 1;
        }
        proof {
            assert forall|p: Position|
                (visible_from(m.tiles@, wd, hd, o, (p.x as int, p.y as int), range as int) && p.y
                    < oy + dy + 1) implies #[trigger] out@.contains(p) by {
                if p.y == ty {
                    lemma_visible_in_box(m.tiles@, wd, hd, o, (p.x as int, p.y as int), range as int);
                }
            }
        }
        dy = dy + 1;
    }
    proof {
        assert forall|p: Position|
            visible_from(m.tiles@, wd, hd, o, (p.x as int, p.y as int), range as int) implies p.y
            < oy + range + 1 by {
            lemma_visible_in_box(m.tiles@, wd, hd, o, (p.x as int, p.y as int), range as int);
        }
    }
    out
}

} // verus!
