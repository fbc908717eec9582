//! Reachability over floor tiles by 4-connected traversal: the notion in
//! which every carved tile of a generated map is reachable from every other.

use vstd::prelude::*;

use crate::map::{in_map, tile_idx, TileType};

verus! {

/// Two cells share an edge (4-connectivity).
pub open spec fn adj4(a: (int, int), b: (int, int)) -> bool {
    ||| (a.0 == b.0 && (a.1 == b.1 + 1 || a.1 + 1 == b.1))
    ||| (a.1 == b.1 && (a.0 == b.0 + 1 || a.0 + 1 == b.0))
}

/// The cell is in bounds and holds a floor tile.
pub open spec fn cell_floor(tiles: Seq<TileType>, w: int, h: int, c: (int, int)) -> bool {
    &&& in_map(w, h, c.0, c.1)
    &&& tiles[tile_idx(w, c.0, c.1)] is Floor
}

/// A nonempty walk over in-bounds floor cells, each step 4-adjacent.
pub open spec fn path_ok(tiles: Seq<TileType>, w: int, h: int, p: Seq<(int, int)>) -> bool {
    &&& p.len() >= 1
    &&& forall|i: int| 0 <= i < p.len() ==> cell_floor(tiles, w, h, #[trigger] p[i])
    &&& forall|i: int| 0 <= i < p.len() - 1 ==> adj4(#[trigger] p[i], p[i + 1])
}

/// Cell `b` can be reached from cell `a` across floor tiles.
pub open spec fn floor_connected(
    tiles: Seq<TileType>,
    w: int,
    h: int,
    a: (int, int),
    b: (int, int),
) -> bool {
    exists|p: Seq<(int, int)>| path_ok(tiles, w, h, p) && p.first() == a && p.last() == b
}

/// Reachability is symmetric: walk the same path backwards.
pub proof fn lemma_connected_sym(tiles: Seq<TileType>, w: int, h: int, a: (int, int), b: (int, int))
    requires
        floor_connected(tiles, w, h, a, b),
    ensures
        floor_connected(tiles, w, h, b, a),
{
    let p = choose|p: Seq<(int, int)>|
        path_ok(tiles, w, h, p) && p.first() == a && p.last() == b;
    let q = Seq::new(p.len(), |i: int| p[p.len() - 1 - i]);
    assert forall|i: int| 0 <= i < q.len() - 1 implies adj4(#[trigger] q[i], q[i + 1]) by {
        assert(adj4(p[p.len() - 2 - i], p[p.len() - 1 - i]));
    }
    assert(path_ok(tiles, w, h, q));
    assert(q.first() == b && q.last() == a);
}

/// Reachability is transitive: concatenate the two paths.
pub proof fn lemma_connected_trans(
    tiles: Seq<TileType>,
    w: int,
    h: int,
    a: (int, int),
    b: (int, int),
    c: (int, int),
)
    requires
        floor_connected(tiles, w, h, a, b),
        floor_connected(tiles, w, h, b, c),
    ensures
        floor_connected(tiles, w, h, a, c),
{
    let p1 = choose|p: Seq<(int, int)>|
        path_ok(tiles, w, h, p) && p.first() == a && p.last() == b;
    let p2 = choose|p: Seq<(int, int)>|
        path_ok(tiles, w, h, p) && p.first() == b && p.last() == c;
    let q = p1 + p2.drop_first();
    assert forall|i: int| 0 <= i < q.len() implies cell_floor(tiles, w, h, #[trigger] q[i]) by {
        if i < p1.len() {
            assert(q[i] == p1[i]);
        } else {
            assert(q[i] == p2[i - p1.len() + 1]);
        }
    }
    assert forall|i: int| 0 <= i < q.len() - 1 implies adj4(#[trigger] q[i], q[i + 1]) by {
        if i + 1 < p1.len() {
            assert(q[i] == p1[i] && q[i + 1] == p1[i + 1]);
        } else if i + 1 == p1.len() {
            if p2.len() == 1 {
                assert(false);
            } else {
                assert(q[i] == p1[p1.len() - 1] && q[i + 1] == p2[1]);
                assert(adj4(p2[0], p2[1]));
            }
        } else {
            assert(q[i] == p2[i - p1.len() + 1] && q[i + 1] == p2[i - p1.len() + 2]);
            assert(adj4(p2[i - p1.len() + 1], p2[i - p1.len() + 2]));
        }
    }
    if p2.len() == 1 {
        assert(q =~= p1);
        assert(q.last() == b && b == c);
    } else {
        assert(q.last() == p2.last());
    }
    assert(path_ok(tiles, w, h, q));
    assert(q.first() == a && q.last() == c);
}

/// Carving more floor never severs reachability.
pub proof fn lemma_connected_mono(
    t1: Seq<TileType>,
    t2: Seq<TileType>,
    w: int,
    h: int,
    a: (int, int),
    b: (int, int),
)
    requires
        floor_connected(t1, w, h, a, b),
        forall|c: (int, int)| cell_floor(t1, w, h, c) ==> cell_floor(t2, w, h, c),
    ensures
        floor_connected(t2, w, h, a, b),
{
    let p = choose|p: Seq<(int, int)>| path_ok(t1, w, h, p) && p.first() == a && p.last() == b;
    assert forall|i: int| 0 <= i < p.len() implies cell_floor(t2, w, h, #[trigger] p[i]) by {
        assert(cell_floor(t1, w, h, p[i]));
    }
    assert(path_ok(t2, w, h, p));
}

/// A fully-carved horizontal run connects each of its cells to its right end.
pub proof fn lemma_hseg_connected(
    tiles: Seq<TileType>,
    w: int,
    h: int,
    x_lo: int,
    x_hi: int,
    y: int,
    x: int,
)
    requires
        x_lo <= x <= x_hi,
        forall|u: int| x_lo <= u <= x_hi ==> #[trigger] cell_floor(tiles, w, h, (u, y)),
    ensures
        floor_connected(tiles, w, h, (x, y), (x_hi, y)),
{
    let p = Seq::new((x_hi - x + 1) as nat, |i: int| (x + i, y));
    assert forall|i: int| 0 <= i < p.len() implies cell_floor(tiles, w, h, #[trigger] p[i]) by {
        assert(cell_floor(tiles, w, h, ((x + i), y)));
    }
    assert(path_ok(tiles, w, h, p));
    assert(p.first() == ((x, y)) && p.last() == ((x_hi, y)));
}

/// A fully-carved vertical run connects each of its cells to its bottom end.
pub proof fn lemma_vseg_connected(
    tiles: Seq<TileType>,
    w: int,
    h: int,
    y_lo: int,
    y_hi: int,
    x: int,
    y: int,
)
    requires
        y_lo <= y <= y_hi,
        forall|v: int| y_lo <= v <= y_hi ==> #[trigger] cell_floor(tiles, w, h, (x, v)),
    ensures
        floor_connected(tiles, w, h, (x, y), (x, y_hi)),
{
    let p = Seq::new((y_hi - y + 1) as nat, |i: int| (x, y + i));
    assert forall|i: int| 0 <= i < p.len() implies cell_floor(tiles, w, h, #[trigger] p[i]) by {
        assert(cell_floor(tiles, w, h, (x, (y + i))));
    }
    assert(path_ok(tiles, w, h, p));
    assert(p.first() == ((x, y)) && p.last() == ((x, y_hi)));
}

/// Any two cells of a fully-carved rectangle reach each other: go along the
/// row, then down the column.
pub proof fn lemma_rect_connected(
    tiles: Seq<TileType>,
    w: int,
    h: int,
    x_lo: int,
    x_hi: int,
    y_lo: int,
    y_hi: int,
    a: (int, int),
    b: (int, int),
)
    requires
        x_lo <= a.0 <= x_hi,
        y_lo <= a.1 <= y_hi,
        x_lo <= b.0 <= x_hi,
        y_lo <= b.1 <= y_hi,
        forall|u: int, v: int|
            x_lo <= u <= x_hi && y_lo <= v <= y_hi ==> #[trigger] cell_floor(tiles, w, h, (u, v)),
    ensures
        floor_connected(tiles, w, h, a, b),
{
    // a -- to the right edge of its row -- is connected along the row,
    // likewise b; the right edge cells of the two rows share a column.
    assert forall|u: int| x_lo <= u <= x_hi implies #[trigger] cell_floor(tiles, w, h, (u, a.1)) by {
        assert(cell_floor(tiles, w, h, (u, a.1)));
    }
    lemma_hseg_connected(tiles, w, h, x_lo, x_hi, a.1, a.0);
    assert forall|u: int| x_lo <= u <= x_hi implies #[trigger] cell_floor(tiles, w, h, (u, b.1)) by {
        assert(cell_floor(tiles, w, h, (u, b.1)));
    }
    lemma_hseg_connected(tiles, w, h, x_lo, x_hi, b.1, b.0);
    assert forall|v: int| y_lo <= v <= y_hi implies #[trigger] cell_floor(tiles, w, h, (x_hi, v)) by {
        assert(cell_floor(tiles, w, h, (x_hi, v)));
    }
    if a.1 <= b.1 {
        lemma_vseg_connected(tiles, w, h, y_lo, b.1, x_hi, a.1);
        lemma_connected_trans(tiles, w, h, a, (x_hi, a.1), (x_hi, b.1));
        lemma_connected_sym(tiles, w, h, b, (x_hi, b.1));
        lemma_connected_trans(tiles, w, h, a, (x_hi, b.1), b);
    } else {
        lemma_vseg_connected(tiles, w, h, y_lo, a.1, x_hi, b.1);
        lemma_connected_sym(tiles, w, h, (x_hi, b.1), (x_hi, a.1));
        lemma_connected_trans(tiles, w, h, a, (x_hi, a.1), (x_hi, b.1));
        lemma_connected_sym(tiles, w, h, b, (x_hi, b.1));
        lemma_connected_trans(tiles, w, h, a, (x_hi, b.1), b);
    }
}

} // verus!
