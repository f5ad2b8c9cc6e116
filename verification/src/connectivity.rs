//! Reachability over the carved floor: walks of 4-adjacent floor cells.
//! These definitions and lemmas back the generator's guarantee that every
//! successful generation leaves no orphaned floor: all of it is walkable
//! from the start position.
use vstd::prelude::*;

use crate::dungeon::Rect;
use crate::tiles::Tile;

verus! {

use crate::dungeon::floor_at;

/// Two cells share an edge (4-directional neighbourhood).
pub open spec fn adjacent(a: (int, int), b: (int, int)) -> bool {
    ||| (a.0 == b.0 && (a.1 == b.1 + 1 || a.1 == b.1 - 1))
    ||| (a.1 == b.1 && (a.0 == b.0 + 1 || a.0 == b.0 - 1))
}

/// `p` is a walk: nonempty, every cell on floor, consecutive cells adjacent.
pub open spec fn is_floor_path(m: Seq<Vec<Tile>>, p: Seq<(int, int)>) -> bool {
    &&& p.len() >= 1
    &&& forall|i: int| 0 <= i < p.len() ==> floor_at(m, (#[trigger] p[i]).0, p[i].1)
    &&& forall|i: int| 0 <= i < p.len() - 1 ==> adjacent(#[trigger] p[i], p[i + 1])
}

/// A walk over floor leads from `a` to `b`.
pub open spec fn reachable(m: Seq<Vec<Tile>>, a: (int, int), b: (int, int)) -> bool {
    exists|p: Seq<(int, int)>| is_floor_path(m, p) && p.first() == a && p.last() == b
}

/// Every floor cell of the grid can be walked to from `start`.
pub open spec fn fully_connected(m: Seq<Vec<Tile>>, start: (int, int)) -> bool {
    forall|x: int, y: int| #[trigger] floor_at(m, x, y) ==> reachable(m, start, (x, y))
}

/// A floor cell reaches itself.
pub proof fn lemma_reach_refl(m: Seq<Vec<Tile>>, a: (int, int))
    requires
        floor_at(m, a.0, a.1),
    ensures
        reachable(m, a, a),
{
    let p = seq![a];
    assert(is_floor_path(m, p));
    assert(p.first() == a && p.last() == a);
}

/// Extending a walk by one adjacent floor cell keeps it a walk.
pub proof fn lemma_reach_step(m: Seq<Vec<Tile>>, a: (int, int), b: (int, int), c: (int, int))
    requires
        reachable(m, a, b),
        adjacent(b, c),
        floor_at(m, c.0, c.1),
    ensures
        reachable(m, a, c),
{
    let p = choose|p: Seq<(int, int)>| is_floor_path(m, p) && p.first() == a && p.last() == b;
    let q = p.push(c);
    assert forall|i: int| 0 <= i < q.len() implies floor_at(m, (#[trigger] q[i]).0, q[i].1) by {
        if i < p.len() {
            assert(q[i] == p[i]);
        }
    }
    assert forall|i: int| 0 <= i < q.len() - 1 implies adjacent(#[trigger] q[i], q[i + 1]) by {
        if i < p.len() - 1 {
            assert(q[i] == p[i] && q[i + 1] == p[i + 1]);
        } else {
            assert(q[i] == p.last() && q[i + 1] == c);
        }
    }
    assert(is_floor_path(m, q) && q.first() == a && q.last() == c);
}

/// Reachability composes.
pub proof fn lemma_reach_trans(m: Seq<Vec<Tile>>, a: (int, int), b: (int, int), c: (int, int))
    requires
        reachable(m, a, b),
        reachable(m, b, c),
    ensures
        reachable(m, a, c),
{
    let p1 = choose|p: Seq<(int, int)>| is_floor_path(m, p) && p.first() == a && p.last() == b;
    let p2 = choose|p: Seq<(int, int)>| is_floor_path(m, p) && p.first() == b && p.last() == c;
    let q = p1 + p2.drop_first();
    assert(q.len() == p1.len() + p2.len() - 1);
    assert forall|i: int| 0 <= i < q.len() implies floor_at(m, (#[trigger] q[i]).0, q[i].1) by {
        if i < p1.len() {
            assert(q[i] == p1[i]);
        } else {
            assert(q[i] == p2[i - p1.len() + 1]);
        }
    }
    assert forall|i: int| 0 <= i < q.len() - 1 implies adjacent(#[trigger] q[i], q[i + 1]) by {
        if i < p1.len() - 1 {
            assert(q[i] == p1[i] && q[i + 1] == p1[i + 1]);
        } else if i == p1.len() - 1 {
            assert(q[i] == p1.last());
            assert(q[i + 1] == p2[1]);
            assert(adjacent(p2[0], p2[1]));
        } else {
            assert(q[i] == p2[i - p1.len() + 1] && q[i + 1] == p2[i - p1.len() + 2]);
        }
    }
    assert(is_floor_path(m, q) && q.first() == a && q.last() == c);
}

/// A walk over a smaller floor is a walk over a larger one: growing the
/// floor never disconnects anything.
pub proof fn lemma_reach_mono(
    m1: Seq<Vec<Tile>>,
    m2: Seq<Vec<Tile>>,
    a: (int, int),
    b: (int, int),
)
    requires
        reachable(m1, a, b),
        forall|x: int, y: int| #[trigger] floor_at(m1, x, y) ==> floor_at(m2, x, y),
    ensures
        reachable(m2, a, b),
{
    let p = choose|p: Seq<(int, int)>| is_floor_path(m1, p) && p.first() == a && p.last() == b;
    assert forall|i: int| 0 <= i < p.len() implies floor_at(m2, (#[trigger] p[i]).0, p[i].1) by {
        assert(floor_at(m1, p[i].0, p[i].1));
    }
    assert(is_floor_path(m2, p) && p.first() == a && p.last() == b);
}

/// A fully-floored row span is walkable end to end, in either direction.
pub proof fn lemma_row_reach(m: Seq<Vec<Tile>>, xa: int, xb: int, y: int)
    requires
        forall|x: int|
            (xa <= x <= xb || xb <= x <= xa) ==> #[trigger] floor_at(m, x, y),
    ensures
        reachable(m, (xa, y), (xb, y)),
    decreases
            if xa <= xb {
                xb - xa
            } else {
                xa - xb
            },
{
    if xa == xb {
        lemma_reach_refl(m, (xa, y));
    } else if xa < xb {
        lemma_row_reach(m, xa, xb - 1, y);
        lemma_reach_step(m, (xa, y), (xb - 1, y), (xb, y));
    } else {
        lemma_row_reach(m, xa, xb + 1, y);
        lemma_reach_step(m, (xa, y), (xb + 1, y), (xb, y));
    }
}

/// A fully-floored column span is walkable end to end, in either direction.
pub proof fn lemma_col_reach(m: Seq<Vec<Tile>>, ya: int, yb: int, x: int)
    requires
        forall|y: int|
            (ya <= y <= yb || yb <= y <= ya) ==> #[trigger] floor_at(m, x, y),
    ensures
        reachable(m, (x, ya), (x, yb)),
    decreases
            if ya <= yb {
                yb - ya
            } else {
                ya - yb
            },
{
    if ya == yb {
        lemma_reach_refl(m, (x, ya));
    } else if ya < yb {
        lemma_col_reach(m, ya, yb - 1, x);
        lemma_reach_step(m, (x, ya), (x, yb - 1), (x, yb));
    } else {
        lemma_col_reach(m, ya, yb + 1, x);
        lemma_reach_step(m, (x, ya), (x, yb + 1), (x, yb));
    }
}

/// Inside a fully-floored room interior, the center reaches every cell:
/// walk the row to the cell's column, then the column to the cell.
pub proof fn lemma_rect_reach(m: Seq<Vec<Tile>>, r: Rect, a: int, b: int)
    requires
        r.wf(),
        forall|x: int, y: int|
            r.contains_interior(x, y) ==> #[trigger] floor_at(m, x, y),
        r.contains_interior(a, b),
    ensures
        reachable(m, (r.spec_center().0 as int, r.spec_center().1 as int), (a, b)),
{
    let cx = r.spec_center().0 as int;
    let cy = r.spec_center().1 as int;
    assert(r.contains_interior(cx, cy));
    assert forall|x: int| (cx <= x <= a || a <= x <= cx) implies #[trigger] floor_at(
        m,
        x,
        cy,
    ) by {
        assert(r.contains_interior(x, cy));
    }
    lemma_row_reach(m, cx, a, cy);
    assert forall|y: int| (cy <= y <= b || b <= y <= cy) implies #[trigger] floor_at(
        m,
        a,
        y,
    ) by {
        assert(r.contains_interior(a, y));
    }
    lemma_col_reach(m, cy, b, a);
    lemma_reach_trans(m, (cx, cy), (a, cy), (a, b));
}

/// An L-shaped tunnel carved horizontally from `(sx, sy)` to `(tx, sy)` and
/// then vertically to `(tx, ty)` connects its two ends, and its target end
/// reaches every cell of the L.
pub proof fn lemma_l_horiz_reach(m: Seq<Vec<Tile>>, sx: int, sy: int, tx: int, ty: int)
    requires
        forall|x: int| (sx <= x <= tx || tx <= x <= sx) ==> #[trigger] floor_at(m, x, sy),
        forall|y: int| (sy <= y <= ty || ty <= y <= sy) ==> #[trigger] floor_at(m, tx, y),
    ensures
        reachable(m, (sx, sy), (tx, ty)),
        forall|a: int, b: int|
            #![trigger reachable(m, (tx, ty), (a, b))]
            (((sx <= a <= tx || tx <= a <= sx) && b == sy) || (a == tx && (sy <= b <= ty || ty
                <= b <= sy))) ==> reachable(m, (tx, ty), (a, b)),
{
    lemma_row_reach(m, sx, tx, sy);
    lemma_col_reach(m, sy, ty, tx);
    lemma_reach_trans(m, (sx, sy), (tx, sy), (tx, ty));
    assert forall|a: int, b: int|
        (((sx <= a <= tx || tx <= a <= sx) && b == sy) || (a == tx && (sy <= b <= ty || ty <= b
            <= sy))) implies reachable(m, (tx, ty), (a, b)) by {
        if (sx <= a <= tx || tx <= a <= sx) && b == sy {
            lemma_col_reach(m, ty, sy, tx);
            assert forall|x: int| (tx <= x <= a || a <= x <= tx) implies #[trigger] floor_at(
                m,
                x,
                sy,
            ) by {
                assert(sx <= x <= tx || tx <= x <= sx);
            }
            lemma_row_reach(m, tx, a, sy);
            lemma_reach_trans(m, (tx, ty), (tx, sy), (a, sy));
        } else {
            assert forall|y: int| (ty <= y <= b || b <= y <= ty) implies #[trigger] floor_at(
                m,
                tx,
                y,
            ) by {
                assert(sy <= y <= ty || ty <= y <= sy);
            }
            lemma_col_reach(m, ty, b, tx);
        }
    }
}

/// An L-shaped tunnel carved vertically from `(sx, sy)` to `(sx, ty)` and
/// then horizontally to `(tx, ty)` connects its two ends, and its target end
/// reaches every cell of the L.
pub proof fn lemma_l_vert_reach(m: Seq<Vec<Tile>>, sx: int, sy: int, tx: int, ty: int)
    requires
        forall|y: int| (sy <= y <= ty || ty <= y <= sy) ==> #[trigger] floor_at(m, sx, y),
        forall|x: int| (sx <= x <= tx || tx <= x <= sx) ==> #[trigger] floor_at(m, x, ty),
    ensures
        reachable(m, (sx, sy), (tx, ty)),
        forall|a: int, b: int|
            #![trigger reachable(m, (tx, ty), (a, b))]
            ((a == sx && (sy <= b <= ty || ty <= b <= sy)) || (((sx <= a <= tx || tx <= a <= sx)
                && b == ty))) ==> reachable(m, (tx, ty), (a, b)),
{
    lemma_col_reach(m, sy, ty, sx);
    lemma_row_reach(m, sx, tx, ty);
    lemma_reach_trans(m, (sx, sy), (sx, ty), (tx, ty));
    assert forall|a: int, b: int|
        ((a == sx && (sy <= b <= ty || ty <= b <= sy)) || (((sx <= a <= tx || tx <= a <= sx) && b
            == ty))) implies reachable(m, (tx, ty), (a, b)) by {
        if a == sx && (sy <= b <= ty || ty <= b <= sy) {
            lemma_row_reach(m, tx, sx, ty);
            assert forall|y: int| (ty <= y <= b || b <= y <= ty) implies #[trigger] floor_at(
                m,
                sx,
                y,
            ) by {
                assert(sy <= y <= ty || ty <= y <= sy);
            }
            lemma_col_reach(m, ty, b, sx);
            lemma_reach_trans(m, (tx, ty), (sx, ty), (sx, b));
        } else {
            assert forall|x: int| (tx <= x <= a || a <= x <= tx) implies #[trigger] floor_at(
                m,
                x,
                ty,
            ) by {
                assert(sx <= x <= tx || tx <= x <= sx);
            }
            lemma_row_reach(m, tx, a, ty);
        }
    }
}

} // verus!
