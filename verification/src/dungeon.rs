//! Dungeon geometry: the grid of tiles, rectangular rooms, and the carving
//! primitives that turn wall into floor.
use vstd::prelude::*;

use crate::rng::random_range_i32;
use crate::tiles::{Palette, Tile};

verus! {

/// The dungeon grid, indexed `grid[x][y]` with `x` the column.
pub type Grid = Vec<Vec<Tile>>;

/// Grid width as seen through the view.
pub open spec fn grid_w(m: Seq<Vec<Tile>>) -> int {
    m.len() as int
}

/// Grid height as seen through the view. Well-formed grids are rectangular,
/// so the first column's length is every column's length.
pub open spec fn grid_h(m: Seq<Vec<Tile>>) -> int {
    m[0]@.len() as int
}

/// The tile stored at column `x`, row `y`.
pub open spec fn tile_at(m: Seq<Vec<Tile>>, x: int, y: int) -> Tile {
    m[x]@[y]
}

pub open spec fn in_grid(m: Seq<Vec<Tile>>, x: int, y: int) -> bool {
    0 <= x < grid_w(m) && 0 <= y < grid_h(m)
}

/// There is walkable floor at `(x, y)`.
pub open spec fn floor_at(m: Seq<Vec<Tile>>, x: int, y: int) -> bool {
    in_grid(m, x, y) && tile_at(m, x, y).terrain is Floor
}

/// Grid well-formedness: rectangular, at least 3x3 (so that an interior
/// exists), and every tile satisfies the tile invariant.
pub open spec fn grid_wf(m: Seq<Vec<Tile>>) -> bool {
    &&& 3 <= grid_w(m) <= 100000
    &&& 3 <= grid_h(m) <= 100000
    &&& forall|x: int| 0 <= x < grid_w(m) ==> (#[trigger] m[x])@.len() == grid_h(m)
    &&& forall|x: int, y: int|
        in_grid(m, x, y) ==> (#[trigger] tile_at(m, x, y)).wf()
}

/// All floor lies strictly inside the border: the outermost ring of tiles is
/// wall, so a step of at most one cell from any floor tile stays on the grid.
pub open spec fn interior_floor(m: Seq<Vec<Tile>>) -> bool {
    forall|x: int, y: int|
        #[trigger] floor_at(m, x, y) ==> 1 <= x <= grid_w(m) - 2 && 1 <= y <= grid_h(m) - 2
}

/// An axis-aligned room, half-open in the sense that only the strict
/// interior `(x1, x2) x (y1, y2)` is carved.
#[derive(Clone, Copy, Debug, PartialEq, Eq, Structural)]
pub struct Rect {
    pub x1: i32,
    pub y1: i32,
    pub x2: i32,
    pub y2: i32,
}

impl Rect {
    /// Geometric sanity: nonnegative, nondegenerate, and small enough that
    /// coordinate arithmetic cannot overflow.
    pub open spec fn wf(self) -> bool {
        &&& 0 <= self.x1
        &&& self.x1 + 2 <= self.x2 <= 100000
        &&& 0 <= self.y1
        &&& self.y1 + 2 <= self.y2 <= 100000
    }

    pub open spec fn spec_center(self) -> (i32, i32) {
        (((self.x1 + self.x2) / 2) as i32, ((self.y1 + self.y2) / 2) as i32)
    }

    /// `(x, y)` is one of the cells that carving this room turns to floor.
    pub open spec fn contains_interior(self, x: int, y: int) -> bool {
        self.x1 < x < self.x2 && self.y1 < y < self.y2
    }

    pub open spec fn spec_intersects(self, other: Rect) -> bool {
        self.x1 <= other.x2 && self.x2 >= other.x1 && self.y1 <= other.y2 && self.y2
            >= other.y1
    }

    pub fn new(x: i32, y: i32, w: i32, h: i32) -> (r: Rect)
        requires
            0 <= x,
            0 <= y,
            0 <= w,
            0 <= h,
            x + w <= 100000,
            y + h <= 100000,
        ensures
            r == (Rect { x1: x, y1: y, x2: (x + w) as i32, y2: (y + h) as i32 }),
    {
        Rect { x1: x, y1: y, x2: x + w, y2: y + h }
    }

    /// The room's center cell; for well-formed rooms it lies in the carved
    /// interior.
    pub fn center(&self) -> (c: (i32, i32))
        requires
            self.wf(),
        ensures
            c == self.spec_center(),
            self.contains_interior(c.0 as int, c.1 as int),
    {
        let cx = (self.x1 + self.x2) / 2;
        let cy = (self.y1 + self.y2) / 2;
        (cx, cy)
    }

    /// Overlap test (touching edges count as an intersection), used to
    /// accept or reject candidate rooms.
    pub fn intersects_with(&self, other: &Rect) -> (r: bool)
        ensures
            r == self.spec_intersects(*other),
    {
        (self.x1 <= other.x2) && (self.x2 >= other.x1) && (self.y1 <= other.y2) && (self.y2
            >= other.y1)
    }
}

/// Carve the interior of `room` to floor (each tile tinted with its own
/// small random jitter), leaving every other tile as it was. The room must sit inside the grid so the border stays wall.
pub fn create_room(room: &Rect, map: &mut Grid, palette: &Palette)
    requires
        grid_wf(old(map)@),
        room.wf(),
        room.x2 <= grid_w(old(map)@) - 1,
        room.y2 <= grid_h(old(map)@) - 1,
    ensures
        grid_wf(final(map)@),
        grid_w(final(map)@) == grid_w(old(map)@),
        grid_h(final(map)@) == grid_h(old(map)@),
        forall|x: int, y: int|
            room.contains_interior(x, y) ==> #[trigger] floor_at(final(map)@, x, y),
        forall|x: int, y: int|
            in_grid(final(map)@, x, y) && !room.contains_interior(x, y) ==> #[trigger] tile_at(
                final(map)@,
                x,
                y,
            ) == tile_at(old(map)@, x, y),
{
    let mut x = room.x1 + 1;
    while x < room.x2
        invariant
            room.x1 + 1 <= x <= room.x2,
            grid_wf(map@),
            grid_w(map@) == grid_w(old(map)@),
            grid_h(map@) == grid_h(old(map)@),
            forall|a: int, b: int|
                room.x1 < a < x && room.y1 < b < room.y2 ==> (#[trigger] tile_at(
                    map@,
                    a,
                    b,
                )).terrain is Floor,
            forall|a: int, b: int|
                in_grid(map@, a, b) && !room.contains_interior(a, b) ==> #[trigger] tile_at(
                    map@,
                    a,
                    b,
                ) == tile_at(old(map)@, a, b),
            forall|a: int, b: int|
                x <= a && in_grid(map@, a, b) ==> #[trigger] tile_at(map@, a, b) == tile_at(
                    old(map)@,
                    a,
                    b,
                ),
        decreases room.x2 - x,
    {
        let mut y = room.y1 + 1;
        while y < room.y2
            invariant
                room.x1 + 1 <= x < room.x2,
                room.y1 + 1 <= y <= room.y2,
                grid_wf(map@),
                grid_w(map@) == grid_w(old(map)@),
                grid_h(map@) == grid_h(old(map)@),
                forall|a: int, b: int|
                    room.x1 < a < x && room.y1 < b < room.y2 ==> (#[trigger] tile_at(
                        map@,
                        a,
                        b,
                    )).terrain is Floor,
                forall|b: int|
                    room.y1 < b < y ==> (#[trigger] tile_at(map@, x as int, b)).terrain is Floor,
                forall|a: int, b: int|
                    in_grid(map@, a, b) && !room.contains_interior(a, b) ==> #[trigger] tile_at(
                        map@,
                        a,
                        b,
                    ) == tile_at(old(map)@, a, b),
                forall|a: int, b: int|
                    (x < a || (x <= a && y <= b)) && in_grid(map@, a, b) ==> #[trigger] tile_at(
                        map@,
                        a,
                        b,
                    ) == tile_at(old(map)@, a, b),
            decreases room.y2 - y,
        {
            let ghost m0 = map@;
            let jitter = random_range_i32(0, 32) as u8;
            let t = Tile::floor(palette, jitter);
            map[x as usize][y as usize] = t;
            proof {
                assert(map@ =~= m0.update(x as int, map@[x as int]));
                assert(map@[x as int]@ =~= m0[x as int]@.update(y as int, t));
                assert(tile_at(map@, x as int, y as int) == t);
                assert(forall|a: int, b: int|
                    in_grid(map@, a, b) && !(a == x as int && b == y as int)
                        ==> #[trigger] tile_at(map@, a, b) == tile_at(m0, a, b));
            }
            y = y + 1;
        }
        x = x + 1;
    }
}

/// The inclusive span between two coordinates, in either order.
pub open spec fn between(a: i32, b: i32, v: int) -> bool {
    (a <= v <= b) || (b <= v <= a)
}

/// Carve a 1-wide horizontal tunnel along row `y`, spanning from `x1` to
/// `x2` inclusive (in either order). Every other tile is untouched.
pub fn create_h_tunnel(x1: i32, x2: i32, y: i32, map: &mut Grid, palette: &Palette)
    requires
        grid_wf(old(map)@),
        1 <= x1 <= grid_w(old(map)@) - 2,
        1 <= x2 <= grid_w(old(map)@) - 2,
        1 <= y <= grid_h(old(map)@) - 2,
    ensures
        grid_wf(final(map)@),
        grid_w(final(map)@) == grid_w(old(map)@),
        grid_h(final(map)@) == grid_h(old(map)@),
        forall|x: int| between(x1, x2, x) ==> #[trigger] floor_at(final(map)@, x, y as int),
        forall|x: int, yy: int|
            in_grid(final(map)@, x, yy) && !(between(x1, x2, x) && yy == y) ==> #[trigger] tile_at(
                final(map)@,
                x,
                yy,
            ) == tile_at(old(map)@, x, yy),
{
    let lo = if x1 < x2 { x1 } else { x2 };
    let hi = if x1 < x2 { x2 } else { x1 };
    let mut x = lo;
    while x <= hi
        invariant
            lo <= x <= hi + 1,
            grid_wf(map@),
            grid_w(map@) == grid_w(old(map)@),
            grid_h(map@) == grid_h(old(map)@),
            forall|a: int|
                lo <= a < x ==> (#[trigger] tile_at(map@, a, y as int)).terrain is Floor,
            forall|a: int, b: int|
                in_grid(map@, a, b) && !(lo <= a < x && b == y) ==> #[trigger] tile_at(map@, a, b)
                    == tile_at(old(map)@, a, b),
        decreases hi + 1 - x,
    {
        let ghost m0 = map@;
        let jitter = random_range_i32(0, 32) as u8;
        let t = Tile::floor(palette, jitter);
        map[x as usize][y as usize] = t;
        proof {
            assert(map@ =~= m0.update(x as int, map@[x as int]));
            assert(map@[x as int]@ =~= m0[x as int]@.update(y as int, t));
            assert(tile_at(map@, x as int, y as int) == t);
            assert(forall|a: int, b: int|
                in_grid(map@, a, b) && !(a == x as int && b == y as int) ==> #[trigger] tile_at(
                    map@,
                    a,
                    b,
                ) == tile_at(m0, a, b));
        }
        x = x + 1;
    }
}

/// Carve a 1-wide vertical tunnel along column `x`, spanning from `y1` to
/// `y2` inclusive (in either order). Every other tile is untouched.
pub fn create_v_tunnel(y1: i32, y2: i32, x: i32, map: &mut Grid, palette: &Palette)
    requires
        grid_wf(old(map)@),
        1 <= y1 <= grid_h(old(map)@) - 2,
        1 <= y2 <= grid_h(old(map)@) - 2,
        1 <= x <= grid_w(old(map)@) - 2,
    ensures
        grid_wf(final(map)@),
        grid_w(final(map)@) == grid_w(old(map)@),
        grid_h(final(map)@) == grid_h(old(map)@),
        forall|y: int| between(y1, y2, y) ==> #[trigger] floor_at(final(map)@, x as int, y),
        forall|xx: int, y: int|
            in_grid(final(map)@, xx, y) && !(xx == x && between(y1, y2, y)) ==> #[trigger] tile_at(
                final(map)@,
                xx,
                y,
            ) == tile_at(old(map)@, xx, y),
{
    let lo = if y1 < y2 { y1 } else { y2 };
    let hi = if y1 < y2 { y2 } else { y1 };
    let mut y = lo;
    while y <= hi
        invariant
            lo <= y <= hi + 1,
            grid_wf(map@),
            grid_w(map@) == grid_w(old(map)@),
            grid_h(map@) == grid_h(old(map)@),
            forall|b: int|
                lo <= b < y ==> (#[trigger] tile_at(map@, x as int, b)).terrain is Floor,
            forall|a: int, b: int|
                in_grid(map@, a, b) && !(a == x && lo <= b < y) ==> #[trigger] tile_at(map@, a, b)
                    == tile_at(old(map)@, a, b),
        decreases hi + 1 - y,
    {
        let ghost m0 = map@;
        let jitter = random_range_i32(0, 32) as u8;
        let t = Tile::floor(palette, jitter);
        map[x as usize][y as usize] = t;
        proof {
            assert(map@ =~= m0.update(x as int, map@[x as int]));
            assert(map@[x as int]@ =~= m0[x as int]@.update(y as int, t));
            assert(tile_at(map@, x as int, y as int) == t);
            assert(forall|a: int, b: int|
                in_grid(map@, a, b) && !(a == x as int && b == y as int) ==> #[trigger] tile_at(
                    map@,
                    a,
                    b,
                ) == tile_at(m0, a, b));
        }
        y = y + 1;
    }
}

} // verus!
