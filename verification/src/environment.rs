//! The world: the grid plus the message log and the player, and the
//! procedural generator that carves rooms and tunnels into it and populates
//! them with monsters and items.
use vstd::prelude::*;

use std::collections::HashMap;

use crate::dungeon::{
    create_h_tunnel, create_room, create_v_tunnel, floor_at, grid_h, grid_w, grid_wf, in_grid,
    interior_floor, between, tile_at, Grid, Rect,
};
use crate::connectivity::{fully_connected, reachable};
use crate::gui::Messages;
use crate::objects::{blocks_cell, Character, Object};
use crate::rng::{random_flip, random_range_i32, random_u32};
use crate::tiles::{Color, Palette, Tile};

verus! {

broadcast use vstd::std_specs::hash::group_hash_axioms;

/// Default grid width.
pub const MAP_WIDTH: i32 = 80;

/// Default grid height.
pub const MAP_HEIGHT: i32 = 43;

/// Default smallest room extent.
pub const ROOM_MIN_SIZE: i32 = 4;

/// Default largest room extent.
pub const ROOM_MAX_SIZE: i32 = 12;

/// Default number of placement attempts per generation.
pub const MAX_ROOMS: i32 = 18;

/// Most monsters one room may spawn.
pub const MAX_ROOM_MONSTERS: i32 = 3;

/// Most items one room may spawn.
pub const MAX_ROOM_ITEMS: i32 = 2;

/// The world state the simulation mutates turn by turn.
pub struct Game {
    pub map: Grid,
    pub messages: Messages,
    pub player: Object,
}

/// Caller-supplied generation parameters.
#[derive(Clone, Copy, Debug, PartialEq, Eq, Structural)]
pub struct GenConfig {
    pub width: i32,
    pub height: i32,
    pub room_min: i32,
    pub room_max: i32,
    pub max_rooms: i32,
}

impl GenConfig {
    /// Parameter sanity: a grid with an interior, rooms big enough to have
    /// one too. The caps are machine limits, not policy: they keep the tile
    /// allocation at or below a million cells and every coordinate well
    /// inside the ranges the carving and distance arithmetic is proved
    /// overflow-free for.
    pub open spec fn wf(self) -> bool {
        &&& 3 <= self.width <= 1000
        &&& 3 <= self.height <= 1000
        &&& 2 <= self.room_min <= self.room_max <= 1000
        &&& 0 <= self.max_rooms <= 1000
    }

    /// The default generation parameters.
    pub fn standard() -> (c: GenConfig)
        ensures
            c == (GenConfig {
                width: MAP_WIDTH,
                height: MAP_HEIGHT,
                room_min: ROOM_MIN_SIZE,
                room_max: ROOM_MAX_SIZE,
                max_rooms: MAX_ROOMS,
            }),
            c.wf(),
    {
        GenConfig {
            width: MAP_WIDTH,
            height: MAP_HEIGHT,
            room_min: ROOM_MIN_SIZE,
            room_max: ROOM_MAX_SIZE,
            max_rooms: MAX_ROOMS,
        }
    }
}

/// How a generation can fail.
#[derive(Clone, Copy, Debug, PartialEq, Eq, Structural)]
pub enum GenError {
    /// The attempt budget ran out with no room accepted; the caller must
    /// regenerate with adjusted parameters rather than use the bare grid.
    NoRoomsPlaced,
}

/// A fresh grid of the given dimensions, every tile an unexplored wall.
pub fn new_grid(width: i32, height: i32, palette: &Palette) -> (map: Grid)
    requires
        3 <= width <= 1000,
        3 <= height <= 1000,
    ensures
        grid_wf(map@),
        grid_w(map@) == width,
        grid_h(map@) == height,
        forall|x: int, y: int|
            in_grid(map@, x, y) ==> (#[trigger] tile_at(map@, x, y)).terrain is Wall,
{
    let mut map: Grid = Vec::new();
    let mut x: i32 = 0;
    while x < width
        invariant
            0 <= x <= width,
            map@.len() == x,
            forall|a: int|
                0 <= a < x ==> (#[trigger] map@[a])@.len() == height,
            forall|a: int, b: int|
                0 <= a < x && 0 <= b < height ==> (#[trigger] map@[a]@[b]).terrain is Wall
                    && map@[a]@[b].wf(),
        decreases width - x,
    {
        let mut col: Vec<Tile> = Vec::new();
        let mut y: i32 = 0;
        while y < height
            invariant
                0 <= y <= height,
                col@.len() == y,
                forall|b: int|
                    0 <= b < y ==> (#[trigger] col@[b]).terrain is Wall && col@[b].wf(),
            decreases height - y,
        {
            col.push(Tile::wall(palette));
            y = y + 1;
        }
        map.push(col);
        x = x + 1;
    }
    map
}

/// Roll a bounded random count of monsters for a freshly carved room and
/// stand each on a random interior cell, skipping cells already blocked by
/// a wall or another blocking entity. Spawned monsters are alive, blocking
/// fighters with an AI, and no two blockers ever share a cell.
pub fn place_characters(room: Rect, map: &Grid, characters: &mut Vec<Character>)
    requires
        grid_wf(map@),
        room.wf(),
        room.x2 <= grid_w(map@) - 1,
        room.y2 <= grid_h(map@) - 1,
    ensures
        final(characters)@.len() >= old(characters)@.len(),
        final(characters)@.len() <= old(characters)@.len() + MAX_ROOM_MONSTERS,
        forall|j: int|
            0 <= j < old(characters)@.len() ==> final(characters)@[j] == old(characters)@[j],
        forall|j: int|
            old(characters)@.len() <= j < final(characters)@.len() ==> {
                let o = (#[trigger] final(characters)@[j]).object;
                &&& o.wf()
                &&& o.alive
                &&& o.blocks
                &&& o.fighter is Some
                &&& o.ai is Some
                &&& (crate::objects::is_fire_elemental(o) || crate::objects::is_crystal_lizard(o))
                &&& room.contains_interior(o.x as int, o.y as int)
                &&& floor_at(map@, o.x as int, o.y as int)
            },
        forall|j: int, k: int|
            old(characters)@.len() <= j < final(characters)@.len() && 0 <= k < j ==> !blocks_cell(
                #[trigger] final(characters)@[k],
                final(characters)@[j].object.x as int,
                #[trigger] final(characters)@[j].object.y as int,
            ),
{
    let num_monsters = random_range_i32(0, MAX_ROOM_MONSTERS + 1);
    let mut placed: i32 = 0;
    while placed < num_monsters
        invariant
            0 <= placed <= num_monsters <= MAX_ROOM_MONSTERS,
            characters@.len() >= old(characters)@.len(),
            characters@.len() <= old(characters)@.len() + placed,
            forall|j: int|
                0 <= j < old(characters)@.len() ==> characters@[j] == old(characters)@[j],
            forall|j: int|
                old(characters)@.len() <= j < characters@.len() ==> {
                    let o = (#[trigger] characters@[j]).object;
                    &&& o.wf()
                    &&& o.alive
                    &&& o.blocks
                    &&& o.fighter is Some
                    &&& o.ai is Some
                    &&& (crate::objects::is_fire_elemental(o) || crate::objects::is_crystal_lizard(o))
                    &&& room.contains_interior(o.x as int, o.y as int)
                    &&& floor_at(map@, o.x as int, o.y as int)
                },
            forall|j: int, k: int|
                old(characters)@.len() <= j < characters@.len() && 0 <= k < j ==> !blocks_cell(
                    #[trigger] characters@[k],
                    characters@[j].object.x as int,
                    #[trigger] characters@[j].object.y as int,
                ),
        decreases num_monsters - placed,
    {
        let x = random_range_i32(room.x1 + 1, room.x2);
        let y = random_range_i32(room.y1 + 1, room.y2);
        if !Object::is_blocked(x, y, map, characters) {
            let mut monster = if random_range_i32(0, 100) < 80 {
                Object::fire_elemental(x, y)
            } else {
                Object::crystal_lizard(x, y)
            };
            monster.alive = true;
            characters.push(Character { object: monster, inventory: None });
        }
        placed = placed + 1;
    }
}

/// Roll a bounded random count of items for a freshly carved room, placing
/// each at a random interior cell (items stack freely, so no blocking
/// check), keyed by a fresh identifier from the monotonically increasing
/// world counter. Identifiers are never reused.
pub fn place_items(room: Rect, items: &mut HashMap<i32, Object>, item_counter: &mut i32)
    requires
        room.wf(),
        1 <= *old(item_counter) <= i32::MAX - MAX_ROOM_ITEMS,
        forall|k: i32| old(items)@.dom().contains(k) ==> k < *old(item_counter),
    ensures
        *old(item_counter) <= *final(item_counter) <= *old(item_counter) + MAX_ROOM_ITEMS,
        forall|k: i32|
            old(items)@.dom().contains(k) ==> final(items)@.dom().contains(k) && final(items)@[k] == old(items)@[k],
        forall|k: i32|
            #[trigger] final(items)@.dom().contains(k) <==> old(items)@.dom().contains(k) || (*old(item_counter) <= k < *final(item_counter)),
        forall|k: i32|
            *old(item_counter) <= k < *final(item_counter) ==> {
                let o = #[trigger] final(items)@[k];
                &&& o.wf()
                &&& crate::objects::is_health_potion(o)
                &&& room.contains_interior(o.x as int, o.y as int)
            },
{
    let num_items = random_range_i32(0, MAX_ROOM_ITEMS + 1);
    let mut placed: i32 = 0;
    while placed < num_items
        invariant
            0 <= placed <= num_items <= MAX_ROOM_ITEMS,
            *item_counter == *old(item_counter) + placed,
            forall|k: i32|
                old(items)@.dom().contains(k) ==> items@.dom().contains(k) && items@[k] == old(items)@[k],
            forall|k: i32|
                #[trigger] items@.dom().contains(k) <==> old(items)@.dom().contains(k) || (*old(item_counter) <= k < *item_counter),
            forall|k: i32|
                *old(item_counter) <= k < *item_counter ==> {
                    let o = #[trigger] items@[k];
                    &&& o.wf()
                    &&& crate::objects::is_health_potion(o)
                    &&& room.contains_interior(o.x as int, o.y as int)
                },
        decreases num_items - placed,
    {
        let x = random_range_i32(room.x1 + 1, room.x2);
        let y = random_range_i32(room.y1 + 1, room.y2);
        let item = Object::health_pot(x, y);
        items.insert(*item_counter, item);
        *item_counter = *item_counter + 1;
        placed = placed + 1;
    }
}

/// Everything a successful generation guarantees about the produced world:
/// a well-formed grid whose floor is strictly interior, the player standing
/// on floor, every spawned monster a live blocking fighter with an AI
/// standing on floor with no two blockers sharing a cell, and the item
/// collection keyed by distinct, strictly increasing identifiers counted
/// from one with no gaps.
pub open spec fn dungeon_ok(
    m: Seq<Vec<Tile>>,
    player: Object,
    chars: Seq<Character>,
    items: Map<i32, Object>,
) -> bool {
    &&& grid_wf(m)
    &&& interior_floor(m)
    &&& floor_at(m, player.x as int, player.y as int)
    &&& forall|j: int|
        0 <= j < chars.len() ==> {
            let o = (#[trigger] chars[j]).object;
            &&& o.wf()
            &&& o.alive
            &&& o.blocks
            &&& o.fighter is Some
            &&& o.ai is Some
            &&& floor_at(m, o.x as int, o.y as int)
        }
    &&& forall|j: int, k: int|
        0 <= k < j < chars.len() ==> !blocks_cell(
            #[trigger] chars[k],
            chars[j].object.x as int,
            #[trigger] chars[j].object.y as int,
        )
    &&& forall|k: i32| #[trigger] items.dom().contains(k) ==> 1 <= k
    &&& forall|k: i32, k2: i32|
        #![trigger items.dom().contains(k), items.dom().contains(k2)]
        items.dom().contains(k2) && 1 <= k < k2 ==> items.dom().contains(k)
    &&& forall|k: i32|
        #[trigger] items.dom().contains(k) ==> items[k].wf() && items[k].item is Some
            && !items[k].blocks
}

/// A room's center cell as a spec-level coordinate pair.
pub open spec fn center_pair(r: Rect) -> (int, int) {
    (r.spec_center().0 as int, r.spec_center().1 as int)
}

/// `(x, y)` lies on one of the two L-shaped tunnels that can connect `a` to
/// `b`: the horizontal-then-vertical elbow or the vertical-then-horizontal
/// one (the generator flips a coin between them).
pub open spec fn on_l_tunnel(a: (int, int), b: (int, int), x: int, y: int) -> bool {
    ||| ((a.0 <= x <= b.0 || b.0 <= x <= a.0) && (y == a.1 || y == b.1))
    ||| ((x == a.0 || x == b.0) && (a.1 <= y <= b.1 || b.1 <= y <= a.1))
}

/// One accepted placement: carve the room, and unless it is the first room,
/// connect its center to the previous room's center with two perpendicular
/// tunnels (horizontal-first when `coin`, vertical-first otherwise). Floor
/// only ever grows: every already-walkable cell stays walkable, the whole
/// room interior becomes walkable, and all new floor stays off the border.
pub fn carve_room_and_tunnels(
    new_room: Rect,
    prev_room: Option<Rect>,
    coin: bool,
    map: &mut Grid,
    palette: &Palette,
)
    requires
        grid_wf(old(map)@),
        interior_floor(old(map)@),
        new_room.wf(),
        new_room.x2 <= grid_w(old(map)@) - 1,
        new_room.y2 <= grid_h(old(map)@) - 1,
        prev_room matches Some(p) ==> p.wf() && p.x2 <= grid_w(old(map)@) - 1 && p.y2 <= grid_h(
            old(map)@,
        ) - 1,
    ensures
        grid_wf(final(map)@),
        grid_w(final(map)@) == grid_w(old(map)@),
        grid_h(final(map)@) == grid_h(old(map)@),
        interior_floor(final(map)@),
        forall|a: int, b: int|
            #[trigger] floor_at(old(map)@, a, b) ==> floor_at(final(map)@, a, b),
        forall|a: int, b: int|
            new_room.contains_interior(a, b) ==> #[trigger] floor_at(final(map)@, a, b),
        forall|a: int, b: int|
            #[trigger] floor_at(final(map)@, a, b) && !floor_at(old(map)@, a, b) ==> reachable(
                final(map)@,
                (new_room.spec_center().0 as int, new_room.spec_center().1 as int),
                (a, b),
            ),
        prev_room matches Some(p) ==> reachable(
            final(map)@,
            (p.spec_center().0 as int, p.spec_center().1 as int),
            (new_room.spec_center().0 as int, new_room.spec_center().1 as int),
        ),
        forall|a: int, b: int|
            #[trigger] floor_at(final(map)@, a, b) && !floor_at(old(map)@, a, b)
                ==> new_room.contains_interior(a, b) || (prev_room matches Some(p)
                && on_l_tunnel(center_pair(p), center_pair(new_room), a, b)),
{
    let ghost m0 = map@;
    create_room(&new_room, map, palette);
    proof {
        assert forall|a: int, b: int| #[trigger] floor_at(map@, a, b) implies floor_at(m0, a, b)
            || new_room.contains_interior(a, b) by {
            if !new_room.contains_interior(a, b) {
                assert(tile_at(map@, a, b) == tile_at(m0, a, b));
            }
        }
        assert forall|a: int, b: int| #[trigger] floor_at(m0, a, b) implies floor_at(
            map@,
            a,
            b,
        ) by {
            if !new_room.contains_interior(a, b) {
                assert(tile_at(map@, a, b) == tile_at(m0, a, b));
            } else {
                assert(floor_at(map@, a, b));
            }
        }
        assert(interior_floor(map@));
    }
    if let Some(prev) = prev_room {
        let new_center = new_room.center();
        let prev_center = prev.center();
        let new_x = new_center.0;
        let new_y = new_center.1;
        let prev_x = prev_center.0;
        let prev_y = prev_center.1;
        let ghost m1 = map@;
        if coin {
            create_h_tunnel(prev_x, new_x, prev_y, map, palette);
            let ghost m2 = map@;
            proof {
                assert forall|a: int, b: int| #[trigger] floor_at(m2, a, b) implies floor_at(
                    m1,
                    a,
                    b,
                ) || (between(prev_x, new_x, a) && b == prev_y) by {
                    if !(between(prev_x, new_x, a) && b == prev_y) {
                        assert(tile_at(m2, a, b) == tile_at(m1, a, b));
                    }
                }
                assert forall|a: int, b: int| #[trigger] floor_at(m1, a, b) implies floor_at(
                    m2,
                    a,
                    b,
                ) by {
                    if !(between(prev_x, new_x, a) && b == prev_y) {
                        assert(tile_at(m2, a, b) == tile_at(m1, a, b));
                    } else {
                        assert(floor_at(m2, a, b));
                    }
                }
                assert(interior_floor(m2));
            }
            create_v_tunnel(prev_y, new_y, new_x, map, palette);
            proof {
                assert forall|a: int, b: int| #[trigger] floor_at(map@, a, b) implies floor_at(
                    m2,
                    a,
                    b,
                ) || (a == new_x && between(prev_y, new_y, b)) by {
                    if !(a == new_x && between(prev_y, new_y, b)) {
                        assert(tile_at(map@, a, b) == tile_at(m2, a, b));
                    }
                }
                assert forall|a: int, b: int| #[trigger] floor_at(m2, a, b) implies floor_at(
                    map@,
                    a,
                    b,
                ) by {
                    if !(a == new_x && between(prev_y, new_y, b)) {
                        assert(tile_at(map@, a, b) == tile_at(m2, a, b));
                    } else {
                        assert(floor_at(map@, a, b));
                    }
                }
                assert(interior_floor(map@));
            }
            proof {
                let ct = (new_x as int, new_y as int);
                assert forall|xx: int, yy: int|
                    new_room.contains_interior(xx, yy) implies #[trigger] floor_at(
                    map@,
                    xx,
                    yy,
                ) by {
                    assert(floor_at(m1, xx, yy));
                }
                assert forall|xx: int| (prev_x <= xx <= new_x || new_x <= xx <= prev_x) implies #[trigger] floor_at(
                    map@,
                    xx,
                    prev_y as int,
                ) by {
                    assert(between(prev_x, new_x, xx));
                    assert(floor_at(m2, xx, prev_y as int));
                }
                assert forall|yy: int| (prev_y <= yy <= new_y || new_y <= yy <= prev_y) implies #[trigger] floor_at(
                    map@,
                    new_x as int,
                    yy,
                ) by {
                    assert(between(prev_y, new_y, yy));
                }
                crate::connectivity::lemma_l_horiz_reach(
                    map@,
                    prev_x as int,
                    prev_y as int,
                    new_x as int,
                    new_y as int,
                );
                assert forall|a: int, b: int|
                    floor_at(map@, a, b) && !floor_at(m0, a, b) implies reachable(
                    map@,
                    ct,
                    (a, b),
                ) by {
                    if new_room.contains_interior(a, b) {
                        crate::connectivity::lemma_rect_reach(map@, new_room, a, b);
                    } else {
                        if !(between(prev_x, new_x, a) && b == prev_y) && !(a == new_x
                            && between(prev_y, new_y, b)) {
                            assert(floor_at(m2, a, b));
                            assert(floor_at(m1, a, b));
                            assert(floor_at(m0, a, b));
                        }
                        assert(reachable(map@, ct, (a, b)));
                    }
                }
                assert forall|a: int, b: int|
                    floor_at(map@, a, b) && !floor_at(m0, a, b)
                        && !new_room.contains_interior(a, b) implies on_l_tunnel(
                    center_pair(prev),
                    center_pair(new_room),
                    a,
                    b,
                ) by {
                    if !(between(prev_x, new_x, a) && b == prev_y) && !(a == new_x && between(
                        prev_y,
                        new_y,
                        b,
                    )) {
                        assert(floor_at(m2, a, b));
                        assert(floor_at(m1, a, b));
                        assert(floor_at(m0, a, b));
                    }
                }
            }
        } else {
            create_v_tunnel(prev_y, new_y, prev_x, map, palette);
            let ghost m2 = map@;
            proof {
                assert forall|a: int, b: int| #[trigger] floor_at(m2, a, b) implies floor_at(
                    m1,
                    a,
                    b,
                ) || (a == prev_x && between(prev_y, new_y, b)) by {
                    if !(a == prev_x && between(prev_y, new_y, b)) {
                        assert(tile_at(m2, a, b) == tile_at(m1, a, b));
                    }
                }
                assert forall|a: int, b: int| #[trigger] floor_at(m1, a, b) implies floor_at(
                    m2,
                    a,
                    b,
                ) by {
                    if !(a == prev_x && between(prev_y, new_y, b)) {
                        assert(tile_at(m2, a, b) == tile_at(m1, a, b));
                    } else {
                        assert(floor_at(m2, a, b));
                    }
                }
                assert(interior_floor(m2));
            }
            create_h_tunnel(prev_x, new_x, new_y, map, palette);
            proof {
                assert forall|a: int, b: int| #[trigger] floor_at(map@, a, b) implies floor_at(
                    m2,
                    a,
                    b,
                ) || (between(prev_x, new_x, a) && b == new_y) by {
                    if !(between(prev_x, new_x, a) && b == new_y) {
                        assert(tile_at(map@, a, b) == tile_at(m2, a, b));
                    }
                }
                assert forall|a: int, b: int| #[trigger] floor_at(m2, a, b) implies floor_at(
                    map@,
                    a,
                    b,
                ) by {
                    if !(between(prev_x, new_x, a) && b == new_y) {
                        assert(tile_at(map@, a, b) == tile_at(m2, a, b));
                    } else {
                        assert(floor_at(map@, a, b));
                    }
                }
                assert(interior_floor(map@));
            }
            proof {
                let ct = (new_x as int, new_y as int);
                assert forall|xx: int, yy: int|
                    new_room.contains_interior(xx, yy) implies #[trigger] floor_at(
                    map@,
                    xx,
                    yy,
                ) by {
                    assert(floor_at(m1, xx, yy));
                }
                assert forall|yy: int| (prev_y <= yy <= new_y || new_y <= yy <= prev_y) implies #[trigger] floor_at(
                    map@,
                    prev_x as int,
                    yy,
                ) by {
                    assert(between(prev_y, new_y, yy));
                    assert(floor_at(m2, prev_x as int, yy));
                }
                assert forall|xx: int| (prev_x <= xx <= new_x || new_x <= xx <= prev_x) implies #[trigger] floor_at(
                    map@,
                    xx,
                    new_y as int,
                ) by {
                    assert(between(prev_x, new_x, xx));
                }
                crate::connectivity::lemma_l_vert_reach(
                    map@,
                    prev_x as int,
                    prev_y as int,
                    new_x as int,
                    new_y as int,
                );
                assert forall|a: int, b: int|
                    floor_at(map@, a, b) && !floor_at(m0, a, b) implies reachable(
                    map@,
                    ct,
                    (a, b),
                ) by {
                    if new_room.contains_interior(a, b) {
                        crate::connectivity::lemma_rect_reach(map@, new_room, a, b);
                    } else {
                        if !(a == prev_x && between(prev_y, new_y, b)) && !(between(
                            prev_x,
                            new_x,
                            a,
                        ) && b == new_y) {
                            assert(floor_at(m2, a, b));
                            assert(floor_at(m1, a, b));
                            assert(floor_at(m0, a, b));
                        }
                        assert(reachable(map@, ct, (a, b)));
                    }
                }
                assert forall|a: int, b: int|
                    floor_at(map@, a, b) && !floor_at(m0, a, b)
                        && !new_room.contains_interior(a, b) implies on_l_tunnel(
                    center_pair(prev),
                    center_pair(new_room),
                    a,
                    b,
                ) by {
                    if !(a == prev_x && between(prev_y, new_y, b)) && !(between(
                        prev_x,
                        new_x,
                        a,
                    ) && b == new_y) {
                        assert(floor_at(m2, a, b));
                        assert(floor_at(m1, a, b));
                        assert(floor_at(m0, a, b));
                    }
                }
            }
        }
        proof {
            assert forall|a: int, b: int| new_room.contains_interior(a, b) implies #[trigger] floor_at(
                map@,
                a,
                b,
            ) by {
                assert(floor_at(m1, a, b));
            }
        }
    } else {
        proof {
            assert forall|a: int, b: int|
                floor_at(map@, a, b) && !floor_at(m0, a, b) implies reachable(
                map@,
                (new_room.spec_center().0 as int, new_room.spec_center().1 as int),
                (a, b),
            ) by {
                assert(new_room.contains_interior(a, b));
                crate::connectivity::lemma_rect_reach(map@, new_room, a, b);
            }
        }
    }
}

/// The attempt at index `j` of the history is accepted: always in the
/// ruinous style, and in the constructed style exactly when it overlaps no
/// earlier attempt (rejected attempts are still recorded, so the test reads
/// the whole history before `j`).
pub open spec fn accepted_at(rooms: Seq<Rect>, ruinous: bool, j: int) -> bool {
    ruinous || forall|k: int| 0 <= k < j ==> !rooms[j].spec_intersects(#[trigger] rooms[k])
}

/// The accepted subsequence of the attempt history, in order: exactly the
/// rooms the generator carves, populates and tunnels together.
pub open spec fn accepted_rooms(rooms: Seq<Rect>, ruinous: bool) -> Seq<Rect>
    decreases rooms.len(),
{
    if rooms.len() == 0 {
        Seq::empty()
    } else {
        let prefix = accepted_rooms(rooms.drop_last(), ruinous);
        if accepted_at(rooms, ruinous, rooms.len() - 1) {
            prefix.push(rooms.last())
        } else {
            prefix
        }
    }
}

/// In the ruinous style every attempt in the history is accepted: the
/// accepted subsequence is the whole history, so overlapping rooms merge
/// their floor instead of being rejected.
pub proof fn lemma_ruinous_accepts_all(rooms: Seq<Rect>)
    ensures
        accepted_rooms(rooms, true) == rooms,
    decreases rooms.len(),
{
    if rooms.len() > 0 {
        lemma_ruinous_accepts_all(rooms.drop_last());
        assert(rooms.drop_last().push(rooms.last()) =~= rooms);
    }
}

/// Every accepted room is one of the attempts.
pub proof fn lemma_accepted_members(rooms: Seq<Rect>, ruinous: bool)
    ensures
        forall|p: int|
            0 <= p < accepted_rooms(rooms, ruinous).len() ==> exists|i: int|
                0 <= i < rooms.len() && #[trigger] accepted_rooms(rooms, ruinous)[p] == rooms[i],
    decreases rooms.len(),
{
    if rooms.len() > 0 {
        lemma_accepted_members(rooms.drop_last(), ruinous);
        let acc = accepted_rooms(rooms, ruinous);
        let prefix = accepted_rooms(rooms.drop_last(), ruinous);
        assert forall|p: int| 0 <= p < acc.len() implies exists|i: int|
            0 <= i < rooms.len() && #[trigger] acc[p] == rooms[i] by {
            if p < prefix.len() {
                assert(acc[p] == prefix[p]);
                let i = choose|i: int|
                    0 <= i < rooms.drop_last().len() && #[trigger] prefix[p] == rooms.drop_last()[i];
                assert(acc[p] == rooms[i]);
            } else {
                assert(acc[p] == rooms[rooms.len() - 1]);
            }
        }
    }
}

/// In the constructed style the carved rooms are pairwise non-overlapping:
/// a later accepted room overlaps no earlier attempt, and every earlier
/// accepted room is an earlier attempt.
pub proof fn lemma_constructed_disjoint(rooms: Seq<Rect>)
    ensures
        forall|p: int, q: int|
            0 <= p < q < accepted_rooms(rooms, false).len() ==> !(#[trigger] accepted_rooms(
                rooms,
                false,
            )[q]).spec_intersects(#[trigger] accepted_rooms(rooms, false)[p]),
    decreases rooms.len(),
{
    if rooms.len() > 0 {
        lemma_constructed_disjoint(rooms.drop_last());
        lemma_accepted_members(rooms.drop_last(), false);
        let acc = accepted_rooms(rooms, false);
        let prefix = accepted_rooms(rooms.drop_last(), false);
        assert forall|p: int, q: int| 0 <= p < q < acc.len() implies !(#[trigger] acc[q])
            .spec_intersects(#[trigger] acc[p]) by {
            if q < prefix.len() {
                assert(acc[p] == prefix[p] && acc[q] == prefix[q]);
            } else {
                assert(acc[q] == rooms.last());
                assert(accepted_at(rooms, false, rooms.len() - 1));
                assert(acc[p] == prefix[p]);
                let i = choose|i: int|
                    0 <= i < rooms.drop_last().len() && #[trigger] prefix[p] == rooms.drop_last()[i];
                assert(rooms.drop_last()[i] == rooms[i]);
                assert(!rooms[rooms.len() - 1].spec_intersects(rooms[i]));
            }
        }
    }
}

/// Every floor cell of the grid is explained by the accepted rooms: it lies
/// in some accepted room's carved interior, or on the tunnel joining two
/// consecutive accepted rooms' centers. Everything else stays wall.
#[verifier::opaque]
pub open spec fn floor_explained(m: Seq<Vec<Tile>>, acc: Seq<Rect>) -> bool {
    forall|x: int, y: int|
        #[trigger] floor_at(m, x, y) ==> exists|j: int|
            #![trigger acc[j]]
            0 <= j < acc.len() && (acc[j].contains_interior(x, y) || (j >= 1 && on_l_tunnel(
                center_pair(acc[j - 1]),
                center_pair(acc[j]),
                x,
                y,
            )))
}

/// Carving preserves every already-carved accepted interior and adds the
/// new room's own.
proof fn lemma_carved_push(m1: Seq<Vec<Tile>>, m2: Seq<Vec<Tile>>, acc: Seq<Rect>, new_room: Rect)
    requires
        forall|a: int, b: int| #[trigger] floor_at(m1, a, b) ==> floor_at(m2, a, b),
        forall|j: int, a: int, b: int|
            #![trigger acc[j].contains_interior(a, b)]
            0 <= j < acc.len() && acc[j].contains_interior(a, b) ==> floor_at(m1, a, b),
        forall|a: int, b: int|
            new_room.contains_interior(a, b) ==> #[trigger] floor_at(m2, a, b),
    ensures
        forall|j: int, a: int, b: int|
            #![trigger acc.push(new_room)[j].contains_interior(a, b)]
            0 <= j < acc.push(new_room).len() && acc.push(new_room)[j].contains_interior(a, b)
                ==> floor_at(m2, a, b),
{
    let acc2 = acc.push(new_room);
    assert forall|j: int, a: int, b: int|
        0 <= j < acc2.len() && #[trigger] acc2[j].contains_interior(a, b) implies floor_at(
        m2,
        a,
        b,
    ) by {
        if j < acc.len() {
            assert(acc2[j] == acc[j]);
            assert(floor_at(m1, a, b));
        } else {
            assert(acc2[j] == new_room);
        }
    }
}

/// A map whose floor was all reachable from `start` stays fully connected
/// after carving a room tunnelled to an already-reachable center.
proof fn lemma_extend_connected(
    m1: Seq<Vec<Tile>>,
    m2: Seq<Vec<Tile>>,
    start: (int, int),
    pc: (int, int),
    nc: (int, int),
)
    requires
        forall|a: int, b: int| #[trigger] floor_at(m1, a, b) ==> floor_at(m2, a, b),
        forall|a: int, b: int|
            #[trigger] floor_at(m2, a, b) && !floor_at(m1, a, b) ==> reachable(m2, nc, (a, b)),
        fully_connected(m1, start),
        reachable(m1, start, pc),
        reachable(m2, pc, nc),
    ensures
        fully_connected(m2, start),
        reachable(m2, start, nc),
{
    crate::connectivity::lemma_reach_mono(m1, m2, start, pc);
    crate::connectivity::lemma_reach_trans(m2, start, pc, nc);
    assert forall|xx: int, yy: int| floor_at(m2, xx, yy) implies reachable(
        m2,
        start,
        (xx, yy),
    ) by {
        if floor_at(m1, xx, yy) {
            assert(reachable(m1, start, (xx, yy)));
            crate::connectivity::lemma_reach_mono(m1, m2, start, (xx, yy));
        } else {
            assert(reachable(m2, nc, (xx, yy)));
            crate::connectivity::lemma_reach_trans(m2, start, nc, (xx, yy));
        }
    }
}

/// The very first carved room is fully connected from its own center.
proof fn lemma_first_room_connected(m1: Seq<Vec<Tile>>, m2: Seq<Vec<Tile>>, nc: (int, int))
    requires
        forall|x: int, y: int| !#[trigger] floor_at(m1, x, y),
        forall|a: int, b: int|
            #[trigger] floor_at(m2, a, b) && !floor_at(m1, a, b) ==> reachable(m2, nc, (a, b)),
    ensures
        fully_connected(m2, nc),
{
    assert forall|xx: int, yy: int| floor_at(m2, xx, yy) implies reachable(
        m2,
        nc,
        (xx, yy),
    ) by {
        assert(!floor_at(m1, xx, yy));
        assert(reachable(m2, nc, (xx, yy)));
    }
}

/// Extending the accepted history keeps every floor cell explained: old
/// floor keeps its old witness, the new room and its tunnel are explained
/// by the new last entry.
proof fn lemma_floor_explained_push(
    m1: Seq<Vec<Tile>>,
    m2: Seq<Vec<Tile>>,
    acc: Seq<Rect>,
    new_room: Rect,
    prev: Option<Rect>,
)
    requires
        floor_explained(m1, acc),
        forall|a: int, b: int|
            #[trigger] floor_at(m2, a, b) && !floor_at(m1, a, b) ==> new_room.contains_interior(
                a,
                b,
            ) || (prev matches Some(p) && on_l_tunnel(
                center_pair(p),
                center_pair(new_room),
                a,
                b,
            )),
        prev matches Some(p) ==> acc.len() > 0 && p == acc.last(),
    ensures
        floor_explained(m2, acc.push(new_room)),
{
    reveal(floor_explained);
    let acc2 = acc.push(new_room);
    assert forall|xx: int, yy: int| #[trigger] floor_at(m2, xx, yy) implies exists|j: int|
        #![trigger acc2[j]]
        0 <= j < acc2.len() && (acc2[j].contains_interior(xx, yy) || (j >= 1 && on_l_tunnel(
            center_pair(acc2[j - 1]),
            center_pair(acc2[j]),
            xx,
            yy,
        ))) by {
        if floor_at(m1, xx, yy) {
            let j = choose|j: int|
                #![trigger acc[j]]
                0 <= j < acc.len() && (acc[j].contains_interior(xx, yy) || (j >= 1
                    && on_l_tunnel(center_pair(acc[j - 1]), center_pair(acc[j]), xx, yy)));
            assert(acc2[j] == acc[j]);
            if j >= 1 {
                assert(acc2[j - 1] == acc[j - 1]);
            }
        } else {
            let j = acc2.len() - 1;
            assert(acc2[j] == new_room);
            if !new_room.contains_interior(xx, yy) {
                assert(acc2[j - 1] == acc.last());
            }
        }
    }
}

/// Accept one candidate room: carve it (tunnelling to the previously
/// accepted room), populate it, and stand the player at its center when it
/// is the first room accepted. `acc` is the accepted history so far; every
/// generation invariant is carried from `acc` to `acc.push(new_room)`.
#[verifier::rlimit(100)]
#[verifier::spinoff_prover]
fn accept_room(
    new_room: Rect,
    prev_accepted: Option<Rect>,
    Ghost(acc): Ghost<Seq<Rect>>,
    map: &mut Grid,
    palette: &Palette,
    player: &mut Object,
    characters: &mut Vec<Character>,
    items: &mut HashMap<i32, Object>,
    item_counter: &mut i32,
)
    requires
        grid_wf(old(map)@),
        interior_floor(old(map)@),
        new_room.wf(),
        new_room.x2 <= grid_w(old(map)@) - 1,
        new_room.y2 <= grid_h(old(map)@) - 1,
        prev_accepted matches Some(p) ==> acc.len() > 0 && p == acc.last(),
        prev_accepted is None ==> acc.len() == 0,
        acc.len() == 0 ==> forall|x: int, y: int| !#[trigger] floor_at(old(map)@, x, y),
        forall|j: int|
            0 <= j < acc.len() ==> (#[trigger] acc[j]).wf() && acc[j].x2 <= grid_w(old(map)@) - 1
                && acc[j].y2 <= grid_h(old(map)@) - 1,
        forall|j: int, a: int, b: int|
            #![trigger acc[j].contains_interior(a, b)]
            0 <= j < acc.len() && acc[j].contains_interior(a, b) ==> floor_at(old(map)@, a, b),
        floor_explained(old(map)@, acc),
        acc.len() > 0 ==> (old(player).x as int, old(player).y as int) == center_pair(acc[0])
            && floor_at(old(map)@, old(player).x as int, old(player).y as int)
            && fully_connected(old(map)@, (old(player).x as int, old(player).y as int))
            && floor_at(old(map)@, center_pair(acc.last()).0, center_pair(acc.last()).1)
            && reachable(
            old(map)@,
            (old(player).x as int, old(player).y as int),
            center_pair(acc.last()),
        ),
        forall|j: int|
            0 <= j < old(characters)@.len() ==> {
                let o = (#[trigger] old(characters)@[j]).object;
                &&& o.wf()
                &&& o.alive
                &&& o.blocks
                &&& o.fighter is Some
                &&& o.ai is Some
                &&& floor_at(old(map)@, o.x as int, o.y as int)
            },
        chars_in_rooms(old(characters)@, acc),
        forall|j: int, k: int|
            0 <= k < j < old(characters)@.len() ==> !blocks_cell(
                #[trigger] old(characters)@[k],
                old(characters)@[j].object.x as int,
                #[trigger] old(characters)@[j].object.y as int,
            ),
        1 <= *old(item_counter) <= i32::MAX - MAX_ROOM_ITEMS,
        forall|k: i32|
            #[trigger] old(items)@.dom().contains(k) <==> 1 <= k < *old(item_counter),
        forall|k: i32|
            #[trigger] old(items)@.dom().contains(k) ==> old(items)@[k].wf() && old(items)@[k].item is Some && !old(items)@[k].blocks,
        items_in_rooms(old(items)@, acc),
    ensures
        grid_wf(final(map)@),
        grid_w(final(map)@) == grid_w(old(map)@),
        grid_h(final(map)@) == grid_h(old(map)@),
        interior_floor(final(map)@),
        forall|j: int, a: int, b: int|
            #![trigger acc.push(new_room)[j].contains_interior(a, b)]
            0 <= j < acc.push(new_room).len() && acc.push(new_room)[j].contains_interior(a, b)
                ==> floor_at(final(map)@, a, b),
        floor_explained(final(map)@, acc.push(new_room)),
        (final(player).x as int, final(player).y as int) == center_pair(acc.push(new_room)[0]),
        *final(player) == (Object { x: final(player).x, y: final(player).y, ..*old(player) }),
        floor_at(final(map)@, final(player).x as int, final(player).y as int),
        fully_connected(final(map)@, (final(player).x as int, final(player).y as int)),
        floor_at(final(map)@, center_pair(new_room).0, center_pair(new_room).1),
        reachable(
            final(map)@,
            (final(player).x as int, final(player).y as int),
            center_pair(new_room),
        ),
        forall|j: int|
            0 <= j < final(characters)@.len() ==> {
                let o = (#[trigger] final(characters)@[j]).object;
                &&& o.wf()
                &&& o.alive
                &&& o.blocks
                &&& o.fighter is Some
                &&& o.ai is Some
                &&& floor_at(final(map)@, o.x as int, o.y as int)
            },
        chars_in_rooms(final(characters)@, acc.push(new_room)),
        forall|j: int, k: int|
            0 <= k < j < final(characters)@.len() ==> !blocks_cell(
                #[trigger] final(characters)@[k],
                final(characters)@[j].object.x as int,
                #[trigger] final(characters)@[j].object.y as int,
            ),
        *old(item_counter) <= *final(item_counter) <= *old(item_counter) + MAX_ROOM_ITEMS,
        forall|k: i32|
            #[trigger] final(items)@.dom().contains(k) <==> 1 <= k < *final(item_counter),
        forall|k: i32|
            #[trigger] final(items)@.dom().contains(k) ==> final(items)@[k].wf() && final(items)@[k].item is Some && !final(items)@[k].blocks,
        items_in_rooms(final(items)@, acc.push(new_room)),
{
    let ghost m_pre = map@;
    let ghost acc2 = acc.push(new_room);
    let coin = random_flip();
    carve_room_and_tunnels(new_room, prev_accepted, coin, map, palette);
    place_characters(new_room, map, characters);
    place_items(new_room, items, item_counter);
    if prev_accepted.is_none() {
        let center = new_room.center();
        player.set_pos(center.0, center.1);
    }
    proof {
        let start = (player.x as int, player.y as int);
        let nc = center_pair(new_room);
        assert(floor_at(map@, nc.0, nc.1));
        lemma_carved_push(m_pre, map@, acc, new_room);
        if acc.len() == 0 {
            assert(start == nc);
            lemma_first_room_connected(m_pre, map@, nc);
            crate::connectivity::lemma_reach_refl(map@, nc);
        } else {
            let pc = center_pair(acc.last());
            lemma_extend_connected(m_pre, map@, start, pc, nc);
        }
        lemma_floor_explained_push(m_pre, map@, acc, new_room, prev_accepted);
        lemma_members_push(
            old(characters)@,
            characters@,
            old(items)@,
            items@,
            *old(item_counter),
            *item_counter,
            acc,
            new_room,
        );
    }
}

/// Extending the roster and item collection inside a newly accepted room
/// keeps every entity explained by the accepted history.
proof fn lemma_members_push(
    chars0: Seq<Character>,
    chars1: Seq<Character>,
    items0: Map<i32, Object>,
    items1: Map<i32, Object>,
    c0: i32,
    c1: i32,
    acc: Seq<Rect>,
    new_room: Rect,
)
    requires
        chars_in_rooms(chars0, acc),
        chars1.len() >= chars0.len(),
        forall|j: int| 0 <= j < chars0.len() ==> #[trigger] chars1[j] == chars0[j],
        forall|j: int|
            chars0.len() <= j < chars1.len() ==> new_room.contains_interior(
                (#[trigger] chars1[j]).object.x as int,
                chars1[j].object.y as int,
            ),
        items_in_rooms(items0, acc),
        forall|k: i32| #[trigger] items0.dom().contains(k) <==> 1 <= k < c0,
        forall|k: i32| #[trigger] items1.dom().contains(k) <==> 1 <= k < c1,
        c0 <= c1,
        forall|k: i32| items0.dom().contains(k) ==> #[trigger] items1[k] == items0[k],
        forall|k: i32|
            c0 <= k < c1 ==> new_room.contains_interior(
                (#[trigger] items1[k]).x as int,
                items1[k].y as int,
            ),
    ensures
        chars_in_rooms(chars1, acc.push(new_room)),
        items_in_rooms(items1, acc.push(new_room)),
{
    assert forall|c: int| 0 <= c < chars1.len() implies char_in_rooms(
        (#[trigger] chars1[c]).object,
        acc.push(new_room),
    ) by {
        if c < chars0.len() {
            assert(chars1[c] == chars0[c]);
            assert(char_in_rooms(chars0[c].object, acc));
            lemma_char_in_rooms_push(chars0[c].object, acc, new_room);
        } else {
            lemma_char_in_new_room(chars1[c].object, acc, new_room);
        }
    }
    assert forall|k: i32| #[trigger] items1.dom().contains(k) implies char_in_rooms(
        items1[k],
        acc.push(new_room),
    ) by {
        if 1 <= k < c0 {
            assert(items0.dom().contains(k));
            assert(items1[k] == items0[k]);
            assert(char_in_rooms(items0[k], acc));
            lemma_char_in_rooms_push(items0[k], acc, new_room);
        } else {
            lemma_char_in_new_room(items1[k], acc, new_room);
        }
    }
}

/// Accept one candidate room: carve it (tunnelling to the previously
/// accepted room), populate it, and stand the player at its center when it
/// is the first room accepted. `acc` is the accepted history so far; every
/// generation invariant is carried from `acc` to `acc.push(new_room)`.
pub open spec fn char_in_rooms(o: Object, acc: Seq<Rect>) -> bool {
    exists|j: int|
        #![trigger acc[j]]
        0 <= j < acc.len() && acc[j].contains_interior(o.x as int, o.y as int)
}

/// Growing the accepted history never orphans an already-placed entity.
proof fn lemma_char_in_rooms_push(o: Object, acc: Seq<Rect>, r: Rect)
    requires
        char_in_rooms(o, acc),
    ensures
        char_in_rooms(o, acc.push(r)),
{
    let j = choose|j: int|
        #![trigger acc[j]]
        0 <= j < acc.len() && acc[j].contains_interior(o.x as int, o.y as int);
    assert(acc.push(r)[j] == acc[j]);
}

/// An entity placed in the newly accepted room is explained by it.
proof fn lemma_char_in_new_room(o: Object, acc: Seq<Rect>, r: Rect)
    requires
        r.contains_interior(o.x as int, o.y as int),
    ensures
        char_in_rooms(o, acc.push(r)),
{
    assert(acc.push(r)[acc.push(r).len() - 1] == r);
}

/// Every roster entry stands inside some accepted room's interior.
pub open spec fn chars_in_rooms(chars: Seq<Character>, acc: Seq<Rect>) -> bool {
    forall|c: int|
        0 <= c < chars.len() ==> char_in_rooms((#[trigger] chars[c]).object, acc)
}

/// Every item of the collection lies inside some accepted room's interior.
pub open spec fn items_in_rooms(items: Map<i32, Object>, acc: Seq<Rect>) -> bool {
    forall|k: i32| #[trigger] items.dom().contains(k) ==> char_in_rooms(items[k], acc)
}

/// Carve a whole dungeon into a fresh grid, driven by the caller-supplied
/// world-path draw: below the midpoint of the scalar's range the style is
/// "ruinous" and overlapping rooms are accepted (merging open space), at or
/// above it the style is "constructed" and overlaps are rejected. Every
/// attempt that fits the grid is kept in the returned history (rejected
/// ones too, since later overlap tests read them); each accepted room is
/// carved, populated, and tunnelled to the previously accepted room, so a
/// successful generation is always fully connected. A generation in which
/// no room was accepted fails rather than passing off an all-wall grid.
#[verifier::rlimit(100)]
#[verifier::loop_isolation(true)]
pub fn build_dungeon(
    world_path: u32,
    config: &GenConfig,
    palette: &Palette,
    player: &mut Object,
    characters: &mut Vec<Character>,
    items: &mut HashMap<i32, Object>,
) -> (result: Result<(Grid, Vec<Rect>), GenError>)
    requires
        config.wf(),
        old(player).wf(),
        old(characters)@.len() == 0,
        old(items)@.dom() == Set::<i32>::empty(),
    ensures
        result matches Ok(ok) ==> {
            let acc = accepted_rooms(ok.1@, world_path < 0x80000000);
            &&& grid_wf(ok.0@)
            &&& grid_w(ok.0@) == config.width
            &&& grid_h(ok.0@) == config.height
            &&& dungeon_ok(ok.0@, *final(player), final(characters)@, final(items)@)
            &&& *final(player) == (Object {
                x: final(player).x,
                y: final(player).y,
                ..*old(player)
            })
            &&& ok.1@.len() >= 1
            &&& forall|j: int|
                0 <= j < ok.1@.len() ==> (#[trigger] ok.1@[j]).wf() && 0 <= ok.1@[j].x1
                    && ok.1@[j].x2 <= config.width - 1 && 0 <= ok.1@[j].y1 && ok.1@[j].y2
                    <= config.height - 1 && config.room_min <= ok.1@[j].x2 - ok.1@[j].x1
                    <= config.room_max && config.room_min <= ok.1@[j].y2 - ok.1@[j].y1
                    <= config.room_max
            &&& acc.len() >= 1
            &&& acc[0] == ok.1@[0]
            &&& (final(player).x as int, final(player).y as int) == center_pair(acc[0])
            &&& (final(player).x as int, final(player).y as int) == center_pair(ok.1@[0])
            &&& fully_connected(ok.0@, (final(player).x as int, final(player).y as int))
            &&& forall|j: int, a: int, b: int|
                #![trigger acc[j].contains_interior(a, b)]
                0 <= j < acc.len() && acc[j].contains_interior(a, b) ==> floor_at(ok.0@, a, b)
            &&& floor_explained(ok.0@, acc)
            &&& chars_in_rooms(final(characters)@, acc)
            &&& items_in_rooms(final(items)@, acc)
        },
        result is Err ==> final(characters)@ == old(characters)@ && final(items)@.dom()
            == Set::<i32>::empty() && *final(player) == *old(player),
        config.room_min >= config.width || config.room_min >= config.height ==> result is Err,
        config.max_rooms >= 1 && config.room_max <= config.width - 2 && config.room_max
            <= config.height - 2 ==> result is Ok,
        config.room_max <= config.width - 2 && config.room_max <= config.height - 2 ==> (
        result matches Ok(ok) ==> ok.1@.len() == config.max_rooms),
{
    let mut map = new_grid(config.width, config.height, palette);
    let mut rooms: Vec<Rect> = Vec::new();
    let mut prev_accepted: Option<Rect> = None;
    let ghost mut acc: Seq<Rect> = Seq::empty();
    let mut item_counter: i32 = 1;
    let ruinous = world_path < 0x80000000;
    let mut attempt: i32 = 0;
    proof {
        reveal(floor_explained);
        assert(floor_explained(map@, acc));
    }
    while attempt < config.max_rooms
        invariant
            config.wf(),
            ruinous == (world_path < 0x80000000),
            0 <= attempt <= config.max_rooms,
            grid_wf(map@),
            grid_w(map@) == config.width,
            grid_h(map@) == config.height,
            interior_floor(map@),
            rooms@.len() <= attempt,
            acc == accepted_rooms(rooms@, ruinous),
            acc.len() > 0 <==> rooms@.len() > 0,
            prev_accepted matches Some(p) ==> acc.len() > 0 && p == acc.last(),
            prev_accepted is None ==> acc.len() == 0,
            forall|j: int|
                0 <= j < rooms@.len() ==> (#[trigger] rooms@[j]).wf() && 0 <= rooms@[j].x1
                    && rooms@[j].x2 <= config.width - 1 && 0 <= rooms@[j].y1 && rooms@[j].y2
                    <= config.height - 1 && config.room_min <= rooms@[j].x2 - rooms@[j].x1
                    <= config.room_max && config.room_min <= rooms@[j].y2 - rooms@[j].y1
                    <= config.room_max,
            forall|j: int|
                0 <= j < acc.len() ==> (#[trigger] acc[j]).wf() && acc[j].x2 <= config.width - 1
                    && acc[j].y2 <= config.height - 1,
            config.room_min >= config.width || config.room_min >= config.height ==> rooms@.len()
                == 0,
            rooms@.len() == 0 ==> characters@ == old(characters)@ && items@.dom()
                == Set::<i32>::empty() && *player == *old(player) && item_counter == 1,
            rooms@.len() == 0 ==> forall|x: int, y: int| !#[trigger] floor_at(map@, x, y),
            attempt >= 1 && config.room_max <= config.width - 2 && config.room_max
                <= config.height - 2 ==> rooms@.len() >= 1,
            config.room_max <= config.width - 2 && config.room_max <= config.height - 2
                ==> rooms@.len() == attempt,
            acc.len() > 0 ==> acc[0] == rooms@[0] && (player.x as int, player.y as int)
                == center_pair(acc[0]),
            acc.len() > 0 ==> floor_at(map@, player.x as int, player.y as int)
                && fully_connected(map@, (player.x as int, player.y as int)) && floor_at(
                map@,
                center_pair(acc.last()).0,
                center_pair(acc.last()).1,
            ) && reachable(
                map@,
                (player.x as int, player.y as int),
                center_pair(acc.last()),
            ),
            forall|j: int, a: int, b: int|
                #![trigger acc[j].contains_interior(a, b)]
                0 <= j < acc.len() && acc[j].contains_interior(a, b) ==> floor_at(map@, a, b),
            floor_explained(map@, acc),
            *player == (Object { x: player.x, y: player.y, ..*old(player) }),
            forall|j: int|
                0 <= j < characters@.len() ==> {
                    let o = (#[trigger] characters@[j]).object;
                    &&& o.wf()
                    &&& o.alive
                    &&& o.blocks
                    &&& o.fighter is Some
                    &&& o.ai is Some
                    &&& floor_at(map@, o.x as int, o.y as int)
                },
            chars_in_rooms(characters@, acc),
            forall|j: int, k: int|
                0 <= k < j < characters@.len() ==> !blocks_cell(
                    #[trigger] characters@[k],
                    characters@[j].object.x as int,
                    #[trigger] characters@[j].object.y as int,
                ),
            1 <= item_counter <= 1 + 2 * attempt,
            forall|k: i32|
                #[trigger] items@.dom().contains(k) <==> 1 <= k < item_counter,
            forall|k: i32|
                #[trigger] items@.dom().contains(k) ==> items@[k].wf() && items@[k].item is Some
                    && !items@[k].blocks,
            items_in_rooms(items@, acc),
        decreases config.max_rooms - attempt,
    {
        let w = random_range_i32(config.room_min, config.room_max + 1);
        let h = random_range_i32(config.room_min, config.room_max + 1);
        if w < config.width && h < config.height {
            let x = random_range_i32(0, config.width - w);
            let y = random_range_i32(0, config.height - h);
            let new_room = Rect::new(x, y, w, h);

            let mut failed = false;
            let mut i: usize = 0;
            while i < rooms.len()
                invariant
                    0 <= i <= rooms@.len(),
                    failed == exists|j: int|
                        0 <= j < i && new_room.spec_intersects(#[trigger] rooms@[j]),
                decreases rooms@.len() - i,
            {
                if new_room.intersects_with(&rooms[i]) {
                    failed = true;
                }
                i = i + 1;
            }

            if ruinous || !failed {
                let ghost rooms_pre = rooms@;
                accept_room(
                    new_room,
                    prev_accepted,
                    Ghost(acc),
                    &mut map,
                    palette,
                    player,
                    characters,
                    items,
                    &mut item_counter,
                );
                prev_accepted = Some(new_room);
                rooms.push(new_room);
                proof {
                    acc = acc.push(new_room);
                    // the exec acceptance test is exactly the spec acceptance rule
                    assert(rooms@.drop_last() =~= rooms_pre);
                    if !ruinous {
                        assert forall|k: int|
                            0 <= k < rooms@.len() - 1 implies !rooms@[rooms@.len()
                            - 1].spec_intersects(#[trigger] rooms@[k]) by {
                            assert(rooms@[k] == rooms_pre[k]);
                            assert(!new_room.spec_intersects(rooms_pre[k]));
                        }
                    }
                    assert(accepted_at(rooms@, ruinous, rooms@.len() - 1));
                    assert(acc == accepted_rooms(rooms@, ruinous));
                }
            } else {
                let ghost rooms_pre = rooms@;
                rooms.push(new_room);
                proof {
                    assert(rooms@.drop_last() =~= rooms_pre);
                    let j = choose|j: int|
                        0 <= j < rooms_pre.len() && new_room.spec_intersects(
                            #[trigger] rooms_pre[j],
                        );
                    assert(rooms@[j] == rooms_pre[j]);
                    assert(rooms@[rooms@.len() - 1] == new_room);
                    assert(!accepted_at(rooms@, ruinous, rooms@.len() - 1));
                    assert(acc == accepted_rooms(rooms@, ruinous));
                }
            }
        }
        attempt = attempt + 1;
    }
    if rooms.is_empty() {
        Err(GenError::NoRoomsPlaced)
    } else {
        Ok((map, rooms))
    }
}

/// Generate the default dungeon: draw the per-generation palette and the
/// single world-path scalar, then carve with the standard parameters. The
/// player is moved to the first accepted room's center; the roster and item
/// collection are filled by the population planner.
pub fn make_map(
    player: &mut Object,
    characters: &mut Vec<Character>,
    items: &mut HashMap<i32, Object>,
) -> (result: Result<(Grid, Vec<Rect>), GenError>)
    requires
        old(player).wf(),
        old(characters)@.len() == 0,
        old(items)@.dom() == Set::<i32>::empty(),
    ensures
        result matches Ok(ok) ==> {
            &&& grid_wf(ok.0@)
            &&& grid_w(ok.0@) == MAP_WIDTH
            &&& grid_h(ok.0@) == MAP_HEIGHT
            &&& dungeon_ok(ok.0@, *final(player), final(characters)@, final(items)@)
            &&& *final(player) == (Object {
                x: final(player).x,
                y: final(player).y,
                ..*old(player)
            })
            &&& ok.1@.len() >= 1
            &&& forall|j: int|
                0 <= j < ok.1@.len() ==> (#[trigger] ok.1@[j]).wf() && 0 <= ok.1@[j].x1
                    && ok.1@[j].x2 <= MAP_WIDTH - 1 && 0 <= ok.1@[j].y1 && ok.1@[j].y2
                    <= MAP_HEIGHT - 1 && ROOM_MIN_SIZE <= ok.1@[j].x2 - ok.1@[j].x1
                    <= ROOM_MAX_SIZE && ROOM_MIN_SIZE <= ok.1@[j].y2 - ok.1@[j].y1
                    <= ROOM_MAX_SIZE
            &&& (final(player).x as int, final(player).y as int) == center_pair(ok.1@[0])
            &&& fully_connected(ok.0@, (final(player).x as int, final(player).y as int))
            &&& exists|ruinous: bool|
                {
                    let acc = #[trigger] accepted_rooms(ok.1@, ruinous);
                    &&& acc.len() >= 1
                    &&& acc[0] == ok.1@[0]
                    &&& floor_explained(ok.0@, acc)
                    &&& chars_in_rooms(final(characters)@, acc)
                    &&& items_in_rooms(final(items)@, acc)
                }
        },
        result is Ok,
{
    let base = Color {
        r: random_range_i32(20, 90) as u8,
        g: random_range_i32(20, 90) as u8,
        b: random_range_i32(20, 90) as u8,
    };
    let variant = Color {
        r: random_range_i32(90, 180) as u8,
        g: random_range_i32(90, 180) as u8,
        b: random_range_i32(90, 180) as u8,
    };
    let palette = Palette { base, variant };
    let world_path = random_u32();
    let config = GenConfig::standard();
    build_dungeon(world_path, &config, &palette, player, characters, items)
}

impl Game {
    /// A freshly generated world: a new player, the default dungeon, and an
    /// empty message log. Fails exactly when generation places no room.
    pub fn new(characters: &mut Vec<Character>, items: &mut HashMap<i32, Object>) -> (result:
        Result<Game, GenError>)
        requires
            old(characters)@.len() == 0,
            old(items)@.dom() == Set::<i32>::empty(),
        ensures
            result matches Ok(g) ==> {
                &&& dungeon_ok(g.map@, g.player, final(characters)@, final(items)@)
                &&& grid_wf(g.map@)
                &&& grid_w(g.map@) == MAP_WIDTH
                &&& grid_h(g.map@) == MAP_HEIGHT
                &&& interior_floor(g.map@)
                &&& fully_connected(g.map@, (g.player.x as int, g.player.y as int))
                &&& g.player.wf()
                &&& g.player.alive
                &&& g.player.blocks
                &&& g.player.glyph == '@'
                &&& g.player.level == 1
                &&& g.player.name@ == "Player"@
                &&& g.player.fighter == Some(
                    crate::objects::Fighter {
                        hp: 30,
                        max_hp: 30,
                        defense: 2,
                        power: 5,
                        exp: 0,
                        on_death: crate::objects::DeathCallback::Player,
                    },
                )
                &&& g.player.ai is None
                &&& g.player.item is None
                &&& exists|r: Rect|
                    (#[trigger] r.wf()) && (g.player.x as int, g.player.y as int) == center_pair(
                        r,
                    )
                &&& g.messages@.len() == 0
            },
            result is Ok,
    {
        let mut player = Object::player();
        match make_map(&mut player, characters, items) {
            Ok(ok) => {
                let (map, rooms) = ok;
                proof {
                    assert(rooms@[0].wf());
                }
                Ok(Game { map, messages: Messages::new(), player })
            },
            Err(e) => Err(e),
        }
    }
}

} // verus!
