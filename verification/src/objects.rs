//! The entity model: anything that sits on the grid (player, monster, item,
//! decoration), with optional combat, behavior and item capabilities, plus
//! the movement and damage primitives every higher layer goes through.
use vstd::prelude::*;

use crate::ai::Ai;
use crate::dungeon::{floor_at, grid_wf, in_grid, interior_floor, tile_at, Grid};
use crate::gui::Messages;
use crate::text::death_message;
use crate::tiles::{Color, Tile};

verus! {

/// What happens when a fighter's hit points run out.
#[derive(Clone, Copy, Debug, PartialEq, Eq, Structural)]
pub enum DeathCallback {
    Player,
    Monster,
}

/// Combat capability: hit points, attack and defense stats, and the
/// experience awarded to whoever lands the killing blow.
#[derive(Clone, Copy, Debug, PartialEq, Eq, Structural)]
pub struct Fighter {
    pub hp: i32,
    pub max_hp: i32,
    pub defense: i32,
    pub power: i32,
    pub exp: i32,
    pub on_death: DeathCallback,
}

impl Fighter {
    /// Stat sanity: hit points within `[0, max_hp]`, and every stat small
    /// enough that combat arithmetic cannot overflow.
    pub open spec fn wf(self) -> bool {
        &&& 0 <= self.hp <= self.max_hp
        &&& 0 < self.max_hp <= 1000000
        &&& 0 <= self.defense <= 10000
        &&& 0 <= self.power <= 10000
        &&& 0 <= self.exp
    }
}

/// Consumable capability: what using the item does.
#[derive(Clone, Copy, Debug, PartialEq, Eq, Structural)]
pub enum Item {
    Heal { amount: i32 },
}

impl Item {
    /// Effect sanity: a healing draught never carries a negative amount.
    pub open spec fn wf(self) -> bool {
        match self {
            Item::Heal { amount } => 0 <= amount,
        }
    }
}

/// Any grid-dwelling thing. Capabilities are optional: a monster carries
/// `fighter` and `ai`, the player only `fighter`, an item only `item`.
#[derive(Debug)]
pub struct Object {
    pub x: i32,
    pub y: i32,
    pub glyph: char,
    pub color: Color,
    pub name: String,
    pub blocks: bool,
    pub alive: bool,
    pub corpse_type: String,
    pub fighter: Option<Fighter>,
    pub ai: Option<Ai>,
    pub item: Option<Item>,
    pub level: i32,
    pub always_visible: bool,
}

/// A roster entry: an object plus (for the player) an inventory.
#[derive(Debug)]
pub struct Character {
    pub object: Object,
    pub inventory: Option<Vec<Object>>,
}

/// `c` as changed by a legal move to `(nx, ny)`: only the position differs.
pub open spec fn moved(c: Character, nx: i32, ny: i32) -> Character {
    Character { object: Object { x: nx, y: ny, ..c.object }, ..c }
}

/// A blocking entity of the roster stands on `(x, y)`.
pub open spec fn blocks_cell(c: Character, x: int, y: int) -> bool {
    c.object.blocks && c.object.x == x && c.object.y == y
}

/// The movement rule's blocking test: a wall tile, or any blocking entity.
pub open spec fn blocked_spec(m: Seq<Vec<Tile>>, chars: Seq<Character>, x: int, y: int) -> bool {
    tile_at(m, x, y).blocked || exists|i: int|
        0 <= i < chars.len() && blocks_cell(#[trigger] chars[i], x, y)
}

/// What one `move_by` call does to the roster: nothing when the target cell
/// is blocked, otherwise exactly the mover's position changes.
pub open spec fn move_by_result(
    m: Seq<Vec<Tile>>,
    chars: Seq<Character>,
    id: int,
    dx: int,
    dy: int,
) -> Seq<Character> {
    let c = chars[id];
    let nx = c.object.x + dx;
    let ny = c.object.y + dy;
    if blocked_spec(m, chars, nx, ny) {
        chars
    } else {
        chars.update(id, moved(c, nx as i32, ny as i32))
    }
}

/// The unit step toward a displacement `d` away, given the displacement
/// `o` on the other axis: the exact-arithmetic form of normalizing the
/// vector `(d, o)` to length one and rounding `d`'s component to the
/// nearest integer (halves away from zero).
pub open spec fn step_toward(d: int, o: int) -> int {
    if d == 0 {
        0
    } else if 3 * d * d >= o * o {
        if d > 0 {
            1
        } else {
            -1
        }
    } else {
        0
    }
}

/// The object with its behavior state taken out and nothing else changed:
/// the shape the turn engine holds an entity in while its behavior runs.
pub open spec fn sans_ai(o: Object) -> Object {
    Object { ai: None, ..o }
}

/// The roster with entry `id`'s behavior state replaced and nothing else.
pub open spec fn with_ai(chars: Seq<Character>, id: int, a: Option<Ai>) -> Seq<Character> {
    chars.update(id, Character { object: Object { ai: a, ..chars[id].object }, ..chars[id] })
}

/// Blocking ignores behavior state: swapping one entry's AI changes no
/// blocking verdict anywhere.
pub proof fn lemma_blocked_ai_indifferent(
    m: Seq<Vec<Tile>>,
    chars: Seq<Character>,
    id: int,
    a: Option<Ai>,
)
    requires
        0 <= id < chars.len(),
    ensures
        forall|x: int, y: int|
            #[trigger] blocked_spec(m, with_ai(chars, id, a), x, y) == blocked_spec(
                m,
                chars,
                x,
                y,
            ),
{
    let c1 = with_ai(chars, id, a);
    assert forall|x: int, y: int|
        #[trigger] blocked_spec(m, c1, x, y) == blocked_spec(m, chars, x, y) by {
        if !tile_at(m, x, y).blocked {
            if blocked_spec(m, c1, x, y) {
                let i = choose|i: int| 0 <= i < c1.len() && blocks_cell(#[trigger] c1[i], x, y);
                assert(blocks_cell(chars[i], x, y));
            }
            if blocked_spec(m, chars, x, y) {
                let i = choose|i: int|
                    0 <= i < chars.len() && blocks_cell(#[trigger] chars[i], x, y);
                assert(blocks_cell(c1[i], x, y));
            }
        }
    }
}

/// Moving commutes with swapping the mover's behavior state: stripping the
/// AI, stepping, and writing a state back lands exactly where stepping the
/// original roster and then writing that state would.
pub proof fn lemma_move_ai_commutes(
    m: Seq<Vec<Tile>>,
    chars: Seq<Character>,
    id: int,
    dx: int,
    dy: int,
    a: Option<Ai>,
)
    requires
        0 <= id < chars.len(),
    ensures
        with_ai(move_by_result(m, with_ai(chars, id, None), id, dx, dy), id, a) == with_ai(
            move_by_result(m, chars, id, dx, dy),
            id,
            a,
        ),
{
    lemma_blocked_ai_indifferent(m, chars, id, None);
    let c1 = with_ai(chars, id, None);
    let nx = chars[id].object.x + dx;
    let ny = chars[id].object.y + dy;
    assert(c1[id].object.x == chars[id].object.x && c1[id].object.y == chars[id].object.y);
    if blocked_spec(m, chars, nx, ny) {
        assert(with_ai(c1, id, a) =~= with_ai(chars, id, a));
    } else {
        let lhs = with_ai(c1.update(id, moved(c1[id], nx as i32, ny as i32)), id, a);
        let rhs = with_ai(chars.update(id, moved(chars[id], nx as i32, ny as i32)), id, a);
        assert(lhs[id] == rhs[id]);
        assert(lhs =~= rhs);
    }
}

/// Hit points after applying a damage amount: only positive damage wounds.
pub open spec fn damaged_hp(f: Fighter, damage: int) -> int {
    if damage > 0 {
        f.hp - damage
    } else {
        f.hp as int
    }
}

/// Fields no combat event ever touches.
pub open spec fn same_apart_from_combat(a: Object, b: Object) -> bool {
    &&& a.x == b.x
    &&& a.y == b.y
    &&& a.corpse_type == b.corpse_type
    &&& a.item == b.item
    &&& a.level == b.level
    &&& a.always_visible == b.always_visible
}

/// The death transition: `o2` is `o` turned into its corpse. The entity
/// stops living and blocking and takes the corpse look; a monster loses its
/// combat and behavior capabilities, the player keeps a fighter finalized at
/// zero hit points.
pub open spec fn corpse_transition(o: Object, o2: Object, f: Fighter) -> bool {
    &&& !o2.alive
    &&& !o2.blocks
    &&& o2.glyph == '%'
    &&& o2.color == (Color { r: 127, g: 0, b: 0 })
    &&& o2.name@ == o.corpse_type@
    &&& same_apart_from_combat(o2, o)
    &&& (f.on_death is Monster ==> o2.fighter is None && o2.ai is None)
    &&& (f.on_death is Player ==> o2.fighter == Some(Fighter { hp: 0, ..f }) && o2.ai == o.ai)
}

/// The object is exactly a healing potion as the population planner places
/// them: a pure consumable that never blocks or fights.
pub open spec fn is_health_potion(o: Object) -> bool {
    &&& o.glyph == '!'
    &&& o.name@ == "Healing Potion"@
    &&& o.item == Some(Item::Heal { amount: 4 })
    &&& !o.blocks
    &&& !o.alive
    &&& o.fighter is None
    &&& o.ai is None
}

/// The object is exactly the common monster species as spawned: a blocking
/// melee fighter with basic behavior (aliveness is switched separately).
pub open spec fn is_fire_elemental(o: Object) -> bool {
    &&& o.glyph == 'f' 
    &&& o.name@ == "Fire Elemental"@
    &&& o.fighter == Some(
        Fighter { hp: 10, max_hp: 10, defense: 0, power: 3, exp: 35, on_death: DeathCallback::Monster },
    )
    &&& o.ai == Some(crate::ai::Ai::Basic)
    &&& o.item is None
    &&& o.blocks
    &&& o.level == 1
}

/// The object is exactly the rarer monster species as spawned.
pub open spec fn is_crystal_lizard(o: Object) -> bool {
    &&& o.glyph == 'l' 
    &&& o.name@ == "Crystal Lizard"@
    &&& o.fighter == Some(
        Fighter { hp: 16, max_hp: 16, defense: 1, power: 4, exp: 100, on_death: DeathCallback::Monster },
    )
    &&& o.ai == Some(crate::ai::Ai::Basic)
    &&& o.item is None
    &&& o.blocks
    &&& o.level == 2
}

/// Hit points after healing by `amount`, clamped at the maximum.
pub open spec fn healed_hp(f: Fighter, amount: int) -> int {
    if f.hp + amount <= f.max_hp {
        f.hp + amount
    } else {
        f.max_hp as int
    }
}

impl Object {
    /// Object sanity: a fighter, if present, is well-formed, and the level
    /// is small enough for combat arithmetic.
    pub open spec fn wf(self) -> bool {
        &&& (self.fighter matches Some(f) ==> f.wf())
        &&& (self.item matches Some(it) ==> it.wf())
        &&& 0 <= self.level <= 10000
    }

    /// The object's coordinates.
    pub fn pos(&self) -> (p: (i32, i32))
        ensures
            p == (self.x, self.y),
    {
        (self.x, self.y)
    }

    /// Place the object at `(x, y)`; everything else is untouched.
    pub fn set_pos(&mut self, x: i32, y: i32)
        ensures
            *final(self) == (Object { x, y, ..*old(self) }),
    {
        self.x = x;
        self.y = y;
    }

    /// The squared distance from this object to `(x, y)`.
    pub fn distance_sq(&self, x: i32, y: i32) -> (d: i64)
        requires
            -100000 <= self.x <= 100000,
            -100000 <= self.y <= 100000,
            -100000 <= x <= 100000,
            -100000 <= y <= 100000,
        ensures
            d == (x - self.x) * (x - self.x) + (y - self.y) * (y - self.y),
    {
        let dx = (x as i64) - (self.x as i64);
        let dy = (y as i64) - (self.y as i64);
        proof {
            assert(dx * dx + dy * dy <= 200000 * 200000 + 200000 * 200000 && 0 <= dx * dx && 0
                <= dy * dy) by (nonlinear_arith)
                requires
                    -200000 <= dx <= 200000,
                    -200000 <= dy <= 200000,
            ;
        }
        dx * dx + dy * dy
    }

    /// The squared distance between this object and another.
    pub fn distance_sq_to(&self, other: &Object) -> (d: i64)
        requires
            -100000 <= self.x <= 100000,
            -100000 <= self.y <= 100000,
            -100000 <= other.x <= 100000,
            -100000 <= other.y <= 100000,
        ensures
            d == (other.x - self.x) * (other.x - self.x) + (other.y - self.y) * (other.y
                - self.y),
    {
        self.distance_sq(other.x, other.y)
    }

    /// Movement's blocking test: true exactly when the tile at `(x, y)` is a
    /// wall or some blocking entity of the roster stands there.
    pub fn is_blocked(x: i32, y: i32, map: &Grid, characters: &Vec<Character>) -> (r: bool)
        requires
            grid_wf(map@),
            in_grid(map@, x as int, y as int),
        ensures
            r == blocked_spec(map@, characters@, x as int, y as int),
    {
        if map[x as usize][y as usize].blocked {
            return true;
        }
        let mut i: usize = 0;
        while i < characters.len()
            invariant
                0 <= i <= characters@.len(),
                forall|j: int|
                    0 <= j < i ==> !blocks_cell(#[trigger] characters@[j], x as int, y as int),
            decreases characters@.len() - i,
        {
            let c = &characters[i];
            if c.object.blocks && c.object.x == x && c.object.y == y {
                return true;
            }
            i = i + 1;
        }
        false
    }

    /// The single choke point all movement passes through: step entity `id`
    /// by one cell, silently doing nothing when the target is blocked. The
    /// mover must stand on floor, which keeps a one-cell step on the grid.
    pub fn move_by(id: usize, dx: i32, dy: i32, map: &Grid, objects: &mut Vec<Character>)
        requires
            grid_wf(map@),
            interior_floor(map@),
            id < old(objects)@.len(),
            -1 <= dx <= 1,
            -1 <= dy <= 1,
            floor_at(map@, old(objects)@[id as int].object.x as int, old(objects)@[id as int].object.y as int),
        ensures
            final(objects)@ == move_by_result(map@, old(objects)@, id as int, dx as int, dy as int),
            floor_at(
                map@,
                final(objects)@[id as int].object.x as int,
                final(objects)@[id as int].object.y as int,
            ),
    {
        let (x, y) = objects[id].object.pos();
        let nx = x + dx;
        let ny = y + dy;
        if !Object::is_blocked(nx, ny, map, objects) {
            let c = &mut objects[id];
            c.object.x = nx;
            c.object.y = ny;
        }
    }

    /// One normalized step toward the target cell, rounded to the nearest
    /// of the eight grid directions (or no step at all), then delegated to
    /// `move_by`. A target equal to the current position is a legal no-op.
    pub fn move_towards(
        id: usize,
        target_x: i32,
        target_y: i32,
        map: &Grid,
        characters: &mut Vec<Character>,
    )
        requires
            grid_wf(map@),
            interior_floor(map@),
            id < old(characters)@.len(),
            -100000 <= target_x <= 100000,
            -100000 <= target_y <= 100000,
            floor_at(
                map@,
                old(characters)@[id as int].object.x as int,
                old(characters)@[id as int].object.y as int,
            ),
        ensures
            final(characters)@ == move_by_result(
                map@,
                old(characters)@,
                id as int,
                step_toward(
                    target_x - old(characters)@[id as int].object.x,
                    target_y - old(characters)@[id as int].object.y,
                ),
                step_toward(
                    target_y - old(characters)@[id as int].object.y,
                    target_x - old(characters)@[id as int].object.x,
                ),
            ),
            floor_at(
                map@,
                final(characters)@[id as int].object.x as int,
                final(characters)@[id as int].object.y as int,
            ),
    {
        let (x, y) = characters[id].object.pos();
        let dx = (target_x as i64) - (x as i64);
        let dy = (target_y as i64) - (y as i64);
        proof {
            assert(0 <= dx * dx <= 200000 * 200000 && 0 <= dy * dy <= 200000 * 200000 && 3 * (dx
                * dx) == 3 * dx * dx && 3 * (dy * dy) == 3 * dy * dy) by (nonlinear_arith)
                requires
                    -200000 <= dx <= 200000,
                    -200000 <= dy <= 200000,
            ;
        }
        let dx2 = dx * dx;
        let dy2 = dy * dy;
        let sx: i32 = if dx == 0 {
            0
        } else if 3 * dx2 >= dy2 {
            if dx > 0 {
                1
            } else {
                -1
            }
        } else {
            0
        };
        let sy: i32 = if dy == 0 {
            0
        } else if 3 * dy2 >= dx2 {
            if dy > 0 {
                1
            } else {
                -1
            }
        } else {
            0
        };
        Object::move_by(id, sx, sy, map, characters);
    }

    /// Subtract `damage` from the fighter's hit points (only positive damage
    /// wounds), then resolve death: on a kill the entity stops living and
    /// blocking, turns into its corpse representation, a death notice is
    /// logged, and the stored experience is returned for the killer.
    pub fn take_damage(&mut self, damage: i32, messages: &mut Messages) -> (r: Option<i32>)
        requires
            old(self).wf(),
        ensures
            final(self).wf(),
            old(self).fighter is None ==> *final(self) == *old(self) && r is None && final(messages)@ == old(messages)@,
            old(self).fighter matches Some(f) ==> damaged_hp(f, damage as int) > 0 ==> {
                &&& *final(self) == (Object {
                    fighter: Some(
                        Fighter { hp: damaged_hp(f, damage as int) as i32, ..f },
                    ),
                    ..*old(self)
                })
                &&& r is None
                &&& final(messages)@ == old(messages)@
            },
            old(self).fighter matches Some(f) ==> damaged_hp(f, damage as int) <= 0 ==> {
                &&& r == Some(f.exp)
                &&& corpse_transition(*old(self), *final(self), f)
                &&& exists|m: String|
                    final(messages)@ == old(messages)@.push((m, Color { r: 255, g: 0, b: 0 }))
                        && #[trigger] m@ == "The "@ + old(self).name@ + " dies!"@
            },
    {
        if let Some(f) = self.fighter {
            if damage > 0 {
                self.fighter = Some(Fighter { hp: f.hp - damage, ..f });
            }
        }
        if let Some(f) = self.fighter {
            if f.hp <= 0 {
                self.alive = false;
                let msg = death_message(&self.name);
                messages.add(msg, Color { r: 255, g: 0, b: 0 });
                self.glyph = '%';
                self.color = Color { r: 127, g: 0, b: 0 };
                self.blocks = false;
                self.name = self.corpse_type.clone();
                match f.on_death {
                    DeathCallback::Monster => {
                        self.fighter = None;
                        self.ai = None;
                    },
                    DeathCallback::Player => {
                        self.fighter = Some(Fighter { hp: 0, ..f });
                    },
                }
                return Some(f.exp);
            }
        }
        None
    }

    /// The player entity: the only fighter driven from outside rather than
    /// by an AI state. Starts wherever generation later places it.
    pub fn player() -> (o: Object)
        ensures
            o.wf(),
            o.alive,
            o.blocks,
            o.x == 0 && o.y == 0,
            o.glyph == '@',
            o.level == 1,
            o.fighter == Some(
                Fighter {
                    hp: 30,
                    max_hp: 30,
                    defense: 2,
                    power: 5,
                    exp: 0,
                    on_death: DeathCallback::Player,
                },
            ),
            o.ai is None,
            o.item is None,
            o.name@ == "Player"@,
    {
        Object {
            x: 0,
            y: 0,
            glyph: '@',
            color: Color { r: 255, g: 255, b: 255 },
            name: "Player".to_owned(),
            blocks: true,
            alive: true,
            corpse_type: "bones of the fallen".to_owned(),
            fighter: Some(
                Fighter {
                    hp: 30,
                    max_hp: 30,
                    defense: 2,
                    power: 5,
                    exp: 0,
                    on_death: DeathCallback::Player,
                },
            ),
            ai: None,
            item: None,
            level: 1,
            always_visible: false,
        }
    }

    /// The common monster species: a basic-AI melee fighter. Spawned not yet
    /// alive; the population planner switches it on when it is placed.
    pub fn fire_elemental(x: i32, y: i32) -> (o: Object)
        ensures
            o.wf(),
            o.x == x && o.y == y,
            o.blocks,
            !o.alive,
            o.fighter == Some(
                Fighter {
                    hp: 10,
                    max_hp: 10,
                    defense: 0,
                    power: 3,
                    exp: 35,
                    on_death: DeathCallback::Monster,
                },
            ),
            o.ai == Some(crate::ai::Ai::Basic),
            o.item is None,
            o.level == 1,
            is_fire_elemental(o),
    {
        Object {
            x,
            y,
            glyph: 'f',
            color: Color { r: 255, g: 127, b: 0 },
            name: "Fire Elemental".to_owned(),
            blocks: true,
            alive: false,
            corpse_type: "ashes".to_owned(),
            fighter: Some(
                Fighter {
                    hp: 10,
                    max_hp: 10,
                    defense: 0,
                    power: 3,
                    exp: 35,
                    on_death: DeathCallback::Monster,
                },
            ),
            ai: Some(crate::ai::Ai::Basic),
            item: None,
            level: 1,
            always_visible: false,
        }
    }

    /// The rarer monster species: tougher and worth more experience.
    pub fn crystal_lizard(x: i32, y: i32) -> (o: Object)
        ensures
            o.wf(),
            o.x == x && o.y == y,
            o.blocks,
            !o.alive,
            o.fighter == Some(
                Fighter {
                    hp: 16,
                    max_hp: 16,
                    defense: 1,
                    power: 4,
                    exp: 100,
                    on_death: DeathCallback::Monster,
                },
            ),
            o.ai == Some(crate::ai::Ai::Basic),
            o.item is None,
            o.level == 2,
            is_crystal_lizard(o),
    {
        Object {
            x,
            y,
            glyph: 'l',
            color: Color { r: 159, g: 255, b: 255 },
            name: "Crystal Lizard".to_owned(),
            blocks: true,
            alive: false,
            corpse_type: "crystal shards".to_owned(),
            fighter: Some(
                Fighter {
                    hp: 16,
                    max_hp: 16,
                    defense: 1,
                    power: 4,
                    exp: 100,
                    on_death: DeathCallback::Monster,
                },
            ),
            ai: Some(crate::ai::Ai::Basic),
            item: None,
            level: 2,
            always_visible: false,
        }
    }

    /// A healing potion: pure item, never blocks, stacks freely.
    pub fn health_pot(x: i32, y: i32) -> (o: Object)
        ensures
            o.wf(),
            o.x == x && o.y == y,
            is_health_potion(o),
            o.item == Some(Item::Heal { amount: 4 }),
    {
        Object {
            x,
            y,
            glyph: '!',
            color: Color { r: 127, g: 0, b: 255 },
            name: "Healing Potion".to_owned(),
            blocks: false,
            alive: false,
            corpse_type: "broken glass".to_owned(),
            fighter: None,
            ai: None,
            item: Some(Item::Heal { amount: 4 }),
            level: 0,
            always_visible: false,
        }
    }

    /// Heal by the given amount without exceeding `max_hp`; an entity with
    /// no fighter capability is untouched.
    pub fn heal(&mut self, amount: i32)
        requires
            old(self).wf(),
            0 <= amount,
        ensures
            final(self).wf(),
            old(self).fighter is None ==> *final(self) == *old(self),
            old(self).fighter matches Some(f) ==> *final(self) == (Object {
                fighter: Some(Fighter { hp: healed_hp(f, amount as int) as i32, ..f }),
                ..*old(self)
            }),
    {
        if let Some(f) = self.fighter {
            let room = f.max_hp - f.hp;
            let nhp = if amount >= room {
                f.max_hp
            } else {
                f.hp + amount
            };
            self.fighter = Some(Fighter { hp: nhp, ..f });
        }
    }
}

/// `move_by`'s effect applied `n` times with the same arguments.
pub open spec fn iterated_move(
    m: Seq<Vec<Tile>>,
    chars: Seq<Character>,
    id: int,
    dx: int,
    dy: int,
    n: nat,
) -> Seq<Character>
    decreases n,
{
    if n == 0 {
        chars
    } else {
        move_by_result(m, iterated_move(m, chars, id, dx, dy, (n - 1) as nat), id, dx, dy)
    }
}

/// Blocked-move idempotence law: a move whose target cell is blocked changes
/// nothing, however many times it is attempted.
pub proof fn lemma_move_by_blocked_idempotent(
    m: Seq<Vec<Tile>>,
    chars: Seq<Character>,
    id: int,
    dx: int,
    dy: int,
    n: nat,
)
    requires
        0 <= id < chars.len(),
        blocked_spec(m, chars, chars[id].object.x + dx, chars[id].object.y + dy),
    ensures
        iterated_move(m, chars, id, dx, dy, n) == chars,
    decreases n,
{
    if n > 0 {
        lemma_move_by_blocked_idempotent(m, chars, id, dx, dy, (n - 1) as nat);
    }
}

/// Damage round-trip law: healing exactly the amount of a survivable wound
/// restores the pre-damage hit points. `wounded` is the fighter exactly as
/// `take_damage` leaves it, and `healed_hp` is exactly what `heal` restores;
/// the clamp at `max_hp` never cuts the restoration short because hit points
/// never exceed the maximum.
pub proof fn lemma_damage_heal_roundtrip(f: Fighter, x: i32)
    requires
        f.wf(),
        0 < x,
        damaged_hp(f, x as int) > 0,
    ensures
        ({
            let wounded = Fighter { hp: damaged_hp(f, x as int) as i32, ..f };
            healed_hp(wounded, x as int) == f.hp
        }),
{
}

} // verus!
