//! Execution of player intents. The input collaborator (keyboard, script)
//! maps raw events to a discrete intent; the core executes it against the
//! world and reports whether a world turn was consumed.
use vstd::prelude::*;

use std::collections::HashMap;

use crate::dungeon::{floor_at, grid_wf, interior_floor, tile_at};
use crate::environment::Game;
use crate::objects::{blocked_spec, Character, Item, Object};
use crate::tiles::{Color, Tile};

verus! {

broadcast use vstd::std_specs::hash::group_hash_axioms;

/// What the core reports back after executing an intent: whether the AI
/// pass should run, or the session should end.
#[derive(Clone, Copy, Debug, PartialEq, Eq, Structural)]
pub enum PlayerAction {
    TookTurn,
    DidntTakeTurn,
    Exit,
}

/// A discrete player intent, produced by the excluded input collaborator.
#[derive(Clone, Copy, Debug, PartialEq, Eq, Structural)]
pub enum PlayerIntent {
    Move { dx: i32, dy: i32 },
    Wait,
    Pickup,
    UseItem { index: usize },
    DropItem { index: usize },
    Descend,
    InventoryQuery,
    Exit,
}

/// The melee half of the move-or-attack rule happened: the first
/// fighter-bearing roster entry standing on the target cell was attacked by
/// the player, only that entry changed, and some pair of jitter draws
/// explains the combat outcome.
pub open spec fn melee_event(
    chars0: Seq<Character>,
    chars1: Seq<Character>,
    p0: Object,
    p1: Object,
    msgs0: Seq<(String, Color)>,
    msgs1: Seq<(String, Color)>,
    tx: int,
    ty: int,
) -> bool {
    exists|i: int|
        {
            &&& #[trigger] fighter_at(chars0, i, tx, ty)
            &&& (forall|j: int| 0 <= j < i ==> !fighter_at(chars0, j, tx, ty))
            &&& chars1 == chars0.update(i, Character { object: chars1[i].object, ..chars0[i] })
            &&& exists|ja: int, jd: int|
                #[trigger] crate::ai::attack_outcome(
                    p0,
                    chars0[i].object,
                    msgs0,
                    p1,
                    chars1[i].object,
                    msgs1,
                    ja,
                    jd,
                )
        }
}

/// Everything the player's move-or-attack rule does, as a relation between
/// the states before and after: a free target cell means a plain step, a
/// blocked one a silent no-op, and a fighter-bearing occupant a melee attack.
pub open spec fn move_or_attack_outcome(
    m: Seq<Vec<Tile>>,
    chars0: Seq<Character>,
    chars1: Seq<Character>,
    p0: Character,
    p1: Character,
    msgs0: Seq<(String, Color)>,
    msgs1: Seq<(String, Color)>,
    dx: int,
    dy: int,
) -> bool {
    let tx = p0.object.x + dx;
    let ty = p0.object.y + dy;
    &&& (forall|i: int| !fighter_at(chars0, i, tx, ty)) && !blocked_spec(m, chars0, tx, ty)
        ==> chars1 == chars0 && msgs1 == msgs0 && p1 == (Character {
        object: Object { x: tx as i32, y: ty as i32, ..p0.object },
        ..p0
    })
    &&& (forall|i: int| !fighter_at(chars0, i, tx, ty)) && blocked_spec(m, chars0, tx, ty)
        ==> chars1 == chars0 && msgs1 == msgs0 && p1 == p0
    &&& (exists|i: int| fighter_at(chars0, i, tx, ty)) ==> melee_event(
        chars0,
        chars1,
        p0.object,
        p1.object,
        msgs0,
        msgs1,
        tx,
        ty,
    ) && p1.inventory == p0.inventory
}

/// Everything one use-item call does: a healing draught at a valid index
/// restores the player (clamped at the maximum) and is consumed, with one
/// notice logged; a capability-less object or an out-of-range index is an
/// invalid intent that changes nothing but the logged notice.
pub open spec fn use_item_outcome(
    p0: Character,
    p1: Character,
    msgs0: Seq<(String, Color)>,
    msgs1: Seq<(String, Color)>,
    index: int,
) -> bool {
    &&& (p0.inventory matches Some(inv) ==> index < inv@.len() ==> match inv@[index].item {
        Some(it) => {
            &&& match it {
                Item::Heal { amount } => p1.object == (Object {
                    fighter: match p0.object.fighter {
                        Some(f) => Some(
                            crate::objects::Fighter {
                                hp: crate::objects::healed_hp(f, amount as int) as i32,
                                ..f
                            },
                        ),
                        None => None,
                    },
                    ..p0.object
                }),
            }
            &&& p1.inventory matches Some(inv1) && inv1@ == inv@.remove(index)
            &&& msgs1.len() == msgs0.len() + 1
        },
        None => p1 == p0 && msgs1.len() == msgs0.len() + 1,
    })
    &&& (!(p0.inventory matches Some(inv) && index < inv@.len()) ==> p1 == p0 && msgs1.len()
        == msgs0.len() + 1)
}

/// Everything one drop-item call does: the inventory entry at a valid index
/// rejoins the item collection at the player's feet under the fresh counter
/// value; an out-of-range index changes nothing but the logged notice.
pub open spec fn drop_item_outcome(
    p0: Character,
    p1: Character,
    items0: Map<i32, Object>,
    items1: Map<i32, Object>,
    c0: i32,
    c1: i32,
    msgs0: Seq<(String, Color)>,
    msgs1: Seq<(String, Color)>,
    index: int,
) -> bool {
    &&& (p0.inventory matches Some(inv) ==> index < inv@.len() ==> {
        &&& p1.inventory matches Some(inv1) && inv1@ == inv@.remove(index)
        &&& p1.object == p0.object
        &&& items1 == items0.insert(
            c0,
            (Object { x: p0.object.x, y: p0.object.y, ..inv@[index] }),
        )
        &&& c1 == c0 + 1
        &&& msgs1.len() == msgs0.len() + 1
    })
    &&& (!(p0.inventory matches Some(inv) && index < inv@.len()) ==> p1 == p0 && items1 == items0
        && c1 == c0 && msgs1.len() == msgs0.len() + 1)
}

/// A fighter-bearing roster entry stands at `(x, y)`.
pub open spec fn fighter_at(chars: Seq<Character>, i: int, x: int, y: int) -> bool {
    &&& 0 <= i < chars.len()
    &&& chars[i].object.fighter is Some
    &&& chars[i].object.x == x
    &&& chars[i].object.y == y
}

impl Object {
    /// The player's melee-or-move rule: if a fighter-bearing entity stands
    /// on the target cell, attack the first such entry of the roster;
    /// otherwise step there unless the cell is blocked.
    pub fn player_move_or_attack(
        dx: i32,
        dy: i32,
        game: &mut Game,
        characters: &mut Vec<Character>,
        player: &mut Character,
    )
        requires
            grid_wf(old(game).map@),
            interior_floor(old(game).map@),
            -1 <= dx <= 1,
            -1 <= dy <= 1,
            floor_at(old(game).map@, old(player).object.x as int, old(player).object.y as int),
            old(player).object.wf(),
            forall|j: int|
                0 <= j < old(characters)@.len() ==> (#[trigger] old(characters)@[j]).object.wf(),
        ensures
            final(game).map@ == old(game).map@,
            final(game).player == old(game).player,
            final(characters)@.len() == old(characters)@.len(),
            final(player).object.wf(),
            move_or_attack_outcome(
                old(game).map@,
                old(characters)@,
                final(characters)@,
                *old(player),
                *final(player),
                old(game).messages@,
                final(game).messages@,
                dx as int,
                dy as int,
            ),
            floor_at(old(game).map@, final(player).object.x as int, final(player).object.y as int),
    {
        let (px, py) = player.object.pos();
        let tx = px + dx;
        let ty = py + dy;
        let mut target: Option<usize> = None;
        let mut i: usize = 0;
        while i < characters.len()
            invariant
                0 <= i <= characters@.len(),
                target is None ==> forall|j: int|
                    0 <= j < i ==> !fighter_at(characters@, j, tx as int, ty as int),
                target matches Some(t) ==> fighter_at(characters@, t as int, tx as int, ty as int)
                    && forall|j: int|
                    0 <= j < t ==> !fighter_at(characters@, j, tx as int, ty as int),
            decreases characters@.len() - i,
        {
            if target.is_none() {
                let c = &characters[i];
                if c.object.fighter.is_some() && c.object.x == tx && c.object.y == ty {
                    target = Some(i);
                }
            }
            i = i + 1;
        }
        match target {
            Some(ti) => {
                let ghost chars0 = characters@;
                let ghost p0 = player.object;
                let ghost msgs0 = game.messages@;
                let defender = &mut characters[ti];
                let jitters = player.object.resolve_attack(
                    &mut defender.object,
                    &mut game.messages,
                );
                proof {
                    assert(crate::ai::attack_outcome(
                        p0,
                        chars0[ti as int].object,
                        msgs0,
                        player.object,
                        characters@[ti as int].object,
                        game.messages@,
                        jitters.0 as int,
                        jitters.1 as int,
                    ));
                    assert(characters@ == chars0.update(
                        ti as int,
                        Character {
                            object: characters@[ti as int].object,
                            ..chars0[ti as int]
                        },
                    ));
                    assert(fighter_at(chars0, ti as int, tx as int, ty as int));
                }
            },
            None => {
                if !Object::is_blocked(tx, ty, &game.map, characters) {
                    player.object.set_pos(tx, ty);
                    proof {
                        assert(!tile_at(game.map@, tx as int, ty as int).blocked);
                    }
                }
            },
        }
    }

    /// Move an item from the world's item collection into the player's
    /// inventory (created on first pickup). An identifier not present in
    /// the collection is reported and nothing changes.
    pub fn pick_item_up(
        item_id: i32,
        game: &mut Game,
        items: &mut HashMap<i32, Object>,
        player: &mut Character,
    )
        ensures
            final(game).map@ == old(game).map@,
            final(game).player == old(game).player,
            final(items)@.dom() == old(items)@.dom().remove(item_id),
            forall|k: i32|
                #[trigger] final(items)@.dom().contains(k) ==> final(items)@[k] == old(items)@[k],
            final(player).object == old(player).object,
            old(items)@.dom().contains(item_id) ==> {
                &&& exists|m: String|
                    final(game).messages@ == old(game).messages@.push(
                        (m, Color { r: 0, g: 255, b: 0 }),
                    ) && #[trigger] m@ == "You picked something up."@
                &&& match (old(player).inventory, final(player).inventory) {
                    (Some(inv0), Some(inv1)) => inv1@ == inv0@.push(old(items)@[item_id]),
                    (None, Some(inv1)) => inv1@ == seq![old(items)@[item_id]],
                    _ => false,
                }
            },
            !old(items)@.dom().contains(item_id) ==> *final(player) == *old(player) && final(game).messages@ == old(game).messages@,
    {
        let taken = items.remove(&item_id);
        match taken {
            Some(obj) => {
                game.messages.add(
                    "You picked something up.".to_owned(),
                    Color { r: 0, g: 255, b: 0 },
                );
                match &mut player.inventory {
                    Some(inv) => {
                        inv.push(obj);
                    },
                    None => {
                        let mut inv: Vec<Object> = Vec::new();
                        inv.push(obj);
                        player.inventory = Some(inv);
                    },
                }
            },
            None => {},
        }
    }

    /// Use the inventory item at `index`: a healing draught restores the
    /// player's hit points (clamped at the maximum) and is consumed. An
    /// out-of-range index is an invalid intent: it is reported on the log
    /// and nothing changes.
    pub fn use_item(index: usize, game: &mut Game, player: &mut Character) -> (used: bool)
        requires
            old(player).object.wf(),
            old(player).inventory matches Some(inv) ==> forall|j: int|
                0 <= j < inv@.len() ==> (#[trigger] inv@[j]).wf(),
        ensures
            final(game).map@ == old(game).map@,
            final(game).player == old(game).player,
            final(player).object.wf(),
            use_item_outcome(
                *old(player),
                *final(player),
                old(game).messages@,
                final(game).messages@,
                index as int,
            ),
            used <==> (old(player).inventory matches Some(inv) && index < inv@.len()
                && inv@[index as int].item is Some),
    {
        let mut usable: Option<Item> = None;
        match &player.inventory {
            Some(inv) => {
                if index < inv.len() {
                    usable = inv[index].item;
                }
            },
            None => {},
        }
        match usable {
            Some(Item::Heal { amount }) => {
                match &mut player.inventory {
                    Some(inv) => {
                        inv.remove(index);
                    },
                    None => {},
                }
                player.object.heal(amount);
                game.messages.add(
                    "You feel your wounds closing.".to_owned(),
                    Color { r: 127, g: 0, b: 255 },
                );
                true
            },
            None => {
                game.messages.add(
                    "Nothing happens.".to_owned(),
                    Color { r: 255, g: 255, b: 255 },
                );
                false
            },
        }
    }

    /// Drop the inventory item at `index` at the player's feet: it rejoins
    /// the world's item collection under a fresh identifier from the world
    /// counter. An out-of-range index is reported and nothing changes.
    pub fn drop_item(
        index: usize,
        game: &mut Game,
        items: &mut HashMap<i32, Object>,
        player: &mut Character,
        item_counter: &mut i32,
    )
        requires
            1 <= *old(item_counter) < i32::MAX,
            forall|k: i32| old(items)@.dom().contains(k) ==> k < *old(item_counter),
        ensures
            final(game).map@ == old(game).map@,
            final(game).player == old(game).player,
            final(player).object == old(player).object,
            drop_item_outcome(
                *old(player),
                *final(player),
                old(items)@,
                final(items)@,
                *old(item_counter),
                *final(item_counter),
                old(game).messages@,
                final(game).messages@,
                index as int,
            ),
            forall|k: i32| final(items)@.dom().contains(k) ==> k < *final(item_counter),
    {
        let mut dropped: Option<Object> = None;
        match &mut player.inventory {
            Some(inv) => {
                if index < inv.len() {
                    dropped = Some(inv.remove(index));
                }
            },
            None => {},
        }
        match dropped {
            Some(mut obj) => {
                let (px, py) = player.object.pos();
                obj.set_pos(px, py);
                items.insert(*item_counter, obj);
                *item_counter = *item_counter + 1;
                game.messages.add("You dropped an item.".to_owned(), Color {
                    r: 255,
                    g: 255,
                    b: 0,
                });
            },
            None => {
                game.messages.add(
                    "Nothing happens.".to_owned(),
                    Color { r: 255, g: 255, b: 255 },
                );
            },
        }
    }
}

/// The item collection holds `k`, lying at `(x, y)` with an item capability.
pub open spec fn item_at(items: Map<i32, Object>, k: i32, x: int, y: int) -> bool {
    &&& items.dom().contains(k)
    &&& items[k].x == x
    &&& items[k].y == y
    &&& items[k].item is Some
}

/// Execute one player intent against the world and report whether a world
/// turn was consumed. A dead player can only exit; an invalid intent (no
/// item underfoot, an out-of-range inventory index) is reported on the
/// message log and consumes no turn rather than failing.
pub fn handle_intent(
    intent: PlayerIntent,
    game: &mut Game,
    characters: &mut Vec<Character>,
    items: &mut HashMap<i32, Object>,
    player: &mut Character,
    item_counter: &mut i32,
) -> (action: PlayerAction)
    requires
        grid_wf(old(game).map@),
        interior_floor(old(game).map@),
        floor_at(old(game).map@, old(player).object.x as int, old(player).object.y as int),
        old(player).object.wf(),
        forall|j: int|
            0 <= j < old(characters)@.len() ==> (#[trigger] old(characters)@[j]).object.wf(),
        old(player).inventory matches Some(inv) ==> forall|j: int|
            0 <= j < inv@.len() ==> (#[trigger] inv@[j]).wf(),
        1 <= *old(item_counter) < i32::MAX,
        forall|k: i32| #[trigger] old(items)@.dom().contains(k) ==> 1 <= k < *old(item_counter),
    ensures
        final(game).map@ == old(game).map@,
        final(game).player == old(game).player,
        final(player).object.wf(),
        floor_at(old(game).map@, final(player).object.x as int, final(player).object.y as int),
        forall|k: i32| #[trigger] final(items)@.dom().contains(k) ==> 1 <= k < *final(item_counter),
        *old(item_counter) <= *final(item_counter) <= *old(item_counter) + 1,
        intent is Exit ==> action == PlayerAction::Exit && final(characters)@ == old(characters)@
            && *final(player) == *old(player) && final(items)@ == old(items)@
            && final(game).messages@ == old(game).messages@ && *final(item_counter) == *old(item_counter),
        intent is Descend || intent is InventoryQuery ==> action == PlayerAction::DidntTakeTurn
            && final(characters)@ == old(characters)@ && *final(player) == *old(player)
            && final(items)@ == old(items)@ && final(game).messages@ == old(game).messages@
            && *final(item_counter) == *old(item_counter),
        !old(player).object.alive && !(intent is Exit) ==> action == PlayerAction::DidntTakeTurn
            && final(characters)@ == old(characters)@ && *final(player) == *old(player) && final(game).messages@ == old(game).messages@ && final(items)@ == old(items)@,
        old(player).object.alive ==> {
            &&& intent is Move ==> action == PlayerAction::TookTurn
            &&& intent matches PlayerIntent::Move { dx, dy } ==> (-1 <= dx <= 1 && -1 <= dy
                <= 1) ==> move_or_attack_outcome(
                old(game).map@,
                old(characters)@,
                final(characters)@,
                *old(player),
                *final(player),
                old(game).messages@,
                final(game).messages@,
                dx as int,
                dy as int,
            )
            &&& intent is Wait ==> action == PlayerAction::TookTurn && final(characters)@ == old(characters)@ && *final(player) == *old(player) && final(items)@ == old(items)@
                && final(game).messages@ == old(game).messages@ && *final(item_counter) == *old(item_counter)
            &&& intent is UseItem ==> action == PlayerAction::TookTurn && final(items)@ == old(items)@ && *final(item_counter) == *old(item_counter) && final(characters)@ == old(characters)@
            &&& intent matches PlayerIntent::UseItem { index } ==> use_item_outcome(
                *old(player),
                *final(player),
                old(game).messages@,
                final(game).messages@,
                index as int,
            )
            &&& intent is DropItem ==> action == PlayerAction::DidntTakeTurn && final(characters)@ == old(characters)@
            &&& intent matches PlayerIntent::DropItem { index } ==> drop_item_outcome(
                *old(player),
                *final(player),
                old(items)@,
                final(items)@,
                *old(item_counter),
                *final(item_counter),
                old(game).messages@,
                final(game).messages@,
                index as int,
            )
            &&& intent is Descend ==> action == PlayerAction::DidntTakeTurn
            &&& intent is InventoryQuery ==> action == PlayerAction::DidntTakeTurn
            &&& intent is Pickup && !(exists|k: i32|
                item_at(
                    old(items)@,
                    k,
                    old(player).object.x as int,
                    old(player).object.y as int,
                )) ==> action == PlayerAction::DidntTakeTurn && final(items)@ == old(items)@
                && *final(player) == *old(player) && exists|m: String|
                final(game).messages@ == old(game).messages@.push((m, Color { r: 255, g: 0, b: 0 }))
                    && #[trigger] m@ == "There's no item to grab..."@
            &&& intent is Pickup && (exists|k: i32|
                item_at(
                    old(items)@,
                    k,
                    old(player).object.x as int,
                    old(player).object.y as int,
                )) ==> action == PlayerAction::TookTurn && exists|k: i32|
                {
                    &&& #[trigger] item_at(
                        old(items)@,
                        k,
                        old(player).object.x as int,
                        old(player).object.y as int,
                    )
                    &&& final(items)@.dom() == old(items)@.dom().remove(k)
                    &&& final(player).object == old(player).object
                    &&& match (old(player).inventory, final(player).inventory) {
                        (Some(i0), Some(i1)) => i1@ == i0@.push(old(items)@[k]),
                        (None, Some(i1)) => i1@ == seq![old(items)@[k]],
                        _ => false,
                    }
                    &&& exists|m: String|
                        final(game).messages@ == old(game).messages@.push(
                            (m, Color { r: 0, g: 255, b: 0 }),
                        ) && #[trigger] m@ == "You picked something up."@
                }
        },
{
    let alive = player.object.alive;
    match intent {
        PlayerIntent::Exit => PlayerAction::Exit,
        PlayerIntent::Move { dx, dy } => {
            if alive {
                let sdx = if dx > 1 {
                    1
                } else if dx < -1 {
                    -1
                } else {
                    dx
                };
                let sdy = if dy > 1 {
                    1
                } else if dy < -1 {
                    -1
                } else {
                    dy
                };
                Object::player_move_or_attack(sdx, sdy, game, characters, player);
                PlayerAction::TookTurn
            } else {
                PlayerAction::DidntTakeTurn
            }
        },
        PlayerIntent::Wait => {
            if alive {
                PlayerAction::TookTurn
            } else {
                PlayerAction::DidntTakeTurn
            }
        },
        PlayerIntent::Pickup => {
            if alive {
                let (px, py) = player.object.pos();
                let mut found: Option<i32> = None;
                let mut k: i32 = 1;
                while k < *item_counter
                    invariant
                        1 <= k <= *item_counter,
                        *item_counter == *old(item_counter),
                        items@ == old(items)@,
                        found is None ==> forall|k2: i32|
                            1 <= k2 < k ==> !item_at(items@, k2, px as int, py as int),
                        found matches Some(f) ==> item_at(items@, f, px as int, py as int),
                    decreases *item_counter - k,
                {
                    if found.is_none() {
                        match items.get(&k) {
                            Some(obj) => {
                                if obj.x == px && obj.y == py && obj.item.is_some() {
                                    found = Some(k);
                                }
                            },
                            None => {},
                        }
                    }
                    k = k + 1;
                }
                match found {
                    Some(item_id) => {
                        Object::pick_item_up(item_id, game, items, player);
                        PlayerAction::TookTurn
                    },
                    None => {
                        game.messages.add(
                            "There's no item to grab...".to_owned(),
                            Color { r: 255, g: 0, b: 0 },
                        );
                        PlayerAction::DidntTakeTurn
                    },
                }
            } else {
                PlayerAction::DidntTakeTurn
            }
        },
        PlayerIntent::UseItem { index } => {
            if alive {
                let _used = Object::use_item(index, game, player);
                PlayerAction::TookTurn
            } else {
                PlayerAction::DidntTakeTurn
            }
        },
        PlayerIntent::DropItem { index } => {
            if alive {
                Object::drop_item(index, game, items, player, item_counter);
                PlayerAction::DidntTakeTurn
            } else {
                PlayerAction::DidntTakeTurn
            }
        },
        PlayerIntent::Descend => PlayerAction::DidntTakeTurn,
        PlayerIntent::InventoryQuery => PlayerAction::DidntTakeTurn,
    }
}

} // verus!
