//! The per-monster behavior state machine. A monster's state is evaluated
//! once per world turn; `Confused` and `Fear` wrap the prior behavior and
//! restore it when their countdown expires.
use vstd::prelude::*;

use crate::dungeon::{floor_at, grid_wf, interior_floor};
use crate::environment::Game;
use crate::gui::Messages;
use crate::objects::{
    corpse_transition, move_by_result, step_toward, with_ai, Character, Fighter, Object,
};
use crate::rng::random_range_i32;
use crate::text::{attack_message, confusion_over_message, fear_over_message, no_effect_message};
use crate::tiles::Color;

verus! {

/// Behavior state. The wrapped previous state is owned, so expiry hands the
/// exact prior behavior back (moved, not copied).
#[derive(Debug, PartialEq)]
pub enum Ai {
    Basic,
    Confused { previous_ai: Box<Ai>, num_turns: i32 },
    Fear { previous_ai: Box<Ai>, num_turns: i32 },
}

/// The state component of one evaluation of the behavior machine: `Basic`
/// stays `Basic`; a countdown state at zero or more remaining turns ticks
/// down; a countdown below zero restores the wrapped previous state.
pub open spec fn ai_next(a: Ai) -> Ai {
    match a {
        Ai::Basic => Ai::Basic,
        Ai::Confused { previous_ai, num_turns } => {
            if num_turns >= 0 {
                Ai::Confused { previous_ai, num_turns: (num_turns - 1) as i32 }
            } else {
                *previous_ai
            }
        },
        Ai::Fear { previous_ai, num_turns } => {
            if num_turns >= 0 {
                Ai::Fear { previous_ai, num_turns: (num_turns - 1) as i32 }
            } else {
                *previous_ai
            }
        },
    }
}

/// `ai_next` applied `n` times.
pub open spec fn ai_iter(a: Ai, n: nat) -> Ai
    decreases n,
{
    if n == 0 {
        a
    } else {
        ai_next(ai_iter(a, (n - 1) as nat))
    }
}

/// Iterating one extra step is the same as iterating from the successor
/// state.
pub proof fn lemma_ai_iter_shift(a: Ai, m: nat)
    ensures
        ai_iter(a, m + 1) == ai_iter(ai_next(a), m),
    decreases m,
{
    if m == 0 {
        assert(ai_iter(a, 1) == ai_next(ai_iter(a, 0)));
        assert(ai_iter(ai_next(a), 0) == ai_next(a));
    } else {
        lemma_ai_iter_shift(a, (m - 1) as nat);
        assert(ai_iter(a, m + 1) == ai_next(ai_iter(a, m)));
        assert(ai_iter(ai_next(a), m) == ai_next(ai_iter(ai_next(a), (m - 1) as nat)));
    }
}

/// Confusion expiry law: a monster confused for `n` remaining turns reaches
/// the exhausted countdown (`-1`) after exactly `n + 1` evaluations, and one
/// further evaluation restores the wrapped previous behavior unchanged.
pub proof fn lemma_confusion_expiry(prev: Box<Ai>, n: i32)
    requires
        0 <= n,
    ensures
        ai_iter(Ai::Confused { previous_ai: prev, num_turns: n }, (n + 1) as nat) == (
        Ai::Confused { previous_ai: prev, num_turns: (-1) as i32 }),
        ai_iter(Ai::Confused { previous_ai: prev, num_turns: n }, (n + 2) as nat) == *prev,
    decreases n,
{
    let a = Ai::Confused { previous_ai: prev, num_turns: n };
    if n == 0 {
        assert(ai_iter(a, 0) == a);
        assert(ai_iter(a, 1) == ai_next(a));
        assert(ai_iter(a, 2) == ai_next(ai_iter(a, 1)));
    } else {
        lemma_ai_iter_shift(a, n as nat);
        lemma_ai_iter_shift(a, (n + 1) as nat);
        lemma_confusion_expiry(prev, (n - 1) as i32);
    }
}

/// Fear expiry law: the countdown behaves exactly as confusion does.
pub proof fn lemma_fear_expiry(prev: Box<Ai>, n: i32)
    requires
        0 <= n,
    ensures
        ai_iter(Ai::Fear { previous_ai: prev, num_turns: n }, (n + 1) as nat) == (Ai::Fear {
            previous_ai: prev,
            num_turns: (-1) as i32,
        }),
        ai_iter(Ai::Fear { previous_ai: prev, num_turns: n }, (n + 2) as nat) == *prev,
    decreases n,
{
    let a = Ai::Fear { previous_ai: prev, num_turns: n };
    if n == 0 {
        assert(ai_iter(a, 0) == a);
        assert(ai_iter(a, 1) == ai_next(a));
        assert(ai_iter(a, 2) == ai_next(ai_iter(a, 1)));
    } else {
        lemma_ai_iter_shift(a, n as nat);
        lemma_ai_iter_shift(a, (n + 1) as nat);
        lemma_fear_expiry(prev, (n - 1) as i32);
    }
}

/// Three times the level-advantage multiplier. The multiplier itself is
/// one third of the level difference as a real number, but never less than
/// one: a level disadvantage or parity never reduces damage below the
/// undamped value (a deliberate policy asymmetry). Carrying it in thirds
/// keeps the real-valued division exact in integer arithmetic.
pub open spec fn level_mod_thirds(attacker_level: int, defender_level: int) -> int {
    if attacker_level <= defender_level {
        3
    } else {
        attacker_level - defender_level
    }
}

/// Round a fixed-point value (three-thousandths) to the nearest integer,
/// halves away from zero.
pub open spec fn round_div_3000(n: int) -> int {
    if n >= 0 {
        (n + 1500) / 3000
    } else {
        -((-n + 1500) / 3000)
    }
}

/// The damage formula: round((power + ja/1000) * lm - (defense + jd/1000)),
/// with the jitters in thousandths and the level multiplier lm in thirds,
/// so the whole expression is exact over a denominator of three thousand.
pub open spec fn attack_damage_spec(
    power: int,
    attacker_level: int,
    defense: int,
    defender_level: int,
    ja: int,
    jd: int,
) -> int {
    let l3 = level_mod_thirds(attacker_level, defender_level);
    round_div_3000(1000 * power * l3 + ja * l3 - 3000 * defense - 3 * jd)
}

/// Computes the damage of one attack given the two jitter draws (in
/// thousandths of a point, each uniform over [-1, 1]).
pub fn attack_damage(
    power: i32,
    attacker_level: i32,
    defense: i32,
    defender_level: i32,
    ja: i32,
    jd: i32,
) -> (dmg: i32)
    requires
        0 <= power <= 10000,
        0 <= defense <= 10000,
        0 <= attacker_level <= 10000,
        0 <= defender_level <= 10000,
        -1000 <= ja <= 1000,
        -1000 <= jd <= 1000,
    ensures
        dmg == attack_damage_spec(
            power as int,
            attacker_level as int,
            defense as int,
            defender_level as int,
            ja as int,
            jd as int,
        ),
{
    let diff = attacker_level - defender_level;
    let l3: i64 = if diff <= 0 {
        3
    } else {
        diff as i64
    };
    assert(l3 == level_mod_thirds(attacker_level as int, defender_level as int));
    assert(1 <= l3 <= 10000);
    proof {
        assert(0 <= 1000 * (power as int) * l3 <= 100000000000 && -10000000 <= (ja as int) * l3
            <= 10000000) by (nonlinear_arith)
            requires
                0 <= power <= 10000,
                -1000 <= ja <= 1000,
                1 <= l3 <= 10000,
        ;
    }
    let n: i64 = 1000 * (power as i64) * l3 + (ja as i64) * l3 - 3000 * (defense as i64) - 3 * (
    jd as i64);
    let r: i64 = if n >= 0 {
        (((n + 1500) as u64) / 3000) as i64
    } else {
        -(((((-n) + 1500) as u64) / 3000) as i64)
    };
    r as i32
}

/// Attack power stat; an attacker without a fighter capability punches with
/// a default of one.
pub open spec fn power_of(o: Object) -> int {
    match o.fighter {
        Some(f) => f.power as int,
        None => 1,
    }
}

/// Defense stat; a defender without a fighter capability defends with a
/// default of one.
pub open spec fn defense_of(o: Object) -> int {
    match o.fighter {
        Some(f) => f.defense as int,
        None => 1,
    }
}

/// Experience credit: the attacker's fighter (if any) gains `xp`, clamped at
/// the machine maximum; nothing else about the attacker changes.
pub open spec fn credited(a: Object, a2: Object, xp: int) -> bool {
    match a.fighter {
        Some(af) => a2 == (Object {
            fighter: Some(
                Fighter {
                    exp: (if af.exp + xp <= i32::MAX {
                        af.exp + xp
                    } else {
                        i32::MAX as int
                    }) as i32,
                    ..af
                },
            ),
            ..a
        }),
        None => a2 == a,
    }
}

/// Everything one resolved attack does, as a relation between the states
/// before (`a`, `d`, log `msgs`) and after (`a2`, `d2`, `msgs2`), given the
/// two jitter draws. Zero or negative damage only logs the no-effect notice
/// (its exact text and white color stated); a wounding hit logs the attack
/// notice in the attacker's color and applies `take_damage`'s transition,
/// crediting the attacker and logging the red death notice on a kill. Only
/// the attack notice's text is left open: its damage number's decimal
/// rendering is not modeled.
pub open spec fn attack_outcome(
    a: Object,
    d: Object,
    msgs: Seq<(String, Color)>,
    a2: Object,
    d2: Object,
    msgs2: Seq<(String, Color)>,
    ja: int,
    jd: int,
) -> bool {
    let dmg = attack_damage_spec(power_of(a), a.level as int, defense_of(d), d.level as int, ja, jd);
    &&& -1000 <= ja <= 1000
    &&& -1000 <= jd <= 1000
    &&& if dmg <= 0 {
        &&& a2 == a
        &&& d2 == d
        &&& exists|m: String|
            msgs2 == msgs.push((m, Color { r: 255, g: 255, b: 255 })) && #[trigger] m@ == a.name@
                + " attacks "@ + d.name@ + " but it has no effect!"@
    } else {
        match d.fighter {
            None => {
                &&& a2 == a
                &&& d2 == d
                &&& exists|m: String| msgs2 == #[trigger] msgs.push((m, a.color))
            },
            Some(f) => {
                if f.hp - dmg > 0 {
                    &&& d2 == (Object { fighter: Some(Fighter { hp: (f.hp - dmg) as i32, ..f }), ..d })
                    &&& a2 == a
                    &&& exists|m: String| msgs2 == #[trigger] msgs.push((m, a.color))
                } else {
                    &&& corpse_transition(d, d2, f)
                    &&& credited(a, a2, f.exp as int)
                    &&& exists|m1: String, m2: String|
                        msgs2 == #[trigger] msgs.push((m1, a.color)).push(
                            (m2, Color { r: 255, g: 0, b: 0 }),
                        ) && m2@ == "The "@ + d.name@ + " dies!"@
                }
            },
        }
    }
}

impl Object {
    /// Resolve one attack by `self` against `other`: draw the two jitters,
    /// compute the damage, and either wound (possibly kill, crediting the
    /// victim's experience to the attacker) or log that nothing happened.
    /// The jitters are fresh random draws; returning them lets a caller
    /// state the outcome exactly while promising nothing about the draw.
    pub fn resolve_attack(&mut self, other: &mut Object, messages: &mut Messages) -> (jitters: (
        i32,
        i32,
    ))
        requires
            old(self).wf(),
            old(other).wf(),
        ensures
            final(self).wf(),
            final(other).wf(),
            attack_outcome(
                *old(self),
                *old(other),
                old(messages)@,
                *final(self),
                *final(other),
                final(messages)@,
                jitters.0 as int,
                jitters.1 as int,
            ),
    {
        let ja = random_range_i32(-1000, 1001);
        let jd = random_range_i32(-1000, 1001);
        let power = match self.fighter {
            Some(f) => f.power,
            None => 1,
        };
        let defense = match other.fighter {
            Some(f) => f.defense,
            None => 1,
        };
        let dmg = attack_damage(power, self.level, defense, other.level, ja, jd);
        if dmg > 0 {
            let msg = attack_message(&self.name, &other.name, dmg);
            messages.add(msg, self.color);
            let awarded = other.take_damage(dmg, messages);
            if let Some(xp) = awarded {
                if let Some(af) = self.fighter {
                    let exp = if af.exp > i32::MAX - xp {
                        i32::MAX
                    } else {
                        af.exp + xp
                    };
                    self.fighter = Some(Fighter { exp, ..af });
                }
            }
        } else {
            let msg = no_effect_message(&self.name, &other.name);
            messages.add(msg, Color { r: 255, g: 255, b: 255 });
        }
        (ja, jd)
    }
}

/// Squared grid distance between two entities.
pub open spec fn dist_sq(a: Object, b: Object) -> int {
    (b.x - a.x) * (b.x - a.x) + (b.y - a.y) * (b.y - a.y)
}

/// The entity can fight back: it has a fighter with hit points left.
pub open spec fn combat_ready(o: Object) -> bool {
    match o.fighter {
        Some(f) => f.hp > 0,
        None => false,
    }
}

impl Object {
    /// One turn of `Basic` behavior. Visibility is mutual: outside the field
    /// of view the monster idles; in view it closes in while the player is
    /// two or more cells away and attacks once adjacent and the player still
    /// stands. The state always remains `Basic`.
    pub fn ai_basic(
        monster_id: usize,
        in_fov: bool,
        game: &mut Game,
        characters: &mut Vec<Character>,
        player: &mut Object,
    ) -> (new_ai: Ai)
        requires
            grid_wf(old(game).map@),
            interior_floor(old(game).map@),
            monster_id < old(characters)@.len(),
            floor_at(
                old(game).map@,
                old(characters)@[monster_id as int].object.x as int,
                old(characters)@[monster_id as int].object.y as int,
            ),
            old(characters)@[monster_id as int].object.wf(),
            old(player).wf(),
            -100000 <= old(player).x <= 100000,
            -100000 <= old(player).y <= 100000,
        ensures
            new_ai == Ai::Basic,
            final(game).map@ == old(game).map@,
            final(game).player == old(game).player,
            final(characters)@.len() == old(characters)@.len(),
            !in_fov ==> final(characters)@ == old(characters)@ && *final(player) == *old(player)
                && final(game).messages@ == old(game).messages@,
            in_fov && dist_sq(old(characters)@[monster_id as int].object, *old(player)) >= 4
                ==> final(characters)@ == move_by_result(
                old(game).map@,
                old(characters)@,
                monster_id as int,
                step_toward(
                    old(player).x - old(characters)@[monster_id as int].object.x,
                    old(player).y - old(characters)@[monster_id as int].object.y,
                ),
                step_toward(
                    old(player).y - old(characters)@[monster_id as int].object.y,
                    old(player).x - old(characters)@[monster_id as int].object.x,
                ),
            ) && *final(player) == *old(player) && final(game).messages@ == old(game).messages@,
            in_fov && dist_sq(old(characters)@[monster_id as int].object, *old(player)) < 4
                && combat_ready(*old(player)) ==> final(characters)@ == old(characters)@.update(
                monster_id as int,
                Character {
                    object: final(characters)@[monster_id as int].object,
                    ..old(characters)@[monster_id as int]
                },
            ) && exists|ja: int, jd: int|
                #[trigger] attack_outcome(
                    old(characters)@[monster_id as int].object,
                    *old(player),
                    old(game).messages@,
                    final(characters)@[monster_id as int].object,
                    *final(player),
                    final(game).messages@,
                    ja,
                    jd,
                ),
            in_fov && dist_sq(old(characters)@[monster_id as int].object, *old(player)) < 4
                && !combat_ready(*old(player)) ==> final(characters)@ == old(characters)@ && *final(player) == *old(player) && final(game).messages@ == old(game).messages@,
            floor_at(
                old(game).map@,
                final(characters)@[monster_id as int].object.x as int,
                final(characters)@[monster_id as int].object.y as int,
            ),
            final(characters)@[monster_id as int].object.wf(),
            final(player).wf(),
    {
        if in_fov {
            let d = characters[monster_id].object.distance_sq_to(player);
            if d >= 4 {
                let (px, py) = player.pos();
                Object::move_towards(monster_id, px, py, &game.map, characters);
            } else {
                let can_fight = match player.fighter {
                    Some(f) => f.hp > 0,
                    None => false,
                };
                if can_fight {
                    let ghost chars0 = characters@;
                    let ghost p0 = *player;
                    let ghost msgs0 = game.messages@;
                    let a = &mut characters[monster_id];
                    let jitters = a.object.resolve_attack(player, &mut game.messages);
                    proof {
                        assert(attack_outcome(
                            chars0[monster_id as int].object,
                            p0,
                            msgs0,
                            characters@[monster_id as int].object,
                            *player,
                            game.messages@,
                            jitters.0 as int,
                            jitters.1 as int,
                        ));
                        assert(characters@ == chars0.update(
                            monster_id as int,
                            Character {
                                object: characters@[monster_id as int].object,
                                ..chars0[monster_id as int]
                            },
                        ));
                    }
                }
            }
        }
        Ai::Basic
    }

    /// One turn of `Confused` behavior: while turns remain, stagger one
    /// random step (each axis drawn independently from -1, 0, 1) and count
    /// down; once the countdown is exhausted, log the recovery notice and
    /// hand back the wrapped previous behavior.
    pub fn ai_confused(
        monster_id: usize,
        game: &mut Game,
        characters: &mut Vec<Character>,
        previous_ai: Box<Ai>,
        num_turns: i32,
    ) -> (new_ai: Ai)
        requires
            grid_wf(old(game).map@),
            interior_floor(old(game).map@),
            monster_id < old(characters)@.len(),
            floor_at(
                old(game).map@,
                old(characters)@[monster_id as int].object.x as int,
                old(characters)@[monster_id as int].object.y as int,
            ),
        ensures
            new_ai == ai_next(Ai::Confused { previous_ai, num_turns }),
            final(game).map@ == old(game).map@,
            final(game).player == old(game).player,
            final(characters)@.len() == old(characters)@.len(),
            num_turns >= 0 ==> final(game).messages@ == old(game).messages@ && exists|
                dx: int,
                dy: int,
            |
                -1 <= dx <= 1 && -1 <= dy <= 1 && final(characters)@ == #[trigger] move_by_result(
                    old(game).map@,
                    old(characters)@,
                    monster_id as int,
                    dx,
                    dy,
                ),
            num_turns < 0 ==> final(characters)@ == old(characters)@ && exists|m: String|
                final(game).messages@ == old(game).messages@.push(
                    (m, Color { r: 255, g: 0, b: 0 }),
                ) && #[trigger] m@ == "The "@ + old(characters)@[monster_id as int].object.name@
                    + " is no longer confused!"@,
            floor_at(
                old(game).map@,
                final(characters)@[monster_id as int].object.x as int,
                final(characters)@[monster_id as int].object.y as int,
            ),
    {
        if num_turns >= 0 {
            let dx = random_range_i32(-1, 2);
            let dy = random_range_i32(-1, 2);
            Object::move_by(monster_id, dx, dy, &game.map, characters);
            Ai::Confused { previous_ai, num_turns: num_turns - 1 }
        } else {
            let msg = confusion_over_message(&characters[monster_id].object.name);
            game.messages.add(msg, Color { r: 255, g: 0, b: 0 });
            *previous_ai
        }
    }

    /// One turn of `Fear` behavior: the monster freezes in place while turns
    /// remain; the countdown and expiry work exactly as for confusion.
    pub fn ai_fear(
        monster_id: usize,
        game: &mut Game,
        characters: &mut Vec<Character>,
        previous_ai: Box<Ai>,
        num_turns: i32,
    ) -> (new_ai: Ai)
        requires
            monster_id < old(characters)@.len(),
        ensures
            new_ai == ai_next(Ai::Fear { previous_ai, num_turns }),
            final(game).map@ == old(game).map@,
            final(game).player == old(game).player,
            final(characters)@ == old(characters)@,
            num_turns >= 0 ==> final(game).messages@ == old(game).messages@,
            num_turns < 0 ==> exists|m: String|
                final(game).messages@ == old(game).messages@.push(
                    (m, Color { r: 255, g: 0, b: 0 }),
                ) && #[trigger] m@ == "The "@ + old(characters)@[monster_id as int].object.name@
                    + " is no longer scared!"@,
    {
        if num_turns >= 0 {
            Ai::Fear { previous_ai, num_turns: num_turns - 1 }
        } else {
            let msg = fear_over_message(&characters[monster_id].object.name);
            game.messages.add(msg, Color { r: 255, g: 0, b: 0 });
            *previous_ai
        }
    }

    /// Evaluate one monster's turn. The behavior value is taken out of the
    /// entity, the matching behavior runs, and the successor state is
    /// written back: the destructive read keeps a monster from consulting
    /// its own stale state mid-transition. An entity with no behavior does
    /// nothing. The contract pins, per behavior variant, exactly what the
    /// turn did to the roster, the player and the message log, over the
    /// callees' own contracts.
    pub fn ai_take_turn(
        monster_id: usize,
        in_fov: bool,
        game: &mut Game,
        characters: &mut Vec<Character>,
        player: &mut Object,
    )
        requires
            grid_wf(old(game).map@),
            interior_floor(old(game).map@),
            monster_id < old(characters)@.len(),
            floor_at(
                old(game).map@,
                old(characters)@[monster_id as int].object.x as int,
                old(characters)@[monster_id as int].object.y as int,
            ),
            old(characters)@[monster_id as int].object.wf(),
            old(player).wf(),
            -100000 <= old(player).x <= 100000,
            -100000 <= old(player).y <= 100000,
        ensures
            final(game).map@ == old(game).map@,
            final(game).player == old(game).player,
            final(characters)@.len() == old(characters)@.len(),
            old(characters)@[monster_id as int].object.ai is None ==> final(characters)@ == old(characters)@ && *final(player) == *old(player) && final(game).messages@ == old(game).messages@,
            old(characters)@[monster_id as int].object.ai matches Some(a) ==> final(characters)@[monster_id as int].object.ai == Some(ai_next(a)),
            forall|j: int|
                0 <= j < old(characters)@.len() && j != monster_id ==> final(characters)@[j]
                    == old(characters)@[j],
            floor_at(
                old(game).map@,
                final(characters)@[monster_id as int].object.x as int,
                final(characters)@[monster_id as int].object.y as int,
            ),
            final(player).wf(),
            // a basic monster out of view, or facing a downed player, idles
            old(characters)@[monster_id as int].object.ai == Some(Ai::Basic) && (!in_fov || (
            dist_sq(old(characters)@[monster_id as int].object, *old(player)) < 4
                && !combat_ready(*old(player)))) ==> final(characters)@ == old(characters)@
                && *final(player) == *old(player) && final(game).messages@ == old(game).messages@,
            // a basic monster in view and out of melee range takes exactly
            // the normalized step toward the player
            old(characters)@[monster_id as int].object.ai == Some(Ai::Basic) && in_fov && dist_sq(
                old(characters)@[monster_id as int].object,
                *old(player),
            ) >= 4 ==> final(characters)@ == move_by_result(
                old(game).map@,
                old(characters)@,
                monster_id as int,
                step_toward(
                    old(player).x - old(characters)@[monster_id as int].object.x,
                    old(player).y - old(characters)@[monster_id as int].object.y,
                ),
                step_toward(
                    old(player).y - old(characters)@[monster_id as int].object.y,
                    old(player).x - old(characters)@[monster_id as int].object.x,
                ),
            ) && *final(player) == *old(player) && final(game).messages@ == old(game).messages@,
            // a basic monster adjacent to a standing player attacks: some
            // admissible jitter pair explains the wound or the no-effect
            // notice (the attacker is compared with its behavior taken out,
            // which the turn holds while the blow resolves)
            old(characters)@[monster_id as int].object.ai == Some(Ai::Basic) && in_fov && dist_sq(
                old(characters)@[monster_id as int].object,
                *old(player),
            ) < 4 && combat_ready(*old(player)) ==> exists|ja: int, jd: int|
                #[trigger] attack_outcome(
                    crate::objects::sans_ai(old(characters)@[monster_id as int].object),
                    *old(player),
                    old(game).messages@,
                    crate::objects::sans_ai(final(characters)@[monster_id as int].object),
                    *final(player),
                    final(game).messages@,
                    ja,
                    jd,
                ),
            // a confused monster with turns remaining staggers one random
            // step and keeps counting down
            old(characters)@[monster_id as int].object.ai matches Some(a) ==> a matches
                Ai::Confused { previous_ai: _, num_turns } ==> num_turns >= 0 ==> *final(player)
                == *old(player) && final(game).messages@ == old(game).messages@ && exists|
                dx: int,
                dy: int,
            |
                -1 <= dx <= 1 && -1 <= dy <= 1 && final(characters)@ == with_ai(
                    #[trigger] move_by_result(old(game).map@, old(characters)@, monster_id as int, dx, dy),
                    monster_id as int,
                    Some(ai_next(a)),
                ),
            // an exhausted confusion restores the wrapped state and logs
            // the recovery notice
            old(characters)@[monster_id as int].object.ai matches Some(a) ==> a matches
                Ai::Confused { previous_ai: _, num_turns } ==> num_turns < 0 ==> final(characters)@
                == with_ai(old(characters)@, monster_id as int, Some(ai_next(a))) && *final(player)
                == *old(player) && exists|m: String|
                final(game).messages@ == old(game).messages@.push(
                    (m, Color { r: 255, g: 0, b: 0 }),
                ) && #[trigger] m@ == "The "@
                    + old(characters)@[monster_id as int].object.name@
                    + " is no longer confused!"@,
            // a feared monster freezes: only its countdown moves
            old(characters)@[monster_id as int].object.ai matches Some(a) ==> a matches Ai::Fear {
                previous_ai: _,
                num_turns,
            } ==> num_turns >= 0 ==> final(characters)@ == with_ai(
                old(characters)@,
                monster_id as int,
                Some(ai_next(a)),
            ) && *final(player) == *old(player) && final(game).messages@ == old(game).messages@,
            // an exhausted fear restores the wrapped state and logs the
            // recovery notice
            old(characters)@[monster_id as int].object.ai matches Some(a) ==> a matches Ai::Fear {
                previous_ai: _,
                num_turns,
            } ==> num_turns < 0 ==> final(characters)@ == with_ai(
                old(characters)@,
                monster_id as int,
                Some(ai_next(a)),
            ) && *final(player) == *old(player) && exists|m: String|
                final(game).messages@ == old(game).messages@.push(
                    (m, Color { r: 255, g: 0, b: 0 }),
                ) && #[trigger] m@ == "The "@
                    + old(characters)@[monster_id as int].object.name@
                    + " is no longer scared!"@,
    {
        let ghost chars0 = characters@;
        let ghost id = monster_id as int;
        let ai_opt = {
            let c = &mut characters[monster_id];
            c.object.ai.take()
        };
        proof {
            assert(characters@ =~= with_ai(chars0, id, None));
        }
        if let Some(ai) = ai_opt {
            let ghost a0 = ai;
            let ghost chars1 = characters@;
            let new_ai = match ai {
                Ai::Basic => Object::ai_basic(monster_id, in_fov, game, characters, player),
                Ai::Confused { previous_ai, num_turns } => Object::ai_confused(
                    monster_id,
                    game,
                    characters,
                    previous_ai,
                    num_turns,
                ),
                Ai::Fear { previous_ai, num_turns } => Object::ai_fear(
                    monster_id,
                    game,
                    characters,
                    previous_ai,
                    num_turns,
                ),
            };
            let ghost chars_mid = characters@;
            let c = &mut characters[monster_id];
            c.object.ai = Some(new_ai);
            proof {
                let m = old(game).map@;
                assert(characters@ =~= with_ai(chars_mid, id, Some(new_ai)));
                match a0 {
                    Ai::Basic => {
                        if !in_fov || (dist_sq(chars0[id].object, *old(player)) < 4
                            && !combat_ready(*old(player))) {
                            assert(chars_mid == chars1);
                            assert(characters@ =~= chars0);
                        } else if dist_sq(chars0[id].object, *old(player)) >= 4 {
                            let sx = step_toward(
                                old(player).x - chars0[id].object.x,
                                old(player).y - chars0[id].object.y,
                            );
                            let sy = step_toward(
                                old(player).y - chars0[id].object.y,
                                old(player).x - chars0[id].object.x,
                            );
                            assert(chars_mid == move_by_result(m, chars1, id, sx, sy));
                            crate::objects::lemma_move_ai_commutes(
                                m,
                                chars0,
                                id,
                                sx,
                                sy,
                                Some(Ai::Basic),
                            );
                            let mv = move_by_result(m, chars0, id, sx, sy);
                            assert(mv[id].object.ai == Some(Ai::Basic));
                            assert(with_ai(mv, id, Some(Ai::Basic)) =~= mv);
                        } else {
                            assert(chars1[id].object == crate::objects::sans_ai(
                                chars0[id].object,
                            ));
                            assert(crate::objects::sans_ai(characters@[id].object)
                                == chars_mid[id].object);
                        }
                    },
                    Ai::Confused { previous_ai: _, num_turns } => {
                        if num_turns >= 0 {
                            let (dx, dy) = choose|dx: int, dy: int|
                                -1 <= dx <= 1 && -1 <= dy <= 1 && chars_mid
                                    == #[trigger] move_by_result(m, chars1, id, dx, dy);
                            crate::objects::lemma_move_ai_commutes(
                                m,
                                chars0,
                                id,
                                dx,
                                dy,
                                Some(ai_next(a0)),
                            );
                            assert(final(characters)@ == with_ai(
                                move_by_result(m, chars0, id, dx, dy),
                                id,
                                Some(ai_next(a0)),
                            ));
                        } else {
                            assert(chars_mid == chars1);
                            assert(characters@ =~= with_ai(chars0, id, Some(ai_next(a0))));
                        }
                    },
                    Ai::Fear { previous_ai: _, num_turns } => {
                        assert(chars_mid == chars1);
                        assert(characters@ =~= with_ai(chars0, id, Some(ai_next(a0))));
                    },
                }
            }
        }
    }
}

} // verus!
