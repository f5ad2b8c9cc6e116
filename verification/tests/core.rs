use dungeon_core::ai::Ai;
use dungeon_core::ai::attack_damage;
use dungeon_core::controls::{handle_intent, PlayerAction, PlayerIntent};
use dungeon_core::dungeon::{create_room, Rect};
use dungeon_core::environment::{new_grid, Game};
use dungeon_core::gui::{render_bar, Messages};
use dungeon_core::objects::{Character, DeathCallback, Fighter, Item, Object};
use dungeon_core::tiles::{Color, Palette, Terrain, Tile};

use std::collections::HashMap;

fn test_palette() -> Palette {
    Palette {
        base: Color::rgb(30, 30, 40),
        variant: Color::rgb(120, 110, 90),
    }
}

/// A 10x10 grid with one big carved room, as a small arena.
fn arena() -> Vec<Vec<Tile>> {
    let palette = test_palette();
    let mut map = new_grid(10, 10, &palette);
    let room = Rect::new(0, 0, 9, 9);
    create_room(&room, &mut map, &palette);
    map
}

fn monster_at(x: i32, y: i32) -> Character {
    let mut m = Object::fire_elemental(x, y);
    m.alive = true;
    Character {
        object: m,
        inventory: None,
    }
}

#[test]
fn tile_invariant_wall_and_floor() {
    let palette = test_palette();
    let wall = Tile::wall(&palette);
    assert!(wall.blocked);
    assert_eq!(wall.terrain, Terrain::Wall);
    let floor = Tile::floor(&palette, 7);
    assert!(!floor.blocked);
    assert_eq!(floor.terrain, Terrain::Floor);
}

#[test]
fn blocked_always_agrees_with_terrain_after_carving() {
    let map = arena();
    for col in &map {
        for t in col {
            assert_eq!(t.blocked, t.terrain == Terrain::Wall);
        }
    }
}

#[test]
fn move_by_into_wall_never_moves_for_any_call_count() {
    let map = arena();
    let mut roster = vec![monster_at(1, 1)];
    for _ in 0..5 {
        // (0, 1) is border wall: the move must be a silent no-op every time
        Object::move_by(0, -1, 0, &map, &mut roster);
        assert_eq!(roster[0].object.pos(), (1, 1));
    }
}

#[test]
fn move_by_into_open_floor_moves() {
    let map = arena();
    let mut roster = vec![monster_at(1, 1)];
    Object::move_by(0, 1, 0, &map, &mut roster);
    assert_eq!(roster[0].object.pos(), (2, 1));
}

#[test]
fn move_by_into_blocking_entity_is_a_no_op() {
    let map = arena();
    let mut roster = vec![monster_at(1, 1), monster_at(2, 1)];
    Object::move_by(0, 1, 0, &map, &mut roster);
    assert_eq!(roster[0].object.pos(), (1, 1));
}

#[test]
fn move_towards_takes_a_diagonal_unit_step() {
    let map = arena();
    let mut roster = vec![monster_at(2, 2)];
    Object::move_towards(0, 6, 6, &map, &mut roster);
    assert_eq!(roster[0].object.pos(), (3, 3));
}

#[test]
fn move_towards_same_cell_is_a_legal_no_op() {
    let map = arena();
    let mut roster = vec![monster_at(2, 2)];
    Object::move_towards(0, 2, 2, &map, &mut roster);
    assert_eq!(roster[0].object.pos(), (2, 2));
}

#[test]
fn damage_then_heal_restores_hit_points() {
    let mut player = Object::player();
    let mut messages = Messages::new();
    let before = player.fighter.unwrap().hp;
    let awarded = player.take_damage(5, &mut messages);
    assert!(awarded.is_none());
    assert_eq!(player.fighter.unwrap().hp, before - 5);
    player.heal(5);
    assert_eq!(player.fighter.unwrap().hp, before);
}

#[test]
fn heal_clamps_at_max_hp() {
    let mut player = Object::player();
    let mut messages = Messages::new();
    player.take_damage(3, &mut messages);
    player.heal(1000);
    let f = player.fighter.unwrap();
    assert_eq!(f.hp, f.max_hp);
}

#[test]
fn negative_damage_never_heals() {
    let mut player = Object::player();
    let mut messages = Messages::new();
    let before = player.fighter.unwrap().hp;
    player.take_damage(-7, &mut messages);
    assert_eq!(player.fighter.unwrap().hp, before);
}

#[test]
fn killing_blow_flips_alive_and_converts_corpse() {
    let mut m = Object::fire_elemental(4, 4);
    m.alive = true;
    let mut messages = Messages::new();
    let awarded = m.take_damage(10, &mut messages);
    assert_eq!(awarded, Some(35));
    assert!(!m.alive);
    assert!(!m.blocks);
    assert_eq!(m.glyph, '%');
    assert_eq!(m.name, "ashes");
    assert!(m.fighter.is_none());
    assert!(m.ai.is_none());
    assert_eq!(messages.len(), 1);
    assert_eq!(messages.iter()[0].0, "The Fire Elemental dies!");
}

#[test]
fn attack_damage_formula_exact_values() {
    // parity levels: lm is 1; 5 - 2 = 3
    assert_eq!(attack_damage(5, 1, 2, 1, 0, 0), 3);
    // rounding: 5.499 rounds down, 5.5 rounds away from zero
    assert_eq!(attack_damage(5, 1, 0, 1, 499, 0), 5);
    assert_eq!(attack_damage(5, 1, 0, 1, 500, 0), 6);
    // negative damage comes out negative, not clamped here
    assert_eq!(attack_damage(1, 1, 5, 1, 0, 0), -4);
    // six levels of advantage: lm = 2
    assert_eq!(attack_damage(5, 7, 2, 1, 0, 0), 8);
    // the level difference divides as a real number: four levels ahead is
    // lm = 4/3, so power 3 deals round(3 * 4/3) = 4, not 3
    assert_eq!(attack_damage(3, 5, 0, 1, 0, 0), 4);
    // one level ahead is lm = 1/3: power 3 deals round(1) = 1
    assert_eq!(attack_damage(3, 2, 0, 1, 0, 0), 1);
    // level disadvantage never reduces below the undamped value: lm = 1
    assert_eq!(attack_damage(5, 1, 2, 9, 0, 0), 3);
}

#[test]
fn single_attack_kills_weak_monster_and_credits_experience() {
    // a 10x10 arena, one monster with a single hit point
    let map = arena();
    let mut player = Object::player();
    player.set_pos(4, 4);
    let mut m = Object::fire_elemental(5, 4);
    m.alive = true;
    if let Some(f) = m.fighter.as_mut() {
        f.hp = 1;
        f.max_hp = 1;
    }
    let mut game = Game {
        map,
        messages: Messages::new(),
        player: Object::player(),
    };
    let mut roster = vec![Character {
        object: m,
        inventory: None,
    }];
    let mut pc = Character {
        object: player,
        inventory: None,
    };
    // player power 5 vs defense 0: damage is at least 3 whatever the jitters
    Object::player_move_or_attack(1, 0, &mut game, &mut roster, &mut pc);
    assert!(!roster[0].object.alive);
    assert!(!roster[0].object.blocks);
    assert_eq!(pc.object.fighter.unwrap().exp, 35);
    // the attack notice and the death notice are both logged
    assert_eq!(game.messages.len(), 2);
}

#[test]
fn confusion_expires_after_exactly_its_countdown() {
    let map = arena();
    let mut game = Game {
        map,
        messages: Messages::new(),
        player: Object::player(),
    };
    let mut player = Object::player();
    player.set_pos(8, 8);
    let mut c = monster_at(2, 2);
    c.object.ai = Some(Ai::Confused {
        previous_ai: Box::new(Ai::Basic),
        num_turns: 0,
    });
    let mut roster = vec![c];
    // first evaluation: still confused, countdown exhausted
    Object::ai_take_turn(0, false, &mut game, &mut roster, &mut player);
    assert_eq!(
        roster[0].object.ai,
        Some(Ai::Confused {
            previous_ai: Box::new(Ai::Basic),
            num_turns: -1,
        })
    );
    // second evaluation: the wrapped previous behavior comes back
    Object::ai_take_turn(0, false, &mut game, &mut roster, &mut player);
    assert_eq!(roster[0].object.ai, Some(Ai::Basic));
    assert_eq!(
        game.messages.iter().last().unwrap().0,
        "The Fire Elemental is no longer confused!"
    );
}

#[test]
fn fear_freezes_and_expires_like_confusion() {
    let map = arena();
    let mut game = Game {
        map,
        messages: Messages::new(),
        player: Object::player(),
    };
    let mut player = Object::player();
    player.set_pos(8, 8);
    let mut c = monster_at(2, 2);
    c.object.ai = Some(Ai::Fear {
        previous_ai: Box::new(Ai::Basic),
        num_turns: 1,
    });
    let mut roster = vec![c];
    for expected in [1, 0, -1] {
        assert_eq!(
            roster[0].object.ai,
            Some(Ai::Fear {
                previous_ai: Box::new(Ai::Basic),
                num_turns: expected,
            })
        );
        // feared monsters never move
        assert_eq!(roster[0].object.pos(), (2, 2));
        Object::ai_take_turn(0, false, &mut game, &mut roster, &mut player);
    }
    assert_eq!(roster[0].object.ai, Some(Ai::Basic));
    assert_eq!(
        game.messages.iter().last().unwrap().0,
        "The Fire Elemental is no longer scared!"
    );
}

#[test]
fn basic_ai_out_of_view_idles() {
    let map = arena();
    let mut game = Game {
        map,
        messages: Messages::new(),
        player: Object::player(),
    };
    let mut player = Object::player();
    player.set_pos(8, 8);
    let mut roster = vec![monster_at(2, 2)];
    Object::ai_take_turn(0, false, &mut game, &mut roster, &mut player);
    assert_eq!(roster[0].object.pos(), (2, 2));
    assert_eq!(roster[0].object.ai, Some(Ai::Basic));
}

#[test]
fn basic_ai_in_view_closes_distance() {
    let map = arena();
    let mut game = Game {
        map,
        messages: Messages::new(),
        player: Object::player(),
    };
    let mut player = Object::player();
    player.set_pos(6, 2);
    let mut roster = vec![monster_at(2, 2)];
    Object::ai_take_turn(0, true, &mut game, &mut roster, &mut player);
    assert_eq!(roster[0].object.pos(), (3, 2));
    assert_eq!(roster[0].object.ai, Some(Ai::Basic));
}

#[test]
fn messages_log_appends_in_order() {
    let mut messages = Messages::new();
    assert_eq!(messages.len(), 0);
    messages.add("first".to_owned(), Color::rgb(1, 2, 3));
    messages.add("second".to_owned(), Color::rgb(4, 5, 6));
    let logged = messages.iter();
    assert_eq!(logged.len(), 2);
    assert_eq!(logged[0].0, "first");
    assert_eq!(logged[1].0, "second");
    assert_eq!(logged[1].1, Color::rgb(4, 5, 6));
}

#[test]
fn render_bar_scales_and_clamps() {
    assert_eq!(render_bar(20, 5, 10), 10);
    assert_eq!(render_bar(20, 0, 10), 0);
    assert_eq!(render_bar(20, 10, 10), 20);
    assert_eq!(render_bar(7, 1, 3), 2);
}

#[test]
fn handle_intent_exit_and_dead_player() {
    let map = arena();
    let mut game = Game {
        map,
        messages: Messages::new(),
        player: Object::player(),
    };
    let mut roster: Vec<Character> = Vec::new();
    let mut items: HashMap<i32, Object> = HashMap::new();
    let mut counter: i32 = 1;
    let mut pc = Character {
        object: Object::player(),
        inventory: None,
    };
    pc.object.set_pos(4, 4);
    let action = handle_intent(
        PlayerIntent::Exit,
        &mut game,
        &mut roster,
        &mut items,
        &mut pc,
        &mut counter,
    );
    assert_eq!(action, PlayerAction::Exit);
    pc.object.alive = false;
    let action = handle_intent(
        PlayerIntent::Move { dx: 1, dy: 0 },
        &mut game,
        &mut roster,
        &mut items,
        &mut pc,
        &mut counter,
    );
    assert_eq!(action, PlayerAction::DidntTakeTurn);
    assert_eq!(pc.object.pos(), (4, 4));
}

#[test]
fn handle_intent_wait_takes_a_turn() {
    let map = arena();
    let mut game = Game {
        map,
        messages: Messages::new(),
        player: Object::player(),
    };
    let mut roster: Vec<Character> = Vec::new();
    let mut items: HashMap<i32, Object> = HashMap::new();
    let mut counter: i32 = 1;
    let mut pc = Character {
        object: Object::player(),
        inventory: None,
    };
    pc.object.set_pos(4, 4);
    let action = handle_intent(
        PlayerIntent::Wait,
        &mut game,
        &mut roster,
        &mut items,
        &mut pc,
        &mut counter,
    );
    assert_eq!(action, PlayerAction::TookTurn);
}

#[test]
fn pickup_without_item_reports_invalid_intent() {
    let map = arena();
    let mut game = Game {
        map,
        messages: Messages::new(),
        player: Object::player(),
    };
    let mut roster: Vec<Character> = Vec::new();
    let mut items: HashMap<i32, Object> = HashMap::new();
    let mut counter: i32 = 1;
    let mut pc = Character {
        object: Object::player(),
        inventory: None,
    };
    pc.object.set_pos(4, 4);
    let action = handle_intent(
        PlayerIntent::Pickup,
        &mut game,
        &mut roster,
        &mut items,
        &mut pc,
        &mut counter,
    );
    assert_eq!(action, PlayerAction::DidntTakeTurn);
    assert_eq!(game.messages.len(), 1);
    assert_eq!(game.messages.iter()[0].0, "There's no item to grab...");
}

#[test]
fn pickup_use_and_drop_round_trip() {
    let map = arena();
    let mut game = Game {
        map,
        messages: Messages::new(),
        player: Object::player(),
    };
    let mut roster: Vec<Character> = Vec::new();
    let mut items: HashMap<i32, Object> = HashMap::new();
    let mut counter: i32 = 2;
    items.insert(1, Object::health_pot(4, 4));
    let mut pc = Character {
        object: Object::player(),
        inventory: None,
    };
    pc.object.set_pos(4, 4);

    let action = handle_intent(
        PlayerIntent::Pickup,
        &mut game,
        &mut roster,
        &mut items,
        &mut pc,
        &mut counter,
    );
    assert_eq!(action, PlayerAction::TookTurn);
    assert!(items.is_empty());
    assert_eq!(pc.inventory.as_ref().unwrap().len(), 1);
    assert_eq!(game.messages.iter()[0].0, "You picked something up.");
    assert_eq!(game.messages.iter()[0].1, Color::rgb(0, 255, 0));

    // wound the player, then drink: the potion heals 4 and is consumed
    pc.object.take_damage(6, &mut game.messages);
    let hp_before = pc.object.fighter.unwrap().hp;
    let action = handle_intent(
        PlayerIntent::UseItem { index: 0 },
        &mut game,
        &mut roster,
        &mut items,
        &mut pc,
        &mut counter,
    );
    assert_eq!(action, PlayerAction::TookTurn);
    assert_eq!(pc.object.fighter.unwrap().hp, hp_before + 4);
    assert_eq!(pc.inventory.as_ref().unwrap().len(), 0);

    // an out-of-range drop is an invalid intent, not a crash
    let action = handle_intent(
        PlayerIntent::DropItem { index: 5 },
        &mut game,
        &mut roster,
        &mut items,
        &mut pc,
        &mut counter,
    );
    assert_eq!(action, PlayerAction::DidntTakeTurn);
    assert!(items.is_empty());
}

#[test]
fn drop_item_assigns_a_fresh_identifier() {
    let map = arena();
    let mut game = Game {
        map,
        messages: Messages::new(),
        player: Object::player(),
    };
    let mut items: HashMap<i32, Object> = HashMap::new();
    let mut counter: i32 = 7;
    let mut pc = Character {
        object: Object::player(),
        inventory: Some(vec![Object::health_pot(0, 0)]),
    };
    pc.object.set_pos(4, 4);
    Object::drop_item(0, &mut game, &mut items, &mut pc, &mut counter);
    assert_eq!(counter, 8);
    let dropped = items.get(&7).unwrap();
    assert_eq!((dropped.x, dropped.y), (4, 4));
    assert!(matches!(dropped.item, Some(Item::Heal { amount: 4 })));
}

#[test]
fn player_fighter_uses_player_death_callback() {
    let player = Object::player();
    let f = player.fighter.unwrap();
    assert_eq!(f.on_death, DeathCallback::Player);
    assert_eq!(
        f,
        Fighter {
            hp: 30,
            max_hp: 30,
            defense: 2,
            power: 5,
            exp: 0,
            on_death: DeathCallback::Player,
        }
    );
}

#[test]
fn hopeless_attack_has_no_effect_and_says_so() {
    // attacker power 1 vs defense 5: damage is negative whatever the jitters
    let mut weak = Object::fire_elemental(3, 3);
    weak.alive = true;
    if let Some(f) = weak.fighter.as_mut() {
        f.power = 1;
    }
    let mut tank = Object::player();
    if let Some(f) = tank.fighter.as_mut() {
        f.defense = 5;
    }
    let hp_before = tank.fighter.unwrap().hp;
    let mut messages = Messages::new();
    weak.resolve_attack(&mut tank, &mut messages);
    assert_eq!(tank.fighter.unwrap().hp, hp_before);
    assert!(tank.alive);
    assert_eq!(messages.len(), 1);
    assert!(messages.iter()[0].0.ends_with("but it has no effect!"));
}

#[test]
fn adjacent_monster_attacks_instead_of_moving() {
    let map = arena();
    let mut game = Game {
        map,
        messages: Messages::new(),
        player: Object::player(),
    };
    let mut player = Object::player();
    player.set_pos(3, 2);
    let hp_before = player.fighter.unwrap().hp;
    let mut roster = vec![monster_at(2, 2)];
    Object::ai_take_turn(0, true, &mut game, &mut roster, &mut player);
    // adjacent and visible: the monster stands still and swings
    assert_eq!(roster[0].object.pos(), (2, 2));
    assert!(game.messages.len() >= 1);
    assert!(player.fighter.unwrap().hp <= hp_before);
}
