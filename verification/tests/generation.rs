use dungeon_core::dungeon::{create_h_tunnel, create_room, create_v_tunnel, Rect};
use dungeon_core::environment::{
    build_dungeon, make_map, new_grid, place_items, GenConfig, GenError,
};
use dungeon_core::nature::nature_trait;
use dungeon_core::objects::{Character, Object};
use dungeon_core::tiles::{Color, Palette, Terrain, Tile};

use std::collections::HashMap;

fn test_palette() -> Palette {
    Palette {
        base: Color::rgb(30, 30, 40),
        variant: Color::rgb(120, 110, 90),
    }
}

#[test]
fn rect_center_and_overlap() {
    let r = Rect::new(2, 3, 6, 4);
    assert_eq!((r.x1, r.y1, r.x2, r.y2), (2, 3, 8, 7));
    assert_eq!(r.center(), (5, 5));
    let touching = Rect::new(8, 3, 4, 4);
    assert!(r.intersects_with(&touching));
    let apart = Rect::new(9, 3, 4, 4);
    assert!(!r.intersects_with(&apart));
}

#[test]
fn carving_turns_exactly_the_interior_to_floor() {
    let palette = test_palette();
    let mut map = new_grid(12, 12, &palette);
    let room = Rect::new(2, 2, 6, 5);
    create_room(&room, &mut map, &palette);
    for x in 0..12i32 {
        for y in 0..12i32 {
            let inside = room.x1 < x && x < room.x2 && room.y1 < y && y < room.y2;
            let t = &map[x as usize][y as usize];
            assert_eq!(t.terrain == Terrain::Floor, inside);
            assert_eq!(t.blocked, !inside);
        }
    }
}

#[test]
fn tunnels_carve_their_full_inclusive_span() {
    let palette = test_palette();
    let mut map = new_grid(12, 12, &palette);
    create_h_tunnel(8, 3, 5, &mut map, &palette);
    for x in 3..=8i32 {
        assert_eq!(map[x as usize][5].terrain, Terrain::Floor);
    }
    create_v_tunnel(2, 9, 6, &mut map, &palette);
    for y in 2..=9i32 {
        assert_eq!(map[6][y as usize].terrain, Terrain::Floor);
    }
}

#[test]
fn generation_on_a_grid_too_small_fails_deterministically() {
    // max_rooms 1 and a grid that cannot fit the minimum room size
    let config = GenConfig {
        width: 3,
        height: 3,
        room_min: 4,
        room_max: 6,
        max_rooms: 1,
    };
    let palette = test_palette();
    for world_path in [0u32, u32::MAX] {
        let mut player = Object::player();
        let mut roster: Vec<Character> = Vec::new();
        let mut items: HashMap<i32, Object> = HashMap::new();
        let result = build_dungeon(
            world_path,
            &config,
            &palette,
            &mut player,
            &mut roster,
            &mut items,
        );
        assert_eq!(result.unwrap_err(), GenError::NoRoomsPlaced);
        assert!(roster.is_empty());
        assert!(items.is_empty());
    }
}

#[test]
fn item_identifiers_are_distinct_and_strictly_increasing_across_rooms() {
    let mut items: HashMap<i32, Object> = HashMap::new();
    let mut counter: i32 = 1;
    for origin in [1, 11, 21] {
        let room = Rect::new(origin, 1, 8, 8);
        place_items(room, &mut items, &mut counter);
    }
    // exactly the identifiers 1..counter were assigned, each exactly once
    assert_eq!(items.len(), (counter - 1) as usize);
    for k in 1..counter {
        assert!(items.contains_key(&k));
        assert!(items.get(&k).unwrap().item.is_some());
    }
    assert!(!items.contains_key(&counter));
}

#[test]
fn every_tile_of_a_generated_map_keeps_the_blocked_invariant() {
    let mut player = Object::player();
    let mut roster: Vec<Character> = Vec::new();
    let mut items: HashMap<i32, Object> = HashMap::new();
    if let Ok((map, _rooms)) = make_map(&mut player, &mut roster, &mut items) {
        for col in &map {
            for t in col {
                assert_eq!(t.blocked, t.terrain == Terrain::Wall);
            }
        }
        // the player starts on open floor
        let (px, py) = player.pos();
        assert_eq!(map[px as usize][py as usize].terrain, Terrain::Floor);
    }
}

#[test]
fn generation_leaves_no_unreachable_floor_in_either_style() {
    // a successful generation is fully connected whatever the world path:
    // world path zero is the ruinous style, the maximum the constructed one
    for world_path in [0u32, u32::MAX] {
        generation_is_connected(world_path);
    }
}

fn generation_is_connected(world_path: u32) {
    let config = GenConfig {
        width: 60,
        height: 40,
        room_min: 4,
        room_max: 10,
        max_rooms: 12,
    };
    let palette = test_palette();
    let mut player = Object::player();
    let mut roster: Vec<Character> = Vec::new();
    let mut items: HashMap<i32, Object> = HashMap::new();
    let result = build_dungeon(
        world_path,
        &config,
        &palette,
        &mut player,
        &mut roster,
        &mut items,
    );
    let (map, _rooms) = result.expect("a fitting attempt always succeeds on this grid");
    let (px, py) = player.pos();

    // flood fill from the start position over 4-adjacent floor
    let w = map.len();
    let h = map[0].len();
    let mut seen = vec![vec![false; h]; w];
    let mut stack = vec![(px as usize, py as usize)];
    seen[px as usize][py as usize] = true;
    while let Some((x, y)) = stack.pop() {
        let mut push = |nx: usize, ny: usize, seen: &mut Vec<Vec<bool>>, stack: &mut Vec<(usize, usize)>| {
            if nx < w && ny < h && !seen[nx][ny] && map[nx][ny].terrain == Terrain::Floor {
                seen[nx][ny] = true;
                stack.push((nx, ny));
            }
        };
        push(x + 1, y, &mut seen, &mut stack);
        push(x, y + 1, &mut seen, &mut stack);
        if x > 0 {
            push(x - 1, y, &mut seen, &mut stack);
        }
        if y > 0 {
            push(x, y - 1, &mut seen, &mut stack);
        }
    }
    for x in 0..w {
        for y in 0..h {
            if map[x][y].terrain == Terrain::Floor {
                assert!(seen[x][y], "orphaned floor at ({}, {})", x, y);
            }
        }
    }

    // monsters spawn alive on floor, and floor stays off the border
    for c in &roster {
        let (mx, my) = c.object.pos();
        assert!(c.object.alive);
        assert_eq!(map[mx as usize][my as usize].terrain, Terrain::Floor);
        assert!(0 < mx && (mx as usize) < w - 1 && 0 < my && (my as usize) < h - 1);
    }
}

#[test]
fn nature_trait_tiers() {
    let weak = nature_trait(1);
    assert_eq!(weak.name, "Bush ");
    assert_eq!((weak.exp, weak.hp, weak.defense, weak.power), (15, 1, 1, 1));
    let mid = nature_trait(2);
    assert_eq!(mid.name, "Tree ");
    assert_eq!((mid.exp, mid.hp, mid.defense, mid.power), (50, 3, 2, 2));
    let strong = nature_trait(9);
    assert_eq!(strong.name, "Forest ");
    assert_eq!(
        (strong.exp, strong.hp, strong.defense, strong.power),
        (150, 7, 5, 5)
    );
    assert_eq!(weak.corpse_type, "leaves");
    assert_eq!(strong.color, Color::rgb(0, 255, 0));
}
