use snakepipe::dungeon::{make_map, MAX_ROOMS};
use snakepipe::game::Game;
use snakepipe::items::{
    cast_confuse, cast_fireball, cast_heal, cast_lightning, closest_monster, monster_at, player_ranged_attack,
    target_acceptable, use_item,
};
use snakepipe::inventory::UseResult;
use snakepipe::limits::tick_ready;
use snakepipe::map::{create_h_tunnel, create_room, create_v_tunnel, Fov, Rect, Tile, MAP_HEIGHT, MAP_WIDTH};
use snakepipe::object::{Color, Equipment, Fighter, Item, Message, Messages, Object, Slot, AI};
use snakepipe::spawn::{from_dungeon_level, new_item, new_monster, place_objects, MonsterKind, Transition};
use snakepipe::turn::{
    level_up, level_up_ready, monster_phase, new_game, new_player, next_level, play_turn, PlayerAction,
    PlayerIntent, StatChoice,
};
use std::collections::VecDeque;

fn open_game() -> Game {
    Game {
        map: vec![vec![Tile::empty(); MAP_HEIGHT as usize]; MAP_WIDTH as usize],
        messages: Messages::new(),
        inventory: vec![],
        dungeon_level: 1,
    }
}

fn walls() -> Vec<Vec<Tile>> {
    vec![vec![Tile::wall(); MAP_HEIGHT as usize]; MAP_WIDTH as usize]
}

fn all_visible() -> Fov {
    Fov { visible: vec![vec![true; MAP_HEIGHT as usize]; MAP_WIDTH as usize] }
}

fn at(mut o: Object, x: i32, y: i32) -> Object {
    o.x = x;
    o.y = y;
    o
}

fn reachable(map: &Vec<Vec<Tile>>, from: (i32, i32)) -> Vec<Vec<bool>> {
    let mut seen = vec![vec![false; MAP_HEIGHT as usize]; MAP_WIDTH as usize];
    let mut queue = VecDeque::new();
    seen[from.0 as usize][from.1 as usize] = true;
    queue.push_back(from);
    while let Some((x, y)) = queue.pop_front() {
        for (dx, dy) in [(1, 0), (-1, 0), (0, 1), (0, -1)] {
            let (nx, ny) = (x + dx, y + dy);
            if nx >= 0 && ny >= 0 && nx < MAP_WIDTH && ny < MAP_HEIGHT {
                let (ux, uy) = (nx as usize, ny as usize);
                if !map[ux][uy].blocked && !seen[ux][uy] {
                    seen[ux][uy] = true;
                    queue.push_back((nx, ny));
                }
            }
        }
    }
    seen
}

#[test]
fn rect_geometry() {
    let r = Rect::new(2, 3, 6, 8);
    assert_eq!((r.x1, r.y1, r.x2, r.y2), (2, 3, 8, 11));
    assert_eq!(r.center(), (5, 7));
    assert!(r.intersects_with(&Rect::new(8, 11, 2, 2)));
    assert!(!r.intersects_with(&Rect::new(9, 3, 2, 2)));
}

#[test]
fn carving_rooms_and_tunnels() {
    let mut map = walls();
    create_room(Rect::new(1, 1, 4, 3), &mut map);
    assert!(!map[2][2].blocked && !map[4][3].blocked);
    assert!(map[1][1].blocked && map[5][2].blocked && map[2][4].blocked);
    create_h_tunnel(10, 6, 7, &mut map);
    assert!((6..=10).all(|x| !map[x][7].blocked));
    assert!(map[5][7].blocked && map[11][7].blocked);
    create_v_tunnel(9, 12, 20, &mut map);
    assert!((9..=12).all(|y| !map[20][y].blocked));
    assert!(map[20][8].blocked && map[20][13].blocked);
    assert_eq!(Tile::empty(), Tile { blocked: false, block_sight: false, explored: false });
}

#[test]
fn level_tables() {
    let table = [Transition { level: 1, value: 2 }, Transition { level: 4, value: 3 }, Transition { level: 6, value: 5 }];
    assert_eq!(from_dungeon_level(&table, 0), 0);
    assert_eq!(from_dungeon_level(&table, 1), 2);
    assert_eq!(from_dungeon_level(&table, 5), 3);
    assert_eq!(from_dungeon_level(&table, 9), 5);
    assert_eq!(from_dungeon_level(&[], 9), 0);
}

#[test]
fn items_scale_with_level() {
    let sword = new_item(Item::Sword, 1, 2, 4);
    assert_eq!(sword.name, "broadsword");
    assert_eq!(sword.equipment.unwrap().power_bonus, 4);
    let bow = new_item(Item::Bow, 1, 2, 12);
    assert_eq!(bow.name, "magic bow");
    assert_eq!(bow.equipment.unwrap().range, 8);
    assert_eq!(bow.equipment.unwrap().charges, 12);
    let potion = new_item(Item::Heal, 1, 2, 1);
    assert!(potion.equipment.is_none() && potion.always_visible);
    let troll = new_monster(MonsterKind::Troll, 0, 0);
    assert_eq!(troll.fighter.unwrap().xp, 100);
}

#[test]
fn population_stays_inside_room() {
    let mut map = walls();
    let room = Rect::new(10, 10, 8, 8);
    create_room(room, &mut map);
    for level in [1u32, 3, 7] {
        let mut objects = vec![at(new_player(), 1, 1)];
        place_objects(room, &map, &mut objects, level);
        assert!(objects.len() <= 1 + 5 + 2);
        for o in &objects[1..] {
            assert!(o.x > 10 && o.x < 18 && o.y > 10 && o.y < 18);
            if level == 1 {
                assert!(o.name == "Broo" || o.item.is_some());
                assert!(o.item != Some(Item::Fireball) && o.item != Some(Item::Lightning));
            }
        }
    }
}

#[test]
fn generated_level_is_connected_from_spawn() {
    for level in 1..4u32 {
        let mut objects = vec![new_player()];
        let map = make_map(&mut objects, level);
        assert_eq!(map.len(), MAP_WIDTH as usize);
        let spawn = objects[0].pos();
        assert!(!map[spawn.0 as usize][spawn.1 as usize].blocked);
        let stairs = objects.last().unwrap();
        assert_eq!(stairs.name, "stairs");
        let seen = reachable(&map, spawn);
        assert!(seen[stairs.x as usize][stairs.y as usize]);
        for o in &objects[1..] {
            assert!(seen[o.x as usize][o.y as usize] || (o.x > 20 && o.x < 60 && o.y > 15 && o.y < 30));
        }
    }
    assert_eq!(MAX_ROOMS, 30);
}

#[test]
fn heal_potion_only_when_wounded() {
    let mut game = open_game();
    let mut objects = vec![new_player()];
    assert_eq!(cast_heal(&mut game, &mut objects), UseResult::Cancelled);
    assert!(matches!(game.messages.iter()[0], Message::FullHealth));
    objects[0].fighter = Some(Fighter { hp: 30, ..objects[0].fighter.unwrap() });
    assert_eq!(cast_heal(&mut game, &mut objects), UseResult::UsedUp);
    assert_eq!(objects[0].fighter.unwrap().hp, 70);
}

#[test]
fn lightning_strikes_closest_visible() {
    let mut game = open_game();
    let fov = all_visible();
    let mut objects = vec![
        at(new_player(), 10, 10),
        new_monster(MonsterKind::Broo, 14, 10),
        new_monster(MonsterKind::Troll, 12, 11),
        new_monster(MonsterKind::Broo, 30, 30),
    ];
    assert_eq!(closest_monster(&fov, &objects, 5), Some(2));
    assert_eq!(cast_lightning(&fov, &mut game, &mut objects), UseResult::UsedUp);
    assert!(objects[2].fighter.is_none());
    assert_eq!(objects[2].name, "remains of Troll");
    assert_eq!(objects[0].fighter.unwrap().xp, 0);
    assert_eq!(closest_monster(&fov, &objects, 5), Some(1));
    let mut far = vec![at(new_player(), 10, 10), new_monster(MonsterKind::Broo, 16, 10)];
    assert_eq!(closest_monster(&fov, &far, 5), None);
    assert_eq!(cast_lightning(&fov, &mut game, &mut far), UseResult::Cancelled);
}

#[test]
fn confusion_wraps_current_ai() {
    let mut game = open_game();
    let mut objects = vec![at(new_player(), 10, 10), new_monster(MonsterKind::BrooShaman, 12, 10)];
    assert_eq!(monster_at(12, 10, &objects), Some(1));
    assert_eq!(monster_at(10, 10, &objects), None);
    assert_eq!(cast_confuse(Some(1), &mut game, &mut objects), UseResult::UsedUp);
    match &objects[1].ai {
        Some(AI::Confused { previous_ai, num_turns }) => {
            assert_eq!(*num_turns, 10);
            assert!(matches!(**previous_ai, AI::Ranged { range: 4 }));
        }
        other => panic!("unexpected ai {:?}", other),
    }
    assert_eq!(cast_confuse(None, &mut game, &mut objects), UseResult::Cancelled);
}

#[test]
fn fireball_burns_everyone_in_radius() {
    let mut game = open_game();
    let mut objects = vec![
        at(new_player(), 10, 10),
        new_monster(MonsterKind::Broo, 12, 12),
        new_monster(MonsterKind::Troll, 13, 10),
        new_monster(MonsterKind::Broo, 20, 20),
    ];
    assert_eq!(cast_fireball(Some((12, 10)), &mut game, &mut objects), UseResult::UsedUp);
    assert_eq!(objects[0].fighter.unwrap().hp, 75);
    assert_eq!(objects[0].fighter.unwrap().xp, 35);
    assert!(objects[1].fighter.is_none());
    assert_eq!(objects[2].fighter.unwrap().hp, 5);
    assert_eq!(objects[3].fighter.unwrap().hp, 20);
    assert!(matches!(game.messages.iter()[0], Message::FireballExplodes { radius: 3 }));
    assert_eq!(cast_fireball(None, &mut game, &mut objects), UseResult::Cancelled);
}

#[test]
fn bow_spends_charges() {
    let mut game = open_game();
    let mut bow = new_item(Item::Bow, 0, 0, 1);
    bow.equipment = Some(Equipment { charges: 2, ..bow.equipment.unwrap() });
    game.inventory.push(bow);
    let fov = all_visible();
    let mut objects = vec![at(new_player(), 10, 10), new_monster(MonsterKind::Broo, 12, 10)];
    assert_eq!(use_item(0, &fov, Some((12, 10)), &mut game, &mut objects), UseResult::UseCharge);
    assert_eq!(objects[1].fighter.unwrap().hp, 15);
    assert_eq!(game.inventory[0].equipment.unwrap().charges, 1);
    assert_eq!(use_item(0, &fov, Some((12, 10)), &mut game, &mut objects), UseResult::UsedUp);
    assert!(game.inventory.is_empty());
    assert!(matches!(game.messages.iter().last(), Some(Message::OutOfAmmo)));
    assert_eq!(player_ranged_attack(0, None, &mut { let mut g = open_game(); g.inventory.push(new_item(Item::Bow, 0, 0, 1)); g }, &mut objects), UseResult::Cancelled);
}

#[test]
fn using_unusable_or_cancelled() {
    let mut game = open_game();
    game.inventory.push(Object::new(0, 0, 'x', Color::White, "rock".to_string(), false));
    let mut objects = vec![new_player()];
    let fov = all_visible();
    assert_eq!(use_item(0, &fov, None, &mut game, &mut objects), UseResult::Cancelled);
    assert!(matches!(game.messages.iter()[0], Message::CannotUse { .. }));
    game.inventory.push(new_item(Item::Fireball, 0, 0, 1));
    assert_eq!(use_item(1, &fov, None, &mut game, &mut objects), UseResult::Cancelled);
    assert!(matches!(game.messages.iter().last(), Some(Message::Cancelled)));
    assert_eq!(game.inventory.len(), 2);
    let mut shield = new_item(Item::Shield, 0, 0, 1);
    shield.equipment = Some(Equipment { slot: Slot::LeftHand, ..shield.equipment.unwrap() });
    game.inventory.push(shield);
    assert_eq!(use_item(2, &fov, None, &mut game, &mut objects), UseResult::UsedAndKept);
    assert!(game.inventory[2].equipment.unwrap().equipped);
}

#[test]
fn targeting_rules() {
    let fov = all_visible();
    let player = at(new_player(), 10, 10);
    assert!(target_acceptable(13, 14, &fov, &player, Some(5)));
    assert!(!target_acceptable(14, 14, &fov, &player, Some(5)));
    assert!(target_acceptable(14, 14, &fov, &player, None));
    assert!(!target_acceptable(-1, 14, &fov, &player, None));
}

#[test]
fn level_up_spends_threshold() {
    let mut game = open_game();
    let mut objects = vec![new_player()];
    assert!(!level_up_ready(&objects));
    assert!(!level_up(StatChoice::Strength, &mut game, &mut objects));
    objects[0].fighter = Some(Fighter { xp: 360, ..objects[0].fighter.unwrap() });
    assert!(level_up_ready(&objects));
    assert!(level_up(StatChoice::Constitution, &mut game, &mut objects));
    let f = objects[0].fighter.unwrap();
    assert_eq!((objects[0].level, f.xp, f.base_max_hp, f.hp), (2, 10, 120, 120));
    assert!(matches!(game.messages.iter()[0], Message::LevelUp { level: 2 }));
}

#[test]
fn new_game_and_descent() {
    let (mut game, mut objects) = new_game();
    assert_eq!(game.dungeon_level, 1);
    assert_eq!(game.inventory.len(), 1);
    assert_eq!(game.inventory[0].name, "dagger");
    assert_eq!(objects[0].name, "player");
    assert_eq!(objects[0].power(&game), 4);
    assert!(tick_ready(&game, &objects));
    objects[0].fighter = Some(Fighter { hp: 40, ..objects[0].fighter.unwrap() });
    next_level(&mut game, &mut objects);
    assert_eq!(game.dungeon_level, 2);
    assert_eq!(objects[0].fighter.unwrap().hp, 90);
    assert_eq!(objects.last().unwrap().name, "stairs");
    assert!(matches!(game.messages.iter()[1], Message::Rest));
}

#[test]
fn tick_runs_monsters_after_player_turn() {
    let mut game = open_game();
    let fov = all_visible();
    let mut objects = vec![at(new_player(), 10, 10), new_monster(MonsterKind::Broo, 11, 10), new_monster(MonsterKind::Broo, 30, 10)];
    assert!(tick_ready(&game, &objects));
    assert_eq!(play_turn(PlayerIntent::Wait, &fov, &mut game, &mut objects), PlayerAction::TookTurn);
    assert_eq!(objects[0].fighter.unwrap().hp, 97);
    assert_eq!(objects[2].pos(), (29, 10));
    assert_eq!(play_turn(PlayerIntent::Other, &fov, &mut game, &mut objects), PlayerAction::DidntTakeTurn);
    assert_eq!(objects[0].fighter.unwrap().hp, 97);
    assert_eq!(play_turn(PlayerIntent::Exit, &fov, &mut game, &mut objects), PlayerAction::Exit);
    assert_eq!(play_turn(PlayerIntent::Move { dx: 0, dy: 0 }, &fov, &mut game, &mut objects), PlayerAction::DidntTakeTurn);
    monster_phase(&fov, &mut game, &mut objects);
    assert_eq!(objects[0].fighter.unwrap().hp, 94);
}

#[test]
fn dead_player_takes_no_turn() {
    let mut game = open_game();
    let fov = all_visible();
    let mut objects = vec![at(new_player(), 10, 10), new_monster(MonsterKind::Broo, 11, 10)];
    objects[0].alive = false;
    assert_eq!(play_turn(PlayerIntent::Wait, &fov, &mut game, &mut objects), PlayerAction::DidntTakeTurn);
    assert_eq!(objects[0].fighter.unwrap().hp, 100);
    assert!(game.messages.iter().is_empty());
}

#[test]
fn pickup_and_descend_intents() {
    let mut game = open_game();
    let fov = all_visible();
    let mut objects = vec![at(new_player(), 10, 10), new_item(Item::Heal, 10, 10, 1)];
    assert_eq!(play_turn(PlayerIntent::PickUp, &fov, &mut game, &mut objects), PlayerAction::TookTurn);
    assert_eq!(game.inventory.len(), 1);
    assert_eq!(objects.len(), 1);
    assert_eq!(play_turn(PlayerIntent::DropItem { inventory_id: Some(0) }, &fov, &mut game, &mut objects), PlayerAction::DidntTakeTurn);
    assert_eq!(objects.len(), 2);
    objects.push(at(Object::new(0, 0, '<', Color::White, "stairs".to_string(), false), 10, 10));
    assert_eq!(play_turn(PlayerIntent::Descend, &fov, &mut game, &mut objects), PlayerAction::DidntTakeTurn);
    assert_eq!(game.dungeon_level, 2);
    assert_eq!(play_turn(PlayerIntent::UseItem { inventory_id: None, target: None }, &fov, &mut game, &mut objects), PlayerAction::TookTurn);
}
