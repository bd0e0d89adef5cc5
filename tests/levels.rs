use snakepipe::ai::ai_take_turn;
use snakepipe::dungeon::{add_room, make_map};
use snakepipe::game::Game;
use snakepipe::inventory::{drop_item, UseResult};
use snakepipe::items::use_item;
use snakepipe::map::{mark_explored, Fov, Rect, Tile, MAP_HEIGHT, MAP_WIDTH};
use snakepipe::object::{Color, Equipment, Message, Messages, Object, Slot};
use snakepipe::spawn::{new_item, new_monster, place_at, MonsterKind};
use snakepipe::turn::{new_game, new_player, next_level};
use snakepipe::object::Item;

fn open_game() -> Game {
    Game {
        map: vec![vec![Tile::empty(); MAP_HEIGHT as usize]; MAP_WIDTH as usize],
        messages: Messages::new(),
        inventory: vec![],
        dungeon_level: 1,
    }
}

fn walls() -> Vec<Vec<Tile>> {
    vec![vec![Tile::wall(); MAP_HEIGHT as usize]; MAP_WIDTH as usize]
}

fn at(mut o: Object, x: i32, y: i32) -> Object {
    o.x = x;
    o.y = y;
    o
}

#[test]
fn living_fighter_at_zero_hp_dies_on_next_blow() {
    let mut game = open_game();
    let mut broo = new_monster(MonsterKind::Broo, 1, 1);
    broo.fighter = Some(snakepipe::object::Fighter { hp: 0, ..broo.fighter.unwrap() });
    assert!(broo.alive);
    assert_eq!(broo.take_damage(1, &mut game), Some(35));
    assert!(!broo.alive);
    assert!(broo.fighter.is_none());
}

#[test]
fn dead_entity_takes_no_turn() {
    let mut game = open_game();
    let fov = Fov { visible: vec![vec![true; MAP_HEIGHT as usize]; MAP_WIDTH as usize] };
    let mut objects = vec![at(new_player(), 10, 10), new_monster(MonsterKind::Broo, 11, 10)];
    objects[1].alive = false;
    ai_take_turn(1, &fov, &mut game, &mut objects);
    assert_eq!(objects[0].fighter.unwrap().hp, 100);
    assert!(game.messages.iter().is_empty());
}

#[test]
fn dropped_gear_is_not_worn() {
    let mut game = open_game();
    let mut odd = Object::new(0, 0, '?', Color::Sky, "odd".to_string(), false);
    odd.equipment = Some(Equipment {
        slot: Slot::Head,
        equipped: true,
        power_bonus: 0,
        defense_bonus: 1,
        max_hp_bonus: 0,
        range: 0,
        damage: 0,
        charges: 0,
    });
    game.inventory.push(odd);
    let mut objects = vec![at(new_player(), 4, 5)];
    drop_item(0, &mut game, &mut objects);
    assert!(!objects[1].equipment.unwrap().equipped);
    assert_eq!(objects[1].pos(), (4, 5));
}

#[test]
fn confusion_needs_a_target_in_range() {
    let mut game = open_game();
    game.inventory.push(new_item(Item::Confuse, 0, 0, 2));
    let fov = Fov { visible: vec![vec![true; MAP_HEIGHT as usize]; MAP_WIDTH as usize] };
    let mut objects = vec![at(new_player(), 10, 10), new_monster(MonsterKind::Broo, 20, 10)];
    assert_eq!(use_item(0, &fov, Some((20, 10)), &mut game, &mut objects), UseResult::Cancelled);
    assert!(matches!(objects[1].ai, Some(snakepipe::object::AI::Basic)));
    objects[1].x = 17;
    assert_eq!(use_item(0, &fov, Some((17, 10)), &mut game, &mut objects), UseResult::UsedUp);
    assert!(matches!(objects[1].ai, Some(snakepipe::object::AI::Confused { num_turns: 10, .. })));
    assert!(game.inventory.is_empty());
}

#[test]
fn slot_filled_only_when_free() {
    let mut map = walls();
    let room = Rect::new(10, 10, 8, 8);
    snakepipe::map::create_room(room, &mut map);
    let mut objects = vec![at(new_player(), 12, 12)];
    assert!(!place_at(room, &map, &mut objects, 1, 12, 12, 0, true));
    assert_eq!(objects.len(), 1);
    assert!(place_at(room, &map, &mut objects, 1, 13, 12, 0, true));
    assert_eq!(objects[1].name, "Broo");
    assert!(!place_at(room, &map, &mut objects, 1, 13, 12, 4, false));
    assert!(place_at(room, &map, &mut objects, 1, 14, 12, 4, false));
    assert_eq!(objects[2].name, "short sword");
    assert_eq!(objects.len(), 3);
}

#[test]
fn rooms_accepted_only_apart_and_joined() {
    let mut map = walls();
    let mut rooms = vec![];
    assert!(add_room(Rect::new(2, 2, 6, 6), true, &mut map, &mut rooms));
    assert!(!add_room(Rect::new(5, 5, 6, 6), true, &mut map, &mut rooms));
    assert_eq!(rooms.len(), 1);
    assert!(add_room(Rect::new(20, 20, 6, 8), true, &mut map, &mut rooms));
    // tunnel from (5, 5) along row 5 to x = 23, then down column 23 to y = 24
    assert!((5..=23).all(|x| !map[x][5].blocked));
    assert!((5..=24).all(|y| !map[23][y].blocked));
    assert!(map[22][6].blocked);
}

#[test]
fn explored_only_grows() {
    let mut map = walls();
    map[3][3].explored = true;
    let mut visible = vec![vec![false; MAP_HEIGHT as usize]; MAP_WIDTH as usize];
    visible[5][6] = true;
    mark_explored(&mut map, &Fov { visible });
    assert!(map[3][3].explored && map[5][6].explored && !map[5][5].explored);
    assert!(map[5][6].blocked);
}

#[test]
fn level_layout_holds() {
    for level in 1..5u32 {
        let mut objects = vec![new_player(), new_monster(MonsterKind::Troll, 1, 1)];
        let map = make_map(&mut objects, level);
        for x in 0..MAP_WIDTH as usize {
            for y in 0..MAP_HEIGHT as usize {
                let t = map[x][y];
                assert!(!t.explored && t.blocked == t.block_sight);
                if x == 0 || y == 0 || x == MAP_WIDTH as usize - 1 || y == MAP_HEIGHT as usize - 1 {
                    assert!(t.blocked);
                }
            }
        }
        assert!((21..=29).all(|x| (16..=29).all(|y| !map[x][y].blocked)));
        assert!((25..=55).all(|x| !map[x][23].blocked));
        assert_eq!(objects.iter().filter(|o| o.name == "stairs").count(), 1);
        assert_eq!(objects.last().unwrap().glyph, '<');
        assert_eq!(objects[0].name, "player");
        assert!(objects[1..].iter().all(|o| o.name != "Troll" || o.alive));
        let blockers: Vec<_> = objects.iter().filter(|o| o.blocks).map(|o| o.pos()).collect();
        for i in 0..blockers.len() {
            for j in i + 1..blockers.len() {
                assert_ne!(blockers[i], blockers[j]);
            }
        }
    }
}

#[test]
fn descending_discards_old_entities() {
    let (mut game, mut objects) = new_game();
    objects.push(at(Object::new(0, 0, 'x', Color::White, "relic".to_string(), false), 1, 1));
    next_level(&mut game, &mut objects);
    assert!(objects.iter().all(|o| o.name != "relic"));
    assert_eq!(objects[0].name, "player");
    assert_eq!(objects.last().unwrap().name, "stairs");
    assert!(matches!(game.messages.iter().last(), Some(Message::Descend)));
}
