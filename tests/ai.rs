use snakepipe::ai::{ai_confused, ai_take_turn, is_blocked, move_by, move_towards, mut_two, player_move_or_attack};
use snakepipe::game::Game;
use snakepipe::map::{Fov, Tile, MAP_HEIGHT, MAP_WIDTH};
use snakepipe::object::{Message, Messages, Object, AI};
use snakepipe::spawn::{new_monster, MonsterKind};
use snakepipe::turn::new_player;

fn open_game() -> Game {
    Game {
        map: vec![vec![Tile::empty(); MAP_HEIGHT as usize]; MAP_WIDTH as usize],
        messages: Messages::new(),
        inventory: vec![],
        dungeon_level: 1,
    }
}

fn all_visible() -> Fov {
    Fov { visible: vec![vec![true; MAP_HEIGHT as usize]; MAP_WIDTH as usize] }
}

fn at(mut o: Object, x: i32, y: i32) -> Object {
    o.x = x;
    o.y = y;
    o
}

#[test]
fn mut_two_gives_both_in_order() {
    let mut v = vec![1, 2, 3, 4];
    {
        let (a, b) = mut_two(3, 1, &mut v);
        assert_eq!((*a, *b), (4, 2));
        *a = 40;
        *b = 20;
    }
    assert_eq!(v, vec![1, 20, 3, 40]);
}

#[test]
fn blocked_by_wall_entity_or_edge() {
    let mut game = open_game();
    game.map[5][5] = Tile::wall();
    let objects = vec![at(new_player(), 3, 3)];
    assert!(is_blocked(5, 5, &game.map, &objects));
    assert!(is_blocked(3, 3, &game.map, &objects));
    assert!(is_blocked(-1, 0, &game.map, &objects));
    assert!(is_blocked(MAP_WIDTH, 0, &game.map, &objects));
    assert!(!is_blocked(4, 4, &game.map, &objects));
}

#[test]
fn steps_toward_target_like_rounded_unit_vector() {
    let game = open_game();
    let mut objects = vec![at(new_player(), 20, 15), new_monster(MonsterKind::Broo, 10, 10)];
    move_towards(1, 20, 15, &game.map, &mut objects);
    assert_eq!(objects[1].pos(), (11, 10));
    move_towards(1, 15, 20, &game.map, &mut objects);
    assert_eq!(objects[1].pos(), (11, 11));
    move_towards(1, 11, 11, &game.map, &mut objects);
    assert_eq!(objects[1].pos(), (11, 11));
    move_towards(1, 5, 5, &game.map, &mut objects);
    assert_eq!(objects[1].pos(), (10, 10));
    move_by(1, -1, 0, &game.map, &mut objects);
    assert_eq!(objects[1].pos(), (9, 10));
}

#[test]
fn player_moves_or_attacks() {
    let mut game = open_game();
    let mut objects = vec![at(new_player(), 5, 5), new_monster(MonsterKind::Broo, 6, 5)];
    assert!(!player_move_or_attack(0, 1, &mut game, &mut objects));
    assert_eq!(objects[0].pos(), (5, 6));
    assert!(player_move_or_attack(1, -1, &mut game, &mut objects));
    assert_eq!(objects[0].pos(), (5, 6));
    assert_eq!(objects[1].fighter.unwrap().hp, 18);
    assert!(matches!(game.messages.iter()[0], Message::Attack { damage: 2, .. }));
}

#[test]
fn basic_monster_closes_in_then_attacks() {
    let mut game = open_game();
    let fov = all_visible();
    let mut objects = vec![at(new_player(), 10, 10), new_monster(MonsterKind::Broo, 13, 10)];
    ai_take_turn(1, &fov, &mut game, &mut objects);
    assert_eq!(objects[1].pos(), (12, 10));
    ai_take_turn(1, &fov, &mut game, &mut objects);
    assert_eq!(objects[1].pos(), (11, 10));
    ai_take_turn(1, &fov, &mut game, &mut objects);
    assert_eq!(objects[1].pos(), (11, 10));
    assert_eq!(objects[0].fighter.unwrap().hp, 97);
    assert!(matches!(objects[1].ai, Some(AI::Basic)));
}

#[test]
fn unseen_monster_waits() {
    let mut game = open_game();
    let fov = Fov { visible: vec![vec![false; MAP_HEIGHT as usize]; MAP_WIDTH as usize] };
    let mut objects = vec![at(new_player(), 10, 10), new_monster(MonsterKind::Broo, 11, 10)];
    ai_take_turn(1, &fov, &mut game, &mut objects);
    assert_eq!(objects[0].fighter.unwrap().hp, 100);
    assert!(game.messages.iter().is_empty());
    assert!(!fov.is_in_fov(3, 3));
    assert!(!fov.is_in_fov(-3, 3));
}

#[test]
fn confusion_stumbles_then_restores() {
    let mut game = open_game();
    let mut objects = vec![at(new_player(), 2, 2), new_monster(MonsterKind::BrooShaman, 40, 20)];
    objects[1].ai = Some(AI::Confused { previous_ai: Box::new(AI::Ranged { range: 4 }), num_turns: 3 });
    let fov = all_visible();
    for left in (0..3).rev() {
        let before = objects[1].pos();
        ai_take_turn(1, &fov, &mut game, &mut objects);
        let after = objects[1].pos();
        assert!((after.0 - before.0).abs() <= 1 && (after.1 - before.1).abs() <= 1);
        match &objects[1].ai {
            Some(AI::Confused { num_turns, .. }) => assert_eq!(*num_turns, left),
            other => panic!("unexpected ai {:?}", other),
        }
    }
    let before = objects[1].pos();
    ai_take_turn(1, &fov, &mut game, &mut objects);
    assert_eq!(objects[1].pos(), before);
    assert!(matches!(objects[1].ai, Some(AI::Ranged { range: 4 })));
    assert!(matches!(game.messages.iter().last(), Some(Message::NoLongerConfused { .. })));
}

#[test]
fn confused_turn_returns_next_state() {
    let mut game = open_game();
    let mut objects = vec![at(new_player(), 2, 2), new_monster(MonsterKind::Broo, 40, 20)];
    let next = ai_confused(1, &mut game, &mut objects, Box::new(AI::Basic), 0);
    assert!(matches!(next, AI::Basic));
    assert_eq!(game.messages.iter().len(), 1);
}
