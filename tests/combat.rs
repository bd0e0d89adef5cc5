use snakepipe::combat::Bonus;
use snakepipe::game::Game;
use snakepipe::map::{Tile, MAP_HEIGHT, MAP_WIDTH};
use snakepipe::object::{Color, DeathCallback, Equipment, Fighter, Item, Message, Messages, Object, Slot, AI};
use snakepipe::spawn::{new_monster, MonsterKind};
use snakepipe::turn::new_player;

fn open_game() -> Game {
    Game {
        map: vec![vec![Tile::empty(); MAP_HEIGHT as usize]; MAP_WIDTH as usize],
        messages: Messages::new(),
        inventory: vec![],
        dungeon_level: 1,
    }
}

fn sword(equipped: bool, power: i32) -> Object {
    let mut o = Object::new(0, 0, '/', Color::Sky, "sword".to_string(), false);
    o.item = Some(Item::Sword);
    o.equipment = Some(Equipment {
        slot: Slot::RightHand,
        equipped,
        power_bonus: power,
        defense_bonus: 0,
        max_hp_bonus: 0,
        range: 0,
        damage: 0,
        charges: 0,
    });
    o
}

#[test]
fn broo_hits_fresh_player_for_three() {
    let mut game = open_game();
    let mut player = new_player();
    player.x = 10;
    player.y = 10;
    let mut broo = new_monster(MonsterKind::Broo, 11, 10);
    assert_eq!(player.defense(&game), 1);
    assert_eq!(broo.power(&game), 4);
    broo.attack(&mut player, &mut game);
    assert_eq!(player.fighter.unwrap().hp, 97);
    assert!(player.alive);
    match &game.messages.iter()[0] {
        Message::Attack { attacker, target, damage } => {
            assert_eq!(attacker, "Broo");
            assert_eq!(target, "player");
            assert_eq!(*damage, 3);
        }
        other => panic!("unexpected message {:?}", other),
    }
}

#[test]
fn attack_without_advantage_has_no_effect() {
    let mut game = open_game();
    let mut player = new_player();
    let mut troll = new_monster(MonsterKind::Troll, 1, 1);
    // player power 2 against troll defense 2
    player.attack(&mut troll, &mut game);
    assert_eq!(troll.fighter.unwrap().hp, 30);
    assert_eq!(game.messages.iter().len(), 1);
    assert!(matches!(game.messages.iter()[0], Message::AttackNoEffect { .. }));
}

#[test]
fn equipped_bonus_counts_for_player_only() {
    let mut game = open_game();
    game.inventory.push(sword(true, 3));
    game.inventory.push(sword(false, 5));
    let player = new_player();
    assert_eq!(player.power(&game), 5);
    assert_eq!(player.get_all_equipped(&game).len(), 1);
    let broo = new_monster(MonsterKind::Broo, 0, 0);
    assert_eq!(broo.get_all_equipped(&game).len(), 0);
    game.dungeon_level = 8;
    assert_eq!(broo.power(&game), 6);
    assert_eq!(player.power(&game), 5);
    assert_eq!(Bonus::Power, Bonus::Power);
}

#[test]
fn killing_blow_awards_xp_once() {
    let mut game = open_game();
    let mut broo = new_monster(MonsterKind::Broo, 3, 3);
    let r = broo.take_damage(25, &mut game);
    assert_eq!(r, Some(35));
    assert!(!broo.alive);
    assert!(broo.fighter.is_none());
    assert!(broo.ai.is_none());
    assert!(!broo.blocks);
    assert_eq!(broo.glyph, '%');
    assert_eq!(broo.name, "remains of Broo");
    match &game.messages.iter()[0] {
        Message::MonsterDied { name, xp } => {
            assert_eq!(name, "Broo");
            assert_eq!(*xp, 35);
        }
        other => panic!("unexpected message {:?}", other),
    }
    let again = broo.take_damage(25, &mut game);
    assert_eq!(again, None);
    assert_eq!(game.messages.iter().len(), 1);
}

#[test]
fn player_dies_once() {
    let mut game = open_game();
    let mut player = new_player();
    assert_eq!(player.take_damage(150, &mut game), Some(0));
    assert!(!player.alive);
    assert!(!player.blocks);
    assert_eq!(player.fighter.unwrap().hp, -50);
    assert_eq!(player.fighter.unwrap().on_death, DeathCallback::Player);
    assert_eq!(player.take_damage(10, &mut game), None);
    assert_eq!(player.fighter.unwrap().hp, -50);
    assert_eq!(game.messages.iter().len(), 1);
    assert!(matches!(game.messages.iter()[0], Message::PlayerDied));
}

#[test]
fn attacker_collects_kill_xp() {
    let mut game = open_game();
    let mut player = new_player();
    game.inventory.push(sword(true, 30));
    let mut broo = new_monster(MonsterKind::Broo, 1, 0);
    player.attack(&mut broo, &mut game);
    assert_eq!(player.fighter.unwrap().xp, 35);
    assert_eq!(game.messages.iter().len(), 2);
}

#[test]
fn nonpositive_damage_leaves_hp() {
    let mut game = open_game();
    let mut broo = new_monster(MonsterKind::Broo, 0, 0);
    assert_eq!(broo.take_damage(-5, &mut game), None);
    assert_eq!(broo.fighter.unwrap().hp, 20);
    assert_eq!(broo.take_damage(0, &mut game), None);
    assert_eq!(broo.fighter.unwrap().hp, 20);
}

#[test]
fn heal_caps_at_max() {
    let game = open_game();
    let mut player = new_player();
    player.fighter = Some(Fighter { hp: 50, ..player.fighter.unwrap() });
    player.heal(30, &game);
    assert_eq!(player.fighter.unwrap().hp, 80);
    player.heal(30, &game);
    assert_eq!(player.fighter.unwrap().hp, 100);
    assert_eq!(player.max_hp(&game), 100);
}

#[test]
fn ranged_attack_respects_range() {
    let mut game = open_game();
    let mut shaman = new_monster(MonsterKind::BrooShaman, 0, 0);
    let mut player = new_player();
    player.x = 5;
    player.y = 0;
    shaman.ranged_attack(&mut player, &mut game, 4);
    assert_eq!(player.fighter.unwrap().hp, 100);
    assert!(matches!(game.messages.iter()[0], Message::ShootOutOfRange { .. }));
    player.x = 3;
    shaman.ranged_attack(&mut player, &mut game, 4);
    assert_eq!(player.fighter.unwrap().hp, 97);
    assert!(matches!(game.messages.iter()[1], Message::Shoot { damage: 3, .. }));
    assert!(matches!(shaman.ai, Some(AI::Ranged { range: 4 })));
}

#[test]
fn squared_distances() {
    let a = Object::new(1, 2, 'a', Color::White, "a".to_string(), false);
    let b = Object::new(4, 6, 'b', Color::White, "b".to_string(), false);
    assert_eq!(a.distance_to(&b), 25);
    assert_eq!(a.distance(1, 2), 0);
    assert_eq!(a.pos(), (1, 2));
}
