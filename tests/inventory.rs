use snakepipe::game::{Game, INVENTORY_CAPACITY};
use snakepipe::inventory::{drop_item, get_equipped_in_slot, pick_item_up, toggle_equipment, UseResult};
use snakepipe::map::{Tile, MAP_HEIGHT, MAP_WIDTH};
use snakepipe::object::{Color, Equipment, Item, Message, Messages, Object, Slot};
use snakepipe::turn::new_player;

fn open_game() -> Game {
    Game {
        map: vec![vec![Tile::empty(); MAP_HEIGHT as usize]; MAP_WIDTH as usize],
        messages: Messages::new(),
        inventory: vec![],
        dungeon_level: 1,
    }
}

fn gear(name: &str, slot: Slot, equipped: bool) -> Object {
    let mut o = Object::new(2, 3, ')', Color::Sky, name.to_string(), false);
    o.item = Some(Item::Shield);
    o.equipment = Some(Equipment {
        slot,
        equipped,
        power_bonus: 0,
        defense_bonus: 2,
        max_hp_bonus: 0,
        range: 0,
        damage: 0,
        charges: 0,
    });
    o
}

fn potion(x: i32, y: i32) -> Object {
    let mut o = Object::new(x, y, '!', Color::Violet, "healing potion".to_string(), false);
    o.item = Some(Item::Heal);
    o
}

fn equipped(o: &Object) -> bool {
    o.equipment.map_or(false, |e| e.equipped)
}

#[test]
fn full_inventory_refuses_pickup() {
    let mut game = open_game();
    for _ in 0..INVENTORY_CAPACITY {
        game.inventory.push(potion(0, 0));
    }
    assert_eq!(game.inventory.len(), 26);
    let mut objects = vec![new_player(), potion(4, 4)];
    pick_item_up(1, &mut game, &mut objects);
    assert_eq!(game.inventory.len(), 26);
    assert_eq!(objects.len(), 2);
    assert_eq!(objects[1].name, "healing potion");
    assert_eq!((objects[1].x, objects[1].y), (4, 4));
    match &game.messages.iter()[0] {
        Message::InventoryFull { name } => assert_eq!(name, "healing potion"),
        other => panic!("unexpected message {:?}", other),
    }
}

#[test]
fn pickup_moves_item_and_equips_free_slot() {
    let mut game = open_game();
    let mut objects = vec![new_player(), gear("wooden shield", Slot::LeftHand, false), potion(1, 1)];
    pick_item_up(1, &mut game, &mut objects);
    assert_eq!(objects.len(), 2);
    assert_eq!(objects[1].name, "healing potion");
    assert_eq!(game.inventory.len(), 1);
    assert!(equipped(&game.inventory[0]));
    assert!(matches!(game.messages.iter()[0], Message::PickedUp { .. }));
    assert!(matches!(game.messages.iter()[1], Message::Equipped { slot: Slot::LeftHand, .. }));
    // a second shield is not put on: the slot is taken
    let mut more = vec![new_player(), gear("round shield", Slot::LeftHand, false)];
    pick_item_up(1, &mut game, &mut more);
    assert_eq!(game.inventory.len(), 2);
    assert!(!equipped(&game.inventory[1]));
}

#[test]
fn equip_second_item_replaces_first() {
    let mut game = open_game();
    game.inventory.push(gear("x", Slot::LeftHand, false));
    game.inventory.push(gear("y", Slot::LeftHand, false));
    game.inventory.push(gear("helm", Slot::Head, true));
    assert_eq!(toggle_equipment(0, &mut game), UseResult::UsedAndKept);
    assert!(equipped(&game.inventory[0]));
    assert_eq!(toggle_equipment(1, &mut game), UseResult::UsedAndKept);
    assert!(equipped(&game.inventory[1]));
    assert!(!equipped(&game.inventory[0]));
    assert!(equipped(&game.inventory[2]));
    assert_eq!(get_equipped_in_slot(Slot::LeftHand, &game.inventory), Some(1));
    assert_eq!(get_equipped_in_slot(Slot::Back, &game.inventory), None);
    let on_left = game
        .inventory
        .iter()
        .filter(|o| o.equipment.map_or(false, |e| e.equipped && e.slot == Slot::LeftHand))
        .count();
    assert_eq!(on_left, 1);
}

#[test]
fn toggle_takes_off_what_is_on() {
    let mut game = open_game();
    game.inventory.push(gear("x", Slot::LeftHand, true));
    assert_eq!(toggle_equipment(0, &mut game), UseResult::UsedAndKept);
    assert!(!equipped(&game.inventory[0]));
    game.inventory.push(potion(0, 0));
    assert_eq!(toggle_equipment(1, &mut game), UseResult::Cancelled);
}

#[test]
fn dequip_twice_is_dequip_once() {
    let mut messages = Messages::new();
    let mut o = gear("x", Slot::Head, true);
    o.dequip(&mut messages);
    assert!(!equipped(&o));
    assert_eq!(messages.iter().len(), 1);
    o.dequip(&mut messages);
    assert!(!equipped(&o));
    assert_eq!(messages.iter().len(), 1);
    o.equip(&mut messages);
    assert!(equipped(&o));
    let mut plain = Object::new(0, 0, 'x', Color::White, "rock".to_string(), false);
    plain.equip(&mut messages);
    assert!(matches!(messages.iter()[2], Message::NotAnItem { .. }));
    plain.item = Some(Item::Heal);
    plain.equip(&mut messages);
    assert!(matches!(messages.iter()[3], Message::NotEquipment { .. }));
}

#[test]
fn drop_puts_item_under_player() {
    let mut game = open_game();
    game.inventory.push(gear("x", Slot::LeftHand, true));
    let mut player = new_player();
    player.x = 7;
    player.y = 8;
    let mut objects = vec![player];
    drop_item(0, &mut game, &mut objects);
    assert!(game.inventory.is_empty());
    assert_eq!(objects.len(), 2);
    assert_eq!((objects[1].x, objects[1].y), (7, 8));
    assert!(!equipped(&objects[1]));
    assert!(matches!(game.messages.iter()[0], Message::Dequipped { .. }));
    assert!(matches!(game.messages.iter()[1], Message::Dropped { .. }));
}
