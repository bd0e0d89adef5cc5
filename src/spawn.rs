//! Level-scaled spawn tables, monster and item construction, and room
//! population.

use crate::ai::{ai_ok, blocked_at, is_blocked};
use crate::map::{map_wf, Grid, Rect};
use crate::object::{
    Color, DeathCallback, Equipment, Fighter, Item, Object, Slot, AI, };
use crate::rng::{random_range, weight_sum, weighted_index};
use vstd::prelude::*;
use vstd::string::StringExecFns;

verus! {

/// From dungeon level `level` on, a table yields `value`.
#[derive(Clone, Copy, Debug, PartialEq, Eq, Structural)]
pub struct Transition {
    pub level: u32,
    pub value: u32,
}

/// The value of the last transition reached at `level`, 0 before the first.
pub open spec fn level_value(table: Seq<Transition>, level: u32) -> u32
    decreases table.len(),
{
    if table.len() == 0 {
        0
    } else if level >= table.last().level {
        table.last().value
    } else {
        level_value(table.drop_last(), level)
    }
}

/// The value that `table` gives at dungeon level `level`.
pub fn from_dungeon_level(table: &[Transition], level: u32) -> (r: u32)
    ensures
        r == level_value(table@, level),
{
    let mut i: usize = table.len();
    assert(table@.take(i as int) =~= table@);
    while i > 0
        invariant
            i <= table@.len(),
            level_value(table@, level) == level_value(table@.take(i as int), level),
        decreases i,
    {
        assert(table@.take(i as int).drop_last() =~= table@.take(i - 1));
        if level >= table[i - 1].level {
            return table[i - 1].value;
        }
        i = i - 1;
    }
    0
}

/// The kinds of monster a room can hold.
#[derive(Clone, Copy, Debug, PartialEq, Eq, Structural)]
pub enum MonsterKind {
    Broo,
    Troll,
    BrooShaman,
    ScorpionMan,
}

/// The fighter a fresh monster of `kind` starts with.
pub open spec fn monster_fighter(kind: MonsterKind) -> Fighter {
    match kind {
        MonsterKind::Broo => Fighter {
            base_max_hp: 20,
            hp: 20,
            base_defense: 0,
            base_power: 4,
            xp: 35,
            on_death: DeathCallback::Monster,
        },
        MonsterKind::Troll => Fighter {
            base_max_hp: 30,
            hp: 30,
            base_defense: 2,
            base_power: 8,
            xp: 100,
            on_death: DeathCallback::Monster,
        },
        MonsterKind::BrooShaman => Fighter {
            base_max_hp: 20,
            hp: 20,
            base_defense: 0,
            base_power: 4,
            xp: 60,
            on_death: DeathCallback::Monster,
        },
        MonsterKind::ScorpionMan => Fighter {
            base_max_hp: 40,
            hp: 40,
            base_defense: 2,
            base_power: 10,
            xp: 125,
            on_death: DeathCallback::Monster,
        },
    }
}

/// `o` is a fresh, living, blocking monster of `kind` at `(x, y)`.
pub open spec fn is_fresh_monster(o: Object, kind: MonsterKind, x: int, y: int) -> bool {
    &&& o.x == x && o.y == y
    &&& o.blocks && o.alive
    &&& o.fighter == Some(monster_fighter(kind))
    &&& o.item.is_none() && o.equipment.is_none()
    &&& !o.always_visible
    &&& o.glyph == match kind {
        MonsterKind::Broo => 'b',
        MonsterKind::Troll => 'T',
        MonsterKind::BrooShaman => 's',
        MonsterKind::ScorpionMan => 'S',
    }
    &&& o.color == match kind {
        MonsterKind::Troll => Color::DarkGreen,
        MonsterKind::ScorpionMan => Color::Brass,
        _ => Color::DesaturatedCrimson,
    }
    &&& match kind {
        MonsterKind::Broo => o.name@ == "Broo"@ && (o.ai matches Some(AI::Basic)) && o.level == 1,
        MonsterKind::Troll => o.name@ == "Troll"@ && (o.ai matches Some(AI::Basic)) && o.level == 3,
        MonsterKind::BrooShaman => o.name@ == "Broo Shaman"@ && (o.ai matches Some(
            AI::Ranged { range: 4 },
        )) && o.level == 3,
        MonsterKind::ScorpionMan => o.name@ == "Scorpion Man"@ && (o.ai matches Some(AI::Basic))
            && o.level == 4,
    }
}

/// A fresh monster of `kind` at `(x, y)`.
pub fn new_monster(kind: MonsterKind, x: i32, y: i32) -> (o: Object)
    ensures
        is_fresh_monster(o, kind, x as int, y as int),
        o.bounded(),
        ai_ok(o.ai.unwrap()),
{
    let (glyph, color, name, fighter, ai, level) = match kind {
        MonsterKind::Broo => ('b', Color::DesaturatedCrimson, String::from_str("Broo"),
            Fighter { base_max_hp: 20, hp: 20, base_defense: 0, base_power: 4, xp: 35, on_death: DeathCallback::Monster },
            AI::Basic, 1),
        MonsterKind::Troll => ('T', Color::DarkGreen, String::from_str("Troll"),
            Fighter { base_max_hp: 30, hp: 30, base_defense: 2, base_power: 8, xp: 100, on_death: DeathCallback::Monster },
            AI::Basic, 3),
        MonsterKind::BrooShaman => ('s', Color::DesaturatedCrimson, String::from_str("Broo Shaman"),
            Fighter { base_max_hp: 20, hp: 20, base_defense: 0, base_power: 4, xp: 60, on_death: DeathCallback::Monster },
            AI::Ranged { range: 4 }, 3),
        MonsterKind::ScorpionMan => ('S', Color::Brass, String::from_str("Scorpion Man"),
            Fighter { base_max_hp: 40, hp: 40, base_defense: 2, base_power: 10, xp: 125, on_death: DeathCallback::Monster },
            AI::Basic, 4),
    };
    Object {
        x: x,
        y: y,
        glyph: glyph,
        color: color,
        name: name,
        blocks: true,
        alive: true,
        fighter: Some(fighter),
        ai: Some(ai),
        item: None,
        always_visible: false,
        level: level,
        equipment: None,
    }
}

/// The tier of gear found at dungeon level `level`: 0 for levels 1 and 2,
/// 1 for 3 to 5, 2 for 6 to 8, 3 beyond.
pub open spec fn gear_tier(level: u32) -> int {
    if level <= 2 {
        0
    } else if level <= 5 {
        1
    } else if level <= 8 {
        2
    } else {
        3
    }
}

/// The equipment an item of `kind` carries at dungeon level `level`.
pub open spec fn item_equipment(kind: Item, level: u32) -> Option<Equipment> {
    let t = gear_tier(level);
    let plain = Equipment {
        slot: Slot::RightHand,
        equipped: false,
        power_bonus: 0,
        defense_bonus: 0,
        max_hp_bonus: 0,
        range: 0,
        damage: 0,
        charges: 0,
    };
    match kind {
        Item::Sword => Some(Equipment {
            slot: Slot::RightHand,
            power_bonus: if t == 0 { 3 } else if t == 1 { 4 } else if t == 2 { 6 } else { 8 },
            ..plain
        }),
        Item::Shield => Some(Equipment {
            slot: Slot::LeftHand,
            defense_bonus: if t == 0 { 2 } else if t == 1 { 3 } else if t == 2 { 4 } else { 6 },
            ..plain
        }),
        Item::Helmet => Some(Equipment {
            slot: Slot::Head,
            max_hp_bonus: if t == 0 { 15 } else if t == 1 { 30 } else if t == 2 { 45 } else { 80 },
            ..plain
        }),
        Item::Bow => Some(Equipment {
            slot: Slot::Back,
            range: if t == 0 { 4 } else if t == 1 { 5 } else if t == 2 { 6 } else { 8 },
            damage: if t == 0 { 5 } else if t == 1 { 6 } else if t == 2 { 8 } else { 10 },
            charges: 12,
            ..plain
        }),
        _ => None,
    }
}

/// The name of an item of `kind` at dungeon level `level`.
pub open spec fn item_name(kind: Item, level: u32) -> Seq<char> {
    let t = gear_tier(level);
    match kind {
        Item::Heal => "healing potion"@,
        Item::Lightning => "scroll of lightning bolt"@,
        Item::Confuse => "scroll of confusion"@,
        Item::Fireball => "scroll of fireball"@,
        Item::Sword => if t == 0 {
            "short sword"@
        } else if t == 1 {
            "broadsword"@
        } else if t == 2 {
            "fine sword"@
        } else {
            "enchanted sword"@
        },
        Item::Shield => if t == 0 {
            "wooden shield"@
        } else if t == 1 {
            "round shield"@
        } else if t == 2 {
            "kite shield"@
        } else {
            "enchanted shield"@
        },
        Item::Helmet => if t == 0 {
            "leather helmet"@
        } else if t == 1 {
            "pot helm"@
        } else if t == 2 {
            "full helm"@
        } else {
            "enchanted helm"@
        },
        Item::Bow => if t == 0 {
            "short bow"@
        } else if t == 1 {
            "longbow"@
        } else if t == 2 {
            "crossbow"@
        } else {
            "magic bow"@
        },
    }
}

/// The glyph and color an item of `kind` is drawn with.
pub open spec fn item_look(kind: Item) -> (char, Color) {
    match kind {
        Item::Heal => ('!', Color::Violet),
        Item::Lightning => ('#', Color::LightYellow),
        Item::Confuse => ('?', Color::LightAzure),
        Item::Fireball => ('F', Color::Orange),
        Item::Sword => ('/', Color::Sky),
        Item::Shield => (')', Color::Sky),
        Item::Helmet => ('M', Color::Sky),
        Item::Bow => ('}', Color::Sky),
    }
}

/// `o` is a fresh item of `kind` for dungeon level `level` at `(x, y)`.
pub open spec fn is_fresh_item(o: Object, kind: Item, level: u32, x: int, y: int) -> bool {
    &&& o.x == x && o.y == y
    &&& o.name@ == item_name(kind, level)
    &&& (o.glyph, o.color) == item_look(kind)
    &&& !o.blocks && !o.alive
    &&& o.fighter.is_none() && o.ai.is_none()
    &&& o.item == Some(kind)
    &&& o.equipment == item_equipment(kind, level)
    &&& o.always_visible
    &&& o.level == 1
}

/// The glyph, color and name of an item of `kind` at the gear tier of
/// `level`.
fn item_looks(kind: Item, tier: u32, level: u32) -> (r: (char, Color, String))
    requires
        tier == gear_tier(level),
    ensures
        (r.0, r.1) == item_look(kind),
        r.2@ == item_name(kind, level),
{
    match kind {
        Item::Heal => ('!', Color::Violet, String::from_str("healing potion")),
        Item::Lightning => ('#', Color::LightYellow, String::from_str("scroll of lightning bolt")),
        Item::Confuse => ('?', Color::LightAzure, String::from_str("scroll of confusion")),
        Item::Fireball => ('F', Color::Orange, String::from_str("scroll of fireball")),
        Item::Sword => ('/', Color::Sky, String::from_str(
            if tier == 0 { "short sword" } else if tier == 1 { "broadsword" } else if tier == 2 { "fine sword" } else { "enchanted sword" },
        )),
        Item::Shield => (')', Color::Sky, String::from_str(
            if tier == 0 { "wooden shield" } else if tier == 1 { "round shield" } else if tier == 2 { "kite shield" } else { "enchanted shield" },
        )),
        Item::Helmet => ('M', Color::Sky, String::from_str(
            if tier == 0 { "leather helmet" } else if tier == 1 { "pot helm" } else if tier == 2 { "full helm" } else { "enchanted helm" },
        )),
        Item::Bow => ('}', Color::Sky, String::from_str(
            if tier == 0 { "short bow" } else if tier == 1 { "longbow" } else if tier == 2 { "crossbow" } else { "magic bow" },
        )),
    }
}

/// A fresh item of `kind` at `(x, y)`, its gear scaled to dungeon level
/// `level`.
pub fn new_item(kind: Item, x: i32, y: i32, level: u32) -> (o: Object)
    ensures
        is_fresh_item(o, kind, level, x as int, y as int),
        o.bounded(),
{
    let tier: u32 = if level <= 2 {
        0
    } else if level <= 5 {
        1
    } else if level <= 8 {
        2
    } else {
        3
    };
    let (glyph, color, name) = item_looks(kind, tier, level);
    let plain = Equipment {
        slot: Slot::RightHand,
        equipped: false,
        power_bonus: 0,
        defense_bonus: 0,
        max_hp_bonus: 0,
        range: 0,
        damage: 0,
        charges: 0,
    };
    let equipment = match kind {
        Item::Sword => Some(Equipment {
            slot: Slot::RightHand,
            power_bonus: if tier == 0 { 3 } else if tier == 1 { 4 } else if tier == 2 { 6 } else { 8 },
            ..plain
        }),
        Item::Shield => Some(Equipment {
            slot: Slot::LeftHand,
            defense_bonus: if tier == 0 { 2 } else if tier == 1 { 3 } else if tier == 2 { 4 } else { 6 },
            ..plain
        }),
        Item::Helmet => Some(Equipment {
            slot: Slot::Head,
            max_hp_bonus: if tier == 0 { 15 } else if tier == 1 { 30 } else if tier == 2 { 45 } else { 80 },
            ..plain
        }),
        Item::Bow => Some(Equipment {
            slot: Slot::Back,
            range: if tier == 0 { 4 } else if tier == 1 { 5 } else if tier == 2 { 6 } else { 8 },
            damage: if tier == 0 { 5 } else if tier == 1 { 6 } else if tier == 2 { 8 } else { 10 },
            charges: 12,
            ..plain
        }),
        _ => None,
    };
    let mut object = Object::new(x, y, glyph, color, name, false);
    object.item = Some(kind);
    object.equipment = equipment;
    object.always_visible = true;
    object
}

/// Most monsters a room gets at dungeon level `level`.
pub open spec fn max_monsters(level: u32) -> u32 {
    level_value(
        seq![
            Transition { level: 1, value: 2 },
            Transition { level: 4, value: 3 },
            Transition { level: 6, value: 5 },
        ],
        level,
    )
}

/// Most items a room gets at dungeon level `level`.
pub open spec fn max_items(level: u32) -> u32 {
    level_value(seq![Transition { level: 1, value: 1 }, Transition { level: 4, value: 2 }], level)
}

/// The monster kinds, in the order of their weights.
pub open spec fn monster_kind_at(i: int) -> MonsterKind {
    if i == 0 {
        MonsterKind::Broo
    } else if i == 1 {
        MonsterKind::Troll
    } else if i == 2 {
        MonsterKind::BrooShaman
    } else {
        MonsterKind::ScorpionMan
    }
}

/// The monster weights at dungeon level `level`, in kind order.
pub open spec fn monster_weights(level: u32) -> Seq<u32> {
    seq![
        80,
        level_value(
            seq![
                Transition { level: 3, value: 15 },
                Transition { level: 5, value: 30 },
                Transition { level: 7, value: 60 },
            ],
            level,
        ),
        level_value(
            seq![
                Transition { level: 2, value: 15 },
                Transition { level: 4, value: 30 },
                Transition { level: 5, value: 30 },
            ],
            level,
        ),
        level_value(
            seq![
                Transition { level: 5, value: 15 },
                Transition { level: 7, value: 30 },
                Transition { level: 9, value: 60 },
            ],
            level,
        ),
    ]
}

/// The item kinds, in the order of their weights.
pub open spec fn item_kind_at(i: int) -> Item {
    if i == 0 {
        Item::Heal
    } else if i == 1 {
        Item::Lightning
    } else if i == 2 {
        Item::Fireball
    } else if i == 3 {
        Item::Confuse
    } else if i == 4 {
        Item::Sword
    } else if i == 5 {
        Item::Shield
    } else if i == 6 {
        Item::Helmet
    } else {
        Item::Bow
    }
}

/// The item weights at dungeon level `level`, in kind order.
pub open spec fn item_weights(level: u32) -> Seq<u32> {
    seq![
        35,
        level_value(seq![Transition { level: 4, value: 25 }], level),
        level_value(seq![Transition { level: 6, value: 25 }], level),
        level_value(seq![Transition { level: 2, value: 10 }], level),
        level_value(seq![Transition { level: 1, value: 10 }], level),
        level_value(seq![Transition { level: 1, value: 10 }], level),
        level_value(seq![Transition { level: 1, value: 10 }], level),
        level_value(seq![Transition { level: 1, value: 100 }], level),
    ]
}

/// `o` is what population may put in `room` at dungeon level `level`: a
/// fresh monster or item of a kind with positive weight, strictly inside.
pub open spec fn is_spawn(o: Object, room: Rect, level: u32) -> bool {
    &&& room.interior(o.x as int, o.y as int)
    &&& {
        ||| exists|i: int|
            0 <= i < 4 && monster_weights(level)[i] > 0 && #[trigger] is_fresh_monster(
                o,
                monster_kind_at(i),
                o.x as int,
                o.y as int,
            )
        ||| exists|i: int|
            0 <= i < 8 && item_weights(level)[i] > 0 && #[trigger] is_fresh_item(
                o,
                item_kind_at(i),
                level,
                o.x as int,
                o.y as int,
            )
    }
}

/// The monster weights at `level`.
fn monster_weight_table(level: u32) -> (w: Vec<u32>)
    ensures
        w@ == monster_weights(level),
        0 < weight_sum(w@) <= u32::MAX,
{
    let troll = from_dungeon_level(
        vec![
            Transition { level: 3, value: 15 },
            Transition { level: 5, value: 30 },
            Transition { level: 7, value: 60 },
        ].as_slice(),
        level,
    );
    let shaman = from_dungeon_level(
        vec![
            Transition { level: 2, value: 15 },
            Transition { level: 4, value: 30 },
            Transition { level: 5, value: 30 },
        ].as_slice(),
        level,
    );
    let scorpion = from_dungeon_level(
        vec![
            Transition { level: 5, value: 15 },
            Transition { level: 7, value: 30 },
            Transition { level: 9, value: 60 },
        ].as_slice(),
        level,
    );
    let w = vec![80, troll, shaman, scorpion];
    proof {
        reveal_with_fuel(level_value, 4);
        reveal_with_fuel(weight_sum, 5);
        assert(w@ =~= monster_weights(level));
        assert(w@.drop_last().drop_last().drop_last() =~= seq![80u32]);
        assert(w@.drop_last().drop_last().drop_last().drop_last() =~= Seq::<u32>::empty());
    }
    w
}

/// The item weights at `level`.
fn item_weight_table(level: u32) -> (w: Vec<u32>)
    ensures
        w@ == item_weights(level),
        0 < weight_sum(w@) <= u32::MAX,
{
    let lightning = from_dungeon_level(vec![Transition { level: 4, value: 25 }].as_slice(), level);
    let fireball = from_dungeon_level(vec![Transition { level: 6, value: 25 }].as_slice(), level);
    let confuse = from_dungeon_level(vec![Transition { level: 2, value: 10 }].as_slice(), level);
    let sword = from_dungeon_level(vec![Transition { level: 1, value: 10 }].as_slice(), level);
    let shield = from_dungeon_level(vec![Transition { level: 1, value: 10 }].as_slice(), level);
    let helmet = from_dungeon_level(vec![Transition { level: 1, value: 10 }].as_slice(), level);
    let bow = from_dungeon_level(vec![Transition { level: 1, value: 100 }].as_slice(), level);
    let w = vec![35, lightning, fireball, confuse, sword, shield, helmet, bow];
    proof {
        reveal_with_fuel(level_value, 2);
        reveal_with_fuel(weight_sum, 9);
        assert(w@ =~= item_weights(level));
        assert(w@.take(1).drop_last() =~= Seq::<u32>::empty());
        assert(w@.take(2).drop_last() =~= w@.take(1));
        assert(w@.take(3).drop_last() =~= w@.take(2));
        assert(w@.take(4).drop_last() =~= w@.take(3));
        assert(w@.take(5).drop_last() =~= w@.take(4));
        assert(w@.take(6).drop_last() =~= w@.take(5));
        assert(w@.take(7).drop_last() =~= w@.take(6));
        assert(w@.drop_last() =~= w@.take(7));
    }
    w
}

/// What population leaves: the old roster unchanged in front, and after
/// it only spawns for `room`, each on a spot that the map and the entities
/// before it left unblocked.
pub open spec fn spawned_only(
    map: &Grid,
    before: Seq<Object>,
    after: Seq<Object>,
    room: Rect,
    level: u32,
) -> bool {
    &&& before.len() <= after.len()
    &&& after.take(before.len() as int) == before
    &&& forall|i: int|
        before.len() <= i < after.len() ==> is_spawn(#[trigger] after[i], room, level)
            && !blocked_at(map, after.take(i), after[i].x as int, after[i].y as int)
}

/// The weight of kind `choice` among the monsters (or the items) at `level`.
pub open spec fn kind_weight(monster: bool, choice: int, level: u32) -> int {
    if monster {
        if 0 <= choice < 4 { monster_weights(level)[choice] as int } else { 0 }
    } else {
        if 0 <= choice < 8 { item_weights(level)[choice] as int } else { 0 }
    }
}

/// `o` is the fresh monster (or item) of kind `choice` at `(x, y)`.
pub open spec fn placed_kind(o: Object, monster: bool, choice: int, level: u32, x: int, y: int) -> bool {
    if monster {
        is_fresh_monster(o, monster_kind_at(choice), x, y)
    } else {
        is_fresh_item(o, item_kind_at(choice), level, x, y)
    }
}

/// One drawn slot, at spot `(pick.0, pick.1)` of kind `pick.2`: an entity
/// of that kind is added there exactly when the spot is free.
pub open spec fn slot_step(
    map: &Grid,
    o0: Seq<Object>,
    o1: Seq<Object>,
    room: Rect,
    level: u32,
    monster: bool,
    pick: (int, int, int),
) -> bool {
    &&& room.interior(pick.0, pick.1)
    &&& kind_weight(monster, pick.2, level) > 0
    &&& if blocked_at(map, o0, pick.0, pick.1) {
        o1 == o0
    } else {
        &&& o1.len() == o0.len() + 1
        &&& o1.drop_last() == o0
        &&& placed_kind(o1.last(), monster, pick.2, level, pick.0, pick.1)
    }
}

/// The slots drawn for a room, `nm` monsters then `ni` items, took the
/// roster through `states`, one slot each.
pub open spec fn slots_trace(
    map: &Grid,
    before: Seq<Object>,
    after: Seq<Object>,
    room: Rect,
    level: u32,
    nm: int,
    ni: int,
    states: Seq<Seq<Object>>,
    picks: Seq<(int, int, int)>,
) -> bool {
    &&& 0 <= nm <= max_monsters(level)
    &&& 0 <= ni <= max_items(level)
    &&& states.len() == nm + ni + 1
    &&& picks.len() == nm + ni
    &&& states[0] == before
    &&& states.last() == after
    &&& forall|k: int|
        0 <= k < nm + ni ==> slot_step(map, states[k], states[k + 1], room, level, k < nm, #[trigger] picks[k])
}

/// What `place_objects` did: up to the level's number of monster slots,
/// then up to its number of item slots, each filled exactly when its spot
/// was free; and so only spawns for `room` were added.
pub open spec fn populated(map: &Grid, before: Seq<Object>, after: Seq<Object>, room: Rect, level: u32) -> bool {
    &&& spawned_only(map, before, after, room, level)
    &&& exists|nm: int, ni: int, states: Seq<Seq<Object>>, picks: Seq<(int, int, int)>|
        #[trigger] slots_trace(map, before, after, room, level, nm, ni, states, picks)
}

/// Fills one drawn slot: the monster (or item) of kind `choice` is added at
/// `(x, y)` exactly when nothing blocks that spot. Returns whether it was.
pub fn place_at(
    room: Rect,
    map: &Grid,
    objects: &mut Vec<Object>,
    level: u32,
    x: i32,
    y: i32,
    choice: usize,
    monster: bool,
) -> (added: bool)
    requires
        map_wf(map),
        room.interior(x as int, y as int),
        kind_weight(monster, choice as int, level) > 0,
    ensures
        slot_step(map, old(objects)@, final(objects)@, room, level, monster, (x as int, y as int, choice as int)),
        added == !blocked_at(map, old(objects)@, x as int, y as int),
        added ==> is_spawn(final(objects)@.last(), room, level),
{
    if is_blocked(x, y, map, objects) {
        return false;
    }
    if monster {
        let kind = if choice == 0 {
            MonsterKind::Broo
        } else if choice == 1 {
            MonsterKind::Troll
        } else if choice == 2 {
            MonsterKind::BrooShaman
        } else {
            MonsterKind::ScorpionMan
        };
        let o = new_monster(kind, x, y);
        assert(is_fresh_monster(o, monster_kind_at(choice as int), o.x as int, o.y as int));
        objects.push(o);
    } else {
        let kind = if choice == 0 {
            Item::Heal
        } else if choice == 1 {
            Item::Lightning
        } else if choice == 2 {
            Item::Fireball
        } else if choice == 3 {
            Item::Confuse
        } else if choice == 4 {
            Item::Sword
        } else if choice == 5 {
            Item::Shield
        } else if choice == 6 {
            Item::Helmet
        } else {
            Item::Bow
        };
        let o = new_item(kind, x, y, level);
        assert(is_fresh_item(o, item_kind_at(choice as int), level, o.x as int, o.y as int));
        objects.push(o);
    }
    assert(objects@.drop_last() =~= old(objects)@);
    true
}

/// Draws a spot strictly inside `room` and a kind by the level's weights,
/// and fills that slot.
fn draw_slot(room: Rect, map: &Grid, objects: &mut Vec<Object>, level: u32, monster: bool) -> (pick: (i32, i32, usize))
    requires
        map_wf(map),
        room.fits(),
        room.x2 - room.x1 >= 2,
        room.y2 - room.y1 >= 2,
    ensures
        slot_step(map, old(objects)@, final(objects)@, room, level, monster, (pick.0 as int, pick.1 as int, pick.2 as int)),
        spawned_only(map, old(objects)@, final(objects)@, room, level),
        final(objects)@.len() <= old(objects)@.len() + 1,
{
    let x = random_range(room.x1 + 1, room.x2);
    let y = random_range(room.y1 + 1, room.y2);
    let choice = if monster {
        let weights = monster_weight_table(level);
        weighted_index(&weights)
    } else {
        let weights = item_weight_table(level);
        weighted_index(&weights)
    };
    let added = place_at(room, map, objects, level, x, y, choice, monster);
    proof {
        assert(objects@.take(old(objects)@.len() as int) =~= old(objects)@);
        if added {
            assert(objects@.take(old(objects)@.len() as int) =~= old(objects)@);
        }
    }
    (x, y, choice)
}

/// Populates `room`: up to the level's number of monsters, then up to its
/// number of items, each of a kind drawn by the level's weights at a spot
/// drawn inside the room; a slot whose spot is blocked stays empty.
pub fn place_objects(room: Rect, map: &Grid, objects: &mut Vec<Object>, level: u32)
    requires
        map_wf(map),
        room.fits(),
        room.x2 - room.x1 >= 2,
        room.y2 - room.y1 >= 2,
    ensures
        populated(map, old(objects)@, final(objects)@, room, level),
{
    let max_monsters = from_dungeon_level(
        vec![
            Transition { level: 1, value: 2 },
            Transition { level: 4, value: 3 },
            Transition { level: 6, value: 5 },
        ].as_slice(),
        level,
    );
    let max_items = from_dungeon_level(
        vec![Transition { level: 1, value: 1 }, Transition { level: 4, value: 2 }].as_slice(),
        level,
    );
    proof {
        reveal_with_fuel(level_value, 4);
        assert(max_monsters == crate::spawn::max_monsters(level));
        assert(max_items == crate::spawn::max_items(level));
    }
    let num_monsters = random_range(0, max_monsters as i32 + 1);
    let num_items = random_range(0, max_items as i32 + 1);
    let ghost start = objects@;
    let ghost mut states: Seq<Seq<Object>> = seq![objects@];
    let ghost mut picks: Seq<(int, int, int)> = Seq::empty();
    assert(start.take(start.len() as int) =~= start);
    let total = num_monsters + num_items;
    let mut k: i32 = 0;
    while k < total
        invariant
            map_wf(map),
            room.fits(),
            room.x2 - room.x1 >= 2,
            room.y2 - room.y1 >= 2,
            0 <= num_monsters <= max_monsters <= 5,
            0 <= num_items <= max_items <= 2,
            max_monsters == crate::spawn::max_monsters(level),
            max_items == crate::spawn::max_items(level),
            total == num_monsters + num_items,
            0 <= k <= total,
            states.len() == k + 1,
            picks.len() == k,
            states[0] == start,
            states.last() == objects@,
            forall|j: int|
                0 <= j < k ==> slot_step(map, states[j], states[j + 1], room, level, j < num_monsters, #[trigger] picks[j]),
            spawned_only(map, start, objects@, room, level),
        decreases total - k,
    {
        let ghost prev = objects@;
        let pick = draw_slot(room, map, objects, level, k < num_monsters);
        proof {
            let states2 = states.push(objects@);
            let picks2 = picks.push((pick.0 as int, pick.1 as int, pick.2 as int));
            assert forall|j: int| 0 <= j < k + 1 implies slot_step(map, states2[j], states2[j + 1], room, level, j < num_monsters, #[trigger] picks2[j]) by {
                if j < k {
                    assert(states2[j] == states[j] && states2[j + 1] == states[j + 1] && picks2[j] == picks[j]);
                }
            }
            assert(objects@.take(start.len() as int) =~= prev.take(start.len() as int)) by {
                assert(objects@.take(prev.len() as int) == prev);
            }
            assert forall|i: int|
                start.len() <= i < objects@.len() implies is_spawn(#[trigger] objects@[i], room, level)
                && !blocked_at(map, objects@.take(i), objects@[i].x as int, objects@[i].y as int) by {
                if i < prev.len() {
                    assert(objects@.take(i) =~= prev.take(i));
                    assert(objects@[i] == objects@.take(prev.len() as int)[i]);
                }
            }
            states = states2;
            picks = picks2;
        }
        k = k + 1;
    }
    assert(slots_trace(map, start, objects@, room, level, num_monsters as int, num_items as int, states, picks));
}

} // verus!
