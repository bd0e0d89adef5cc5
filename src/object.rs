//! Entities of the roster and the inventory, their components, and the
//! message log.

use vstd::prelude::*;

verus! {

/// Index of the player in the roster.
pub const PLAYER: usize = 0;

/// Largest magnitude of a base stat, an equipment figure or a dungeon level
/// that the stat arithmetic is proved for.
pub const STAT_MAX: i32 = 1_000_000;

/// Largest magnitude of hit points that the stat arithmetic is proved for.
pub const POINTS_MAX: i32 = 1_000_000_000;

/// Named colors in which entities are drawn and messages are shown.
#[derive(Clone, Copy, Debug, PartialEq, Eq, Structural)]
pub enum Color {
    White,
    Red,
    DarkRed,
    Orange,
    Green,
    DarkGreen,
    LightGreen,
    Yellow,
    LightYellow,
    Violet,
    LightViolet,
    Blue,
    LightBlue,
    LightCyan,
    LightAzure,
    LightAmber,
    Sky,
    DesaturatedCrimson,
    Brass,
}

/// Equipment attachment points; at most one equipped item each.
#[derive(Clone, Copy, Debug, PartialEq, Eq, Structural)]
pub enum Slot {
    LeftHand,
    RightHand,
    Head,
    Back,
}

/// An object that can be equipped, yielding bonuses.
#[derive(Clone, Copy, Debug, PartialEq, Eq, Structural)]
pub struct Equipment {
    pub slot: Slot,
    pub equipped: bool,
    pub power_bonus: i32,
    pub defense_bonus: i32,
    pub max_hp_bonus: i32,
    pub range: i32,
    pub damage: i32,
    pub charges: i32,
}

impl Equipment {
    /// Every figure is within `STAT_MAX`.
    pub open spec fn bounded(&self) -> bool {
        &&& -STAT_MAX <= self.power_bonus <= STAT_MAX
        &&& -STAT_MAX <= self.defense_bonus <= STAT_MAX
        &&& -STAT_MAX <= self.max_hp_bonus <= STAT_MAX
        &&& -STAT_MAX <= self.range <= STAT_MAX
        &&& -STAT_MAX <= self.damage <= STAT_MAX
        &&& -STAT_MAX <= self.charges <= STAT_MAX
    }
}

/// What an item does when used.
#[derive(Clone, Copy, Debug, PartialEq, Eq, Structural)]
pub enum Item {
    Heal,
    Lightning,
    Confuse,
    Fireball,
    Sword,
    Shield,
    Helmet,
    Bow,
}

/// What happens to a fighter whose hit points run out.
#[derive(Clone, Copy, Debug, PartialEq, Eq, Structural)]
pub enum DeathCallback {
    Player,
    Monster,
}

/// The combat component of an entity.
#[derive(Clone, Copy, Debug, PartialEq, Eq, Structural)]
pub struct Fighter {
    pub base_max_hp: i32,
    pub hp: i32,
    pub base_defense: i32,
    pub base_power: i32,
    pub xp: i32,
    pub on_death: DeathCallback,
}

impl Fighter {
    /// Base stats within `STAT_MAX`, hit points within `POINTS_MAX`, and
    /// experience not negative.
    pub open spec fn bounded(&self) -> bool {
        &&& -STAT_MAX <= self.base_max_hp <= STAT_MAX
        &&& -STAT_MAX <= self.base_defense <= STAT_MAX
        &&& -STAT_MAX <= self.base_power <= STAT_MAX
        &&& -POINTS_MAX <= self.hp <= POINTS_MAX
        &&& 0 <= self.xp
    }
}

/// Monster behaviour. `Confused` wraps the behaviour it restores.
#[derive(Debug)]
pub enum AI {
    Basic,
    Ranged { range: i32 },
    Confused { previous_ai: Box<AI>, num_turns: i32 },
}

/// One entry of the message log; the text is rendered from it.
#[derive(Debug)]
pub enum Message {
    Welcome,
    Attack { attacker: String, target: String, damage: i32 },
    AttackNoEffect { attacker: String, target: String },
    Shoot { attacker: String, target: String, damage: i32 },
    ShootNoEffect { attacker: String, target: String },
    ShootOutOfRange { attacker: String, target: String },
    PlayerDied,
    MonsterDied { name: String, xp: i32 },
    LevelUp { level: i32 },
    NotAnItem { name: String },
    NotEquipment { name: String },
    Equipped { name: String, slot: Slot },
    Dequipped { name: String, slot: Slot },
    InventoryFull { name: String },
    PickedUp { name: String },
    Dropped { name: String },
    CannotUse { name: String },
    Cancelled,
    FullHealth,
    WoundsBetter,
    LightningStrike { name: String, damage: i32 },
    NoEnemyInRange,
    ConfusePrompt,
    Confused { name: String },
    NoLongerConfused { name: String },
    FireballPrompt,
    FireballExplodes { radius: i32 },
    Burned { name: String, damage: i32 },
    ShootPrompt,
    ProjectileStrikes { target: String, damage: i32 },
    ProjectileNoEffect { attacker: String, target: String },
    OutOfAmmo,
    Waits { name: String },
    Rest,
    Descend,
}

/// The append-only message log, oldest first.
pub struct Messages {
    pub messages: Vec<Message>,
}

impl Messages {
    /// An empty log.
    pub fn new() -> (m: Messages)
        ensures
            m.messages@ == Seq::<Message>::empty(),
    {
        Messages { messages: Vec::new() }
    }

    /// Appends `message` at the end.
    pub fn add(&mut self, message: Message)
        ensures
            final(self).messages@ == old(self).messages@.push(message),
    {
        self.messages.push(message);
    }

    /// The entries, oldest first.
    pub fn iter(&self) -> (r: &Vec<Message>)
        ensures
            r@ == self.messages@,
    {
        &self.messages
    }
}

/// A game object: the player, a monster, an item, the stairs.
#[derive(Debug)]
pub struct Object {
    pub x: i32,
    pub y: i32,
    pub glyph: char,
    pub color: Color,
    pub name: String,
    pub blocks: bool,
    pub alive: bool,
    pub fighter: Option<Fighter>,
    pub ai: Option<AI>,
    pub item: Option<Item>,
    pub always_visible: bool,
    pub level: i32,
    pub equipment: Option<Equipment>,
}

/// The squared distance between two points.
pub open spec fn dist2(x1: int, y1: int, x2: int, y2: int) -> int {
    (x2 - x1) * (x2 - x1) + (y2 - y1) * (y2 - y1)
}

/// Coordinates that squared distances are proved for.
pub open spec fn coord_ok(v: int) -> bool {
    -STAT_MAX <= v <= STAT_MAX
}

impl Object {
    /// A bare object: not alive, no components, level 1.
    pub fn new(x: i32, y: i32, glyph: char, color: Color, name: String, blocks: bool) -> (o:
        Object)
        ensures
            o.x == x,
            o.y == y,
            o.glyph == glyph,
            o.color == color,
            o.name == name,
            o.blocks == blocks,
            !o.alive,
            o.fighter.is_none(),
            o.ai.is_none(),
            o.item.is_none(),
            !o.always_visible,
            o.level == 1,
            o.equipment.is_none(),
    {
        Object {
            x: x,
            y: y,
            glyph: glyph,
            color: color,
            name: name,
            blocks: blocks,
            alive: false,
            fighter: None,
            ai: None,
            item: None,
            always_visible: false,
            level: 1,
            equipment: None,
        }
    }

    /// The position.
    pub fn pos(&self) -> (p: (i32, i32))
        ensures
            p == (self.x, self.y),
    {
        (self.x, self.y)
    }

    /// Moves the object to `(x, y)`; nothing else changes.
    pub fn set_pos(&mut self, x: i32, y: i32)
        ensures
            *final(self) == (Object { x: x, y: y, ..*old(self) }),
    {
        self.x = x;
        self.y = y;
    }

    /// The squared distance to `other`.
    pub fn distance_to(&self, other: &Object) -> (d: i64)
        requires
            coord_ok(self.x as int),
            coord_ok(self.y as int),
            coord_ok(other.x as int),
            coord_ok(other.y as int),
        ensures
            d == dist2(self.x as int, self.y as int, other.x as int, other.y as int),
    {
        self.distance(other.x, other.y)
    }

    /// The squared distance to `(x, y)`.
    pub fn distance(&self, x: i32, y: i32) -> (d: i64)
        requires
            coord_ok(self.x as int),
            coord_ok(self.y as int),
            coord_ok(x as int),
            coord_ok(y as int),
        ensures
            d == dist2(self.x as int, self.y as int, x as int, y as int),
    {
        let dx = x as i64 - self.x as i64;
        let dy = y as i64 - self.y as i64;
        assert(dx * dx <= 4 * STAT_MAX * STAT_MAX) by (nonlinear_arith)
            requires
                -2 * STAT_MAX <= dx <= 2 * STAT_MAX,
        ;
        assert(dy * dy <= 4 * STAT_MAX * STAT_MAX) by (nonlinear_arith)
            requires
                -2 * STAT_MAX <= dy <= 2 * STAT_MAX,
        ;
        assert(dx * dx >= 0 && dy * dy >= 0) by (nonlinear_arith);
        dx * dx + dy * dy
    }
}

} // verus!
