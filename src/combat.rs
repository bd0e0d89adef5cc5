//! Derived stats, equipping, damage, death and attacks.

use crate::game::{Game, INVENTORY_CAPACITY};
use crate::object::{
    coord_ok, dist2, Color, DeathCallback, Equipment, Fighter, Message, Object, POINTS_MAX,
    STAT_MAX,
};
use vstd::prelude::*;
use vstd::string::StringExecFns;

verus! {

/// Which equipment bonus a stat draws on.
#[derive(Clone, Copy, Debug, PartialEq, Eq, Structural)]
pub enum Bonus {
    Power,
    Defense,
    MaxHp,
}

/// The bonus of kind `k` that `e` gives.
pub open spec fn bonus_of(e: Equipment, k: Bonus) -> int {
    match k {
        Bonus::Power => e.power_bonus as int,
        Bonus::Defense => e.defense_bonus as int,
        Bonus::MaxHp => e.max_hp_bonus as int,
    }
}

/// Sum of the bonuses of kind `k` over `s`.
pub open spec fn bonus_total(s: Seq<Equipment>, k: Bonus) -> int
    decreases s.len(),
{
    if s.len() == 0 {
        0
    } else {
        bonus_total(s.drop_last(), k) + bonus_of(s.last(), k)
    }
}

/// `o` carries equipment that is currently equipped.
pub open spec fn is_equipped(o: Object) -> bool {
    o.equipment.is_some() && o.equipment.unwrap().equipped
}

/// The equipment of the equipped items of `inv`, in inventory order.
pub open spec fn equipped_of(inv: Seq<Object>) -> Seq<Equipment>
    decreases inv.len(),
{
    if inv.len() == 0 {
        Seq::empty()
    } else if is_equipped(inv.last()) {
        equipped_of(inv.drop_last()).push(inv.last().equipment.unwrap())
    } else {
        equipped_of(inv.drop_last())
    }
}

/// Every equipped item's equipment is within bounds, and there are no more
/// of them than items.
pub proof fn lemma_equipped_of_bounded(inv: Seq<Object>)
    requires
        forall|i: int|
            0 <= i < inv.len() && (#[trigger] inv[i]).equipment.is_some()
                ==> inv[i].equipment.unwrap().bounded(),
    ensures
        equipped_of(inv).len() <= inv.len(),
        forall|j: int| 0 <= j < equipped_of(inv).len() ==> (#[trigger] equipped_of(inv)[j]).bounded(),
    decreases inv.len(),
{
    if inv.len() > 0 {
        let rest = inv.drop_last();
        assert forall|i: int|
            0 <= i < rest.len() && (#[trigger] rest[i]).equipment.is_some()
                implies rest[i].equipment.unwrap().bounded() by {
            assert(rest[i] == inv[i]);
        }
        lemma_equipped_of_bounded(rest);
        if is_equipped(inv.last()) {
            assert(inv[inv.len() - 1].equipment.is_some());
        }
    }
}

/// A sum of `n` bounded bonuses is at most `n * STAT_MAX` in magnitude.
pub proof fn lemma_bonus_total_bounded(s: Seq<Equipment>, k: Bonus)
    requires
        forall|j: int| 0 <= j < s.len() ==> (#[trigger] s[j]).bounded(),
    ensures
        -s.len() * STAT_MAX <= bonus_total(s, k) <= s.len() * STAT_MAX,
    decreases s.len(),
{
    if s.len() > 0 {
        let rest = s.drop_last();
        assert forall|j: int| 0 <= j < rest.len() implies (#[trigger] rest[j]).bounded() by {
            assert(rest[j] == s[j]);
        }
        lemma_bonus_total_bounded(rest, k);
        assert(s[s.len() - 1].bounded());
    }
}

/// Sums the bonuses of kind `k` over `v`.
fn sum_bonus(v: &Vec<Equipment>, k: Bonus) -> (r: i32)
    requires
        v@.len() <= INVENTORY_CAPACITY,
        forall|j: int| 0 <= j < v@.len() ==> (#[trigger] v@[j]).bounded(),
    ensures
        r == bonus_total(v@, k),
{
    let mut total: i32 = 0;
    let mut i: usize = 0;
    while i < v.len()
        invariant
            i <= v@.len() <= INVENTORY_CAPACITY,
            forall|j: int| 0 <= j < v@.len() ==> (#[trigger] v@[j]).bounded(),
            total == bonus_total(v@.take(i as int), k),
            -i * STAT_MAX <= total <= i * STAT_MAX,
        decreases v@.len() - i,
    {
        let e = v[i];
        assert(v@.take(i + 1).drop_last() =~= v@.take(i as int));
        assert(v@[i as int].bounded());
        let b = match k {
            Bonus::Power => e.power_bonus,
            Bonus::Defense => e.defense_bonus,
            Bonus::MaxHp => e.max_hp_bonus,
        };
        total = total + b;
        i = i + 1;
    }
    assert(v@.take(i as int) =~= v@);
    total
}

/// The bonus that non-player entities get from the dungeon's depth.
pub open spec fn depth_bonus(o: Object, game: Game) -> int {
    if o.name@ == "player"@ {
        0
    } else {
        game.dungeon_level as int / 4
    }
}

/// The base value of a stat, 0 without a fighter.
pub open spec fn base_stat(o: Object, k: Bonus) -> int {
    match o.fighter {
        Some(f) => match k {
            Bonus::Power => f.base_power as int,
            Bonus::Defense => f.base_defense as int,
            Bonus::MaxHp => f.base_max_hp as int,
        },
        None => 0,
    }
}

impl Object {
    /// The entity is the player, by name.
    pub open spec fn spec_is_player(&self) -> bool {
        self.name@ == "player"@
    }

    /// Whether the entity is the player, by name.
    pub fn is_player(&self) -> (b: bool)
        ensures
            b == self.spec_is_player(),
    {
        let player = String::from_str("player");
        self.name == player
    }

    /// Equipment that counts for this entity: the player's equipped
    /// inventory items; none for anyone else.
    pub open spec fn spec_equipped(&self, game: Game) -> Seq<Equipment> {
        if self.spec_is_player() {
            equipped_of(game.inventory@)
        } else {
            Seq::empty()
        }
    }

    /// Effective power: base power, equipment bonuses, and a quarter of
    /// the dungeon level for everyone but the player.
    pub open spec fn spec_power(&self, game: Game) -> int {
        base_stat(*self, Bonus::Power) + bonus_total(self.spec_equipped(game), Bonus::Power)
            + depth_bonus(*self, game)
    }

    /// Effective defense: base defense and equipment bonuses.
    pub open spec fn spec_defense(&self, game: Game) -> int {
        base_stat(*self, Bonus::Defense) + bonus_total(self.spec_equipped(game), Bonus::Defense)
    }

    /// Effective maximum hit points: base maximum and equipment bonuses.
    pub open spec fn spec_max_hp(&self, game: Game) -> int {
        base_stat(*self, Bonus::MaxHp) + bonus_total(self.spec_equipped(game), Bonus::MaxHp)
    }

    /// The fighter's stats are bounded, if there is one, and a living
    /// fighter has room to take a blow.
    pub open spec fn bounded(&self) -> bool {
        self.fighter.is_some() ==> {
            &&& self.fighter.unwrap().bounded()
            &&& self.alive ==> self.fighter.unwrap().hp >= -POINTS_MAX / 2
        }
    }

    /// The equipment that counts for this entity.
    pub fn get_all_equipped(&self, game: &Game) -> (r: Vec<Equipment>)
        ensures
            r@ == self.spec_equipped(*game),
    {
        let mut r: Vec<Equipment> = Vec::new();
        if self.is_player() {
            let mut i: usize = 0;
            while i < game.inventory.len()
                invariant
                    i <= game.inventory@.len(),
                    r@ == equipped_of(game.inventory@.take(i as int)),
                decreases game.inventory@.len() - i,
            {
                assert(game.inventory@.take(i + 1).drop_last() =~= game.inventory@.take(i as int));
                if let Some(e) = game.inventory[i].equipment {
                    if e.equipped {
                        r.push(e);
                    }
                }
                i = i + 1;
            }
            assert(game.inventory@.take(i as int) =~= game.inventory@);
        }
        r
    }

    /// The stat of kind `k`: base value plus equipment bonuses.
    fn stat(&self, game: &Game, k: Bonus) -> (r: i32)
        requires
            self.bounded(),
            game.bounded(),
        ensures
            r == base_stat(*self, k) + bonus_total(self.spec_equipped(*game), k),
            -27 * STAT_MAX <= r <= 27 * STAT_MAX,
    {
        let equipped = self.get_all_equipped(game);
        proof {
            lemma_equipped_of_bounded(game.inventory@);
            lemma_bonus_total_bounded(equipped@, k);
        }
        let bonus = sum_bonus(&equipped, k);
        let base = match self.fighter {
            Some(f) => match k {
                Bonus::Power => f.base_power,
                Bonus::Defense => f.base_defense,
                Bonus::MaxHp => f.base_max_hp,
            },
            None => 0,
        };
        base + bonus
    }

    /// Effective power.
    pub fn power(&self, game: &Game) -> (r: i32)
        requires
            self.bounded(),
            game.bounded(),
        ensures
            r == self.spec_power(*game),
            -28 * STAT_MAX <= r <= 28 * STAT_MAX,
    {
        let p = self.stat(game, Bonus::Power);
        if self.is_player() {
            p
        } else {
            p + (game.dungeon_level / 4) as i32
        }
    }

    /// Effective defense.
    pub fn defense(&self, game: &Game) -> (r: i32)
        requires
            self.bounded(),
            game.bounded(),
        ensures
            r == self.spec_defense(*game),
            -27 * STAT_MAX <= r <= 27 * STAT_MAX,
    {
        self.stat(game, Bonus::Defense)
    }

    /// Effective maximum hit points.
    pub fn max_hp(&self, game: &Game) -> (r: i32)
        requires
            self.bounded(),
            game.bounded(),
        ensures
            r == self.spec_max_hp(*game),
            -27 * STAT_MAX <= r <= 27 * STAT_MAX,
    {
        self.stat(game, Bonus::MaxHp)
    }
}

/// Hit points after `damage` is dealt to a fighter with `hp`: only a
/// positive amount is subtracted.
pub open spec fn damaged_hp(hp: int, damage: int) -> int {
    if damage > 0 {
        hp - damage
    } else {
        hp
    }
}

/// The message a death of `o` with `f` logs.
pub open spec fn death_message(o: Object, f: Fighter) -> Message {
    match f.on_death {
        DeathCallback::Player => Message::PlayerDied,
        DeathCallback::Monster => Message::MonsterDied { name: o.name, xp: f.xp },
    }
}

/// `after` is the corpse `before` turns into when its fighter, last seen as
/// `f`, dies: it stops blocking; the player keeps its fighter; a monster
/// loses fighter and AI and is renamed "remains of ...".
pub open spec fn is_corpse_of(after: Object, before: Object, f: Fighter) -> bool {
    &&& after.x == before.x
    &&& after.y == before.y
    &&& after.glyph == '%'
    &&& after.color == Color::DarkRed
    &&& !after.alive
    &&& after.item == before.item
    &&& after.always_visible == before.always_visible
    &&& after.level == before.level
    &&& after.equipment == before.equipment
    &&& match f.on_death {
        DeathCallback::Player => {
            &&& after.name == before.name
            &&& !after.blocks
            &&& after.fighter == Some(f)
            &&& after.ai == before.ai
        },
        DeathCallback::Monster => {
            &&& after.name@ == "remains of "@ + before.name@
            &&& !after.blocks
            &&& after.fighter.is_none()
            &&& after.ai.is_none()
        },
    }
}

/// What `take_damage` does to `before`, yielding `after` and `r`, and
/// the messages it logs.
pub open spec fn damage_outcome(
    before: Object,
    after: Object,
    damage: int,
    r: Option<i32>,
    logged: Seq<Message>,
) -> bool {
    match before.fighter {
        Some(f) if before.alive => {
            let g = Fighter { hp: damaged_hp(f.hp as int, damage) as i32, ..f };
            if damaged_hp(f.hp as int, damage) <= 0 {
                &&& r == Some(f.xp)
                &&& is_corpse_of(after, before, g)
                &&& logged == seq![death_message(before, g)]
            } else {
                &&& r.is_none()
                &&& after == (Object { fighter: Some(g), ..before })
                &&& logged == Seq::<Message>::empty()
            }
        },
        _ => {
            &&& r.is_none()
            &&& after == before
            &&& logged == Seq::<Message>::empty()
        },
    }
}

impl DeathCallback {
    /// Turns `object`, whose fighter `f` has just died, into a corpse.
    fn callback(self, object: &mut Object, game: &mut Game, f: Fighter)
        requires
            old(object).fighter == Some(f),
            f.on_death == self,
            !old(object).alive,
        ensures
            is_corpse_of(*final(object), *old(object), f),
            old(game).logged(&*final(game), seq![death_message(*old(object), f)]),
    {
        match self {
            DeathCallback::Player => player_death(object, game),
            DeathCallback::Monster => monster_death(object, game),
        }
    }
}

/// The player's death: logged, and the player becomes a corpse that is
/// drawn as such and blocks nothing.
pub fn player_death(player: &mut Object, game: &mut Game)
    ensures
        *final(player) == (Object { glyph: '%', color: Color::DarkRed, blocks: false, ..*old(player) }),
        old(game).logged(&*final(game), seq![Message::PlayerDied]),
{
    game.messages.add(Message::PlayerDied);
    assert(game.messages.messages@ =~= old(game).messages.messages@ + seq![Message::PlayerDied]);
    player.glyph = '%';
    player.color = Color::DarkRed;
    player.blocks = false;
}

/// A monster's death: logged with the experience it yields; it becomes a
/// corpse that does not block, fight or act, named "remains of ...".
pub fn monster_death(monster: &mut Object, game: &mut Game)
    requires
        old(monster).fighter.is_some(),
    ensures
        final(monster).x == old(monster).x,
        final(monster).y == old(monster).y,
        final(monster).glyph == '%',
        final(monster).color == Color::DarkRed,
        final(monster).name@ == "remains of "@ + old(monster).name@,
        !final(monster).blocks,
        final(monster).alive == old(monster).alive,
        final(monster).fighter.is_none(),
        final(monster).ai.is_none(),
        final(monster).item == old(monster).item,
        final(monster).always_visible == old(monster).always_visible,
        final(monster).level == old(monster).level,
        final(monster).equipment == old(monster).equipment,
        old(game).logged(
            &*final(game),
            seq![(Message::MonsterDied { name: old(monster).name, xp: old(monster).fighter.unwrap().xp })],
        ),
{
    let xp = match monster.fighter {
        Some(f) => f.xp,
        None => 0,
    };
    let m = Message::MonsterDied { name: monster.name.clone(), xp: xp };
    game.messages.add(m);
    assert(game.messages.messages@ =~= old(game).messages.messages@ + seq![m]);
    monster.glyph = '%';
    monster.color = Color::DarkRed;
    monster.blocks = false;
    monster.fighter = None;
    monster.ai = None;
    let remains = String::from_str("remains of ");
    monster.name = remains.concat(monster.name.as_str());
}

impl Object {
    /// Deals `damage` to a living fighter; a positive amount is subtracted
    /// from its hit points. When they are then 0 or below it dies: `alive`
    /// turns false, its death callback runs, and its experience is returned
    /// for the killer. A dead entity, or one without a fighter, is left as
    /// it is.
    pub fn take_damage(&mut self, damage: i32, game: &mut Game) -> (r: Option<i32>)
        requires
            damage > 0 && old(self).fighter.is_some() ==> old(self).fighter.unwrap().hp - damage
                >= i32::MIN,
        ensures
            exists|logged: Seq<Message>|
                {
                    &&& damage_outcome(*old(self), *final(self), damage as int, r, logged)
                    &&& #[trigger] old(game).logged(&*final(game), logged)
                },
    {
        match self.fighter {
            Some(f) => {
                if self.alive {
                    let hp = if damage > 0 {
                        f.hp - damage
                    } else {
                        f.hp
                    };
                    let g = Fighter { hp: hp, ..f };
                    self.fighter = Some(g);
                    if hp <= 0 {
                        self.alive = false;
                        g.on_death.callback(self, game, g);
                        Some(f.xp)
                    } else {
                        assert(old(game).logged(&*game, Seq::<Message>::empty()));
                        None
                    }
                } else {
                    assert(old(game).logged(&*game, Seq::<Message>::empty()));
                    None
                }
            },
            None => {
                assert(old(game).logged(&*game, Seq::<Message>::empty()));
                None
            },
        }
    }
}

/// `o` after it is credited with the experience `r` of a kill, if it has a
/// fighter to hold it.
pub open spec fn awarded(o: Object, r: Option<i32>) -> Object {
    match (r, o.fighter) {
        (Some(xp), Some(f)) => Object { fighter: Some(Fighter { xp: (f.xp + xp) as i32, ..f }), ..o },
        _ => o,
    }
}

/// A kill of `target` can be credited to `attacker` without overflow.
pub open spec fn xp_fits(attacker: Object, target: Object) -> bool {
    attacker.fighter.is_some() && target.fighter.is_some() ==> attacker.fighter.unwrap().xp
        + target.fighter.unwrap().xp <= i32::MAX
}

/// The damage `attacker` deals to `target` in melee.
pub open spec fn attack_damage(attacker: Object, target: Object, game: Game) -> int {
    attacker.spec_power(game) - target.spec_defense(game)
}

/// `target` is within `range` of `attacker`.
pub open spec fn in_range(attacker: Object, target: Object, range: int) -> bool {
    range >= 0 && dist2(attacker.x as int, attacker.y as int, target.x as int, target.y as int)
        <= range * range
}

/// The outcome of a hit of `damage` (positive) by `attacker` on `target`,
/// after `announced` was logged: the target takes the damage and the
/// attacker collects the experience of a kill.
pub open spec fn hit_outcome(
    attacker: Object,
    attacker_after: Object,
    target: Object,
    target_after: Object,
    game: Game,
    game_after: Game,
    damage: int,
    announced: Message,
) -> bool {
    exists|r: Option<i32>, logged: Seq<Message>|
        {
            &&& #[trigger] damage_outcome(target, target_after, damage, r, logged)
            &&& game.logged(&game_after, seq![announced] + logged)
            &&& attacker_after == awarded(attacker, r)
        }
}

/// What a melee attack of `a` on `t` does: a positive damage is announced
/// and dealt, and a kill credited; otherwise a no-effect message is the only
/// change.
pub open spec fn attack_effect(a: Object, a2: Object, t: Object, t2: Object, g: Game, g2: Game) -> bool {
    &&& (attack_damage(a, t, g) > 0 ==> hit_outcome(
                a,
                a2,
                t,
                t2,
                g,
                g2,
                attack_damage(a, t, g),
                Message::Attack {
                    attacker: a.name,
                    target: t.name,
                    damage: attack_damage(a, t, g) as i32,
                },
            ))
    &&& (attack_damage(a, t, g) <= 0 ==> {
                &&& a2 == a
                &&& t2 == t
                &&& g.logged(
                    &g2,
                    seq![(Message::AttackNoEffect { attacker: a.name, target: t.name })],
                )
            })
}

/// What a ranged attack of `a` on `t` within `range` does: out of range,
/// only a miss is logged; in range, as a melee attack with its own messages.
pub open spec fn ranged_effect(
    a: Object,
    a2: Object,
    t: Object,
    t2: Object,
    g: Game,
    g2: Game,
    range: int,
) -> bool {
    &&& (!in_range(a, t, range) ==> {
                &&& a2 == a
                &&& t2 == t
                &&& g.logged(
                    &g2,
                    seq![(Message::ShootOutOfRange { attacker: a.name, target: t.name })],
                )
            })
    &&& (in_range(a, t, range) && attack_damage(
                a,
                t,
                g,
            ) > 0 ==> hit_outcome(
                a,
                a2,
                t,
                t2,
                g,
                g2,
                attack_damage(a, t, g),
                Message::Shoot {
                    attacker: a.name,
                    target: t.name,
                    damage: attack_damage(a, t, g) as i32,
                },
            ))
    &&& (in_range(a, t, range) && attack_damage(
                a,
                t,
                g,
            ) <= 0 ==> {
                &&& a2 == a
                &&& t2 == t
                &&& g.logged(
                    &g2,
                    seq![(Message::ShootNoEffect { attacker: a.name, target: t.name })],
                )
            })
}

/// `o` healed by `amount`: its hit points rise by that much, capped at its
/// effective maximum; without a fighter nothing changes.
pub open spec fn healed(o: Object, amount: int, game: Game) -> Object {
    match o.fighter {
        Some(f) => Object {
            fighter: Some(
                Fighter {
                    hp: if f.hp + amount > o.spec_max_hp(game) {
                        o.spec_max_hp(game)
                    } else {
                        f.hp + amount
                    } as i32,
                    ..f
                },
            ),
            ..o
        },
        None => o,
    }
}

impl Object {
    /// Heals a fighter by `amount`, capped at its effective maximum.
    pub fn heal(&mut self, amount: i32, game: &Game)
        requires
            old(self).bounded(),
            game.bounded(),
            -POINTS_MAX <= amount <= POINTS_MAX,
        ensures
            *final(self) == healed(*old(self), amount as int, *game),
    {
        let max_hp = self.max_hp(game);
        if let Some(f) = self.fighter {
            let mut hp = f.hp + amount;
            if hp > max_hp {
                hp = max_hp;
            }
            self.fighter = Some(Fighter { hp: hp, ..f });
        }
    }

    /// Deals a positive `damage` to `target` and credits a kill.
    fn strike(&mut self, target: &mut Object, game: &mut Game, damage: i32)
        requires
            0 < damage <= 60 * STAT_MAX,
            old(self).bounded(),
            old(target).bounded(),
            xp_fits(*old(self), *old(target)),
        ensures
            exists|r: Option<i32>, logged: Seq<Message>|
                {
                    &&& #[trigger] damage_outcome(
                        *old(target),
                        *final(target),
                        damage as int,
                        r,
                        logged,
                    )
                    &&& old(game).logged(&*final(game), logged)
                    &&& *final(self) == awarded(*old(self), r)
                },
    {
        let r = target.take_damage(damage, game);
        if let Some(xp) = r {
            if let Some(f) = self.fighter {
                self.fighter = Some(Fighter { xp: f.xp + xp, ..f });
            }
        }
    }

    /// Melee attack: the damage is the attacker's power less the target's
    /// defense. A positive damage is logged and dealt, and a kill's
    /// experience goes to the attacker; otherwise only a no-effect message
    /// is logged and nothing else changes.
    pub fn attack(&mut self, target: &mut Object, game: &mut Game)
        requires
            old(self).bounded(),
            old(target).bounded(),
            old(game).bounded(),
            attack_damage(*old(self), *old(target), *old(game)) > 0 ==> xp_fits(*old(self), *old(target)),
        ensures
            attack_effect(*old(self), *final(self), *old(target), *final(target), *old(game), *final(game)),
    {
        let damage = self.power(game) - target.defense(game);
        if damage > 0 {
            let m = Message::Attack {
                attacker: self.name.clone(),
                target: target.name.clone(),
                damage: damage,
            };
            game.messages.add(m);
            let ghost mid = *game;
            self.strike(target, game, damage);
            proof {
                let (r, logged) = choose|r: Option<i32>, logged: Seq<Message>|
                    {
                        &&& #[trigger] damage_outcome(
                            *old(target),
                            *target,
                            damage as int,
                            r,
                            logged,
                        )
                        &&& mid.logged(&*game, logged)
                        &&& *self == awarded(*old(self), r)
                    };
                assert(game.messages.messages@ =~= old(game).messages.messages@ + (seq![m]
                    + logged));
            }
        } else {
            let m = Message::AttackNoEffect { attacker: self.name.clone(), target: target.name.clone() };
            game.messages.add(m);
            assert(game.messages.messages@ =~= old(game).messages.messages@ + seq![m]);
        }
    }

    /// Ranged attack, capped at `range`: a target beyond it is not hit and
    /// only an out-of-range message is logged; within it, as a melee
    /// attack, with its own messages.
    pub fn ranged_attack(&mut self, target: &mut Object, game: &mut Game, range: i32)
        requires
            old(self).bounded(),
            old(target).bounded(),
            old(game).bounded(),
            coord_ok(old(self).x as int),
            coord_ok(old(self).y as int),
            coord_ok(old(target).x as int),
            coord_ok(old(target).y as int),
            -STAT_MAX <= range <= STAT_MAX,
            in_range(*old(self), *old(target), range as int) && attack_damage(*old(self), *old(target), *old(game)) > 0
                ==> xp_fits(*old(self), *old(target)),
        ensures
            ranged_effect(
                *old(self),
                *final(self),
                *old(target),
                *final(target),
                *old(game),
                *final(game),
                range as int,
            ),
    {
        let d = self.distance(target.x, target.y);
        let r = range as i64;
        assert(r * r <= STAT_MAX * STAT_MAX) by (nonlinear_arith)
            requires
                -STAT_MAX <= r <= STAT_MAX,
        ;
        assert(r * r >= 0) by (nonlinear_arith);
        if range >= 0 && d <= r * r {
            let damage = self.power(game) - target.defense(game);
            if damage > 0 {
                let m = Message::Shoot {
                    attacker: self.name.clone(),
                    target: target.name.clone(),
                    damage: damage,
                };
                game.messages.add(m);
                let ghost mid = *game;
                self.strike(target, game, damage);
                proof {
                    let (rr, logged) = choose|rr: Option<i32>, logged: Seq<Message>|
                        {
                            &&& #[trigger] damage_outcome(
                                *old(target),
                                *target,
                                damage as int,
                                rr,
                                logged,
                            )
                            &&& mid.logged(&*game, logged)
                            &&& *self == awarded(*old(self), rr)
                        };
                    assert(game.messages.messages@ =~= old(game).messages.messages@ + (seq![m]
                        + logged));
                }
            } else {
                let m = Message::ShootNoEffect {
                    attacker: self.name.clone(),
                    target: target.name.clone(),
                };
                game.messages.add(m);
                assert(game.messages.messages@ =~= old(game).messages.messages@ + seq![m]);
            }
        } else {
            let m = Message::ShootOutOfRange {
                attacker: self.name.clone(),
                target: target.name.clone(),
            };
            game.messages.add(m);
            assert(game.messages.messages@ =~= old(game).messages.messages@ + seq![m]);
        }
    }
}

/// Death comes once: damage that kills yields the victim's experience and
/// leaves it not alive, with no AI to act on; any later damage changes
/// nothing, logs nothing and yields no experience.
pub proof fn law_death_happens_once(
    before: Object,
    after: Object,
    damage: int,
    r: Option<i32>,
    logged: Seq<Message>,
)
    requires
        damage_outcome(before, after, damage, r, logged),
        r.is_some(),
        before.fighter.is_some() ==> before.fighter.unwrap().on_death == DeathCallback::Monster,
    ensures
        r == Some(before.fighter.unwrap().xp),
        !after.alive,
        after.ai.is_none(),
        forall|later: Object, d: int, r2: Option<i32>, l2: Seq<Message>|
            #[trigger] damage_outcome(after, later, d, r2, l2) ==> r2.is_none() && later == after
                && l2 == Seq::<Message>::empty(),
{
}

/// The player's death comes once too: the corpse keeps a fighter at 0 hit
/// points or below, so later damage changes nothing and yields nothing.
pub proof fn law_player_death_happens_once(
    before: Object,
    after: Object,
    damage: int,
    r: Option<i32>,
    logged: Seq<Message>,
)
    requires
        damage_outcome(before, after, damage, r, logged),
        r.is_some(),
        i32::MIN <= damage <= i32::MAX,
        before.fighter.is_some() ==> before.fighter.unwrap().on_death == DeathCallback::Player,
    ensures
        r == Some(before.fighter.unwrap().xp),
        !after.alive,
        logged == seq![Message::PlayerDied],
        forall|later: Object, d: int, r2: Option<i32>, l2: Seq<Message>|
            #[trigger] damage_outcome(after, later, d, r2, l2) ==> r2.is_none() && later == after
                && l2 == Seq::<Message>::empty(),
{
}

/// An attack without advantage (power at most the target's defense) has no
/// effect: neither side changes, and exactly one no-effect message is
/// logged.
pub proof fn law_no_advantage_no_effect(a: Object, a2: Object, t: Object, t2: Object, g: Game, g2: Game)
    requires
        attack_effect(a, a2, t, t2, g, g2),
        a.spec_power(g) <= t.spec_defense(g),
    ensures
        a2 == a,
        t2 == t,
        g2.messages.messages@ == g.messages.messages@.push(
            Message::AttackNoEffect { attacker: a.name, target: t.name },
        ),
        g.same_but_log(&g2),
{
    assert(seq![(Message::AttackNoEffect { attacker: a.name, target: t.name })] =~= Seq::empty().push(
        Message::AttackNoEffect { attacker: a.name, target: t.name },
    ));
    assert(g.messages.messages@ + seq![(Message::AttackNoEffect { attacker: a.name, target: t.name })]
        =~= g.messages.messages@.push(Message::AttackNoEffect { attacker: a.name, target: t.name }));
}

} // verus!
