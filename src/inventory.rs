//! Equipping, the inventory, picking up and dropping items.

use crate::combat::is_equipped;
use crate::game::{Game, INVENTORY_CAPACITY};
use crate::object::{Equipment, Message, Object, Slot, PLAYER};
use vstd::prelude::*;

verus! {

/// `o` is equipped in `slot`.
pub open spec fn equipped_in(o: Object, slot: Slot) -> bool {
    is_equipped(o) && o.equipment.unwrap().slot == slot
}

/// Index of the first item of `inv` equipped in `slot`, if any.
pub open spec fn first_in_slot(inv: Seq<Object>, slot: Slot) -> Option<int>
    decreases inv.len(),
{
    if inv.len() == 0 {
        None
    } else {
        match first_in_slot(inv.drop_last(), slot) {
            Some(i) => Some(i),
            None => if equipped_in(inv.last(), slot) {
                Some(inv.len() - 1)
            } else {
                None
            },
        }
    }
}

/// At most one item of `inv` is equipped in each slot.
pub open spec fn slots_unique(inv: Seq<Object>) -> bool {
    forall|i: int, j: int, s: Slot|
        0 <= i < inv.len() && 0 <= j < inv.len() && #[trigger] equipped_in(inv[i], s)
            && #[trigger] equipped_in(inv[j], s) ==> i == j
}

/// The object and the log entries that `equip` yields for `o`.
pub open spec fn equip_effect(o: Object) -> (Object, Seq<Message>) {
    if o.item.is_none() {
        (o, seq![Message::NotAnItem { name: o.name }])
    } else {
        match o.equipment {
            Some(e) => if e.equipped {
                (o, Seq::empty())
            } else {
                (
                    Object { equipment: Some(Equipment { equipped: true, ..e }), ..o },
                    seq![Message::Equipped { name: o.name, slot: e.slot }],
                )
            },
            None => (o, seq![Message::NotEquipment { name: o.name }]),
        }
    }
}

/// The object and the log entries that `dequip` yields for `o`.
pub open spec fn dequip_effect(o: Object) -> (Object, Seq<Message>) {
    if o.item.is_none() {
        (o, seq![Message::NotAnItem { name: o.name }])
    } else {
        match o.equipment {
            Some(e) => if !e.equipped {
                (o, Seq::empty())
            } else {
                (
                    Object { equipment: Some(Equipment { equipped: false, ..e }), ..o },
                    seq![Message::Dequipped { name: o.name, slot: e.slot }],
                )
            },
            None => (o, seq![Message::NotEquipment { name: o.name }]),
        }
    }
}

impl Object {
    /// Marks an item's equipment equipped and logs it; an item already
    /// equipped is left alone. An object that is not an item, or has no
    /// equipment, is not changed and the refusal is logged.
    pub fn equip(&mut self, messages: &mut crate::object::Messages)
        ensures
            *final(self) == equip_effect(*old(self)).0,
            final(messages).messages@ == old(messages).messages@ + equip_effect(*old(self)).1,
    {
        if self.item.is_none() {
            let m = Message::NotAnItem { name: self.name.clone() };
            messages.add(m);
            assert(messages.messages@ =~= old(messages).messages@ + seq![m]);
            return ;
        }
        match self.equipment {
            Some(e) => {
                if !e.equipped {
                    self.equipment = Some(Equipment { equipped: true, ..e });
                    let m = Message::Equipped { name: self.name.clone(), slot: e.slot };
                    messages.add(m);
                    assert(messages.messages@ =~= old(messages).messages@ + seq![m]);
                } else {
                    assert(messages.messages@ =~= old(messages).messages@ + Seq::<Message>::empty());
                }
            },
            None => {
                let m = Message::NotEquipment { name: self.name.clone() };
                messages.add(m);
                assert(messages.messages@ =~= old(messages).messages@ + seq![m]);
            },
        }
    }

    /// Marks an item's equipment not equipped and logs it; doing so twice
    /// changes nothing more. An object that is not an item, or has no
    /// equipment, is not changed and the refusal is logged.
    pub fn dequip(&mut self, messages: &mut crate::object::Messages)
        ensures
            *final(self) == dequip_effect(*old(self)).0,
            final(messages).messages@ == old(messages).messages@ + dequip_effect(*old(self)).1,
    {
        if self.item.is_none() {
            let m = Message::NotAnItem { name: self.name.clone() };
            messages.add(m);
            assert(messages.messages@ =~= old(messages).messages@ + seq![m]);
            return ;
        }
        match self.equipment {
            Some(e) => {
                if e.equipped {
                    self.equipment = Some(Equipment { equipped: false, ..e });
                    let m = Message::Dequipped { name: self.name.clone(), slot: e.slot };
                    messages.add(m);
                    assert(messages.messages@ =~= old(messages).messages@ + seq![m]);
                } else {
                    assert(messages.messages@ =~= old(messages).messages@ + Seq::<Message>::empty());
                }
            },
            None => {
                let m = Message::NotEquipment { name: self.name.clone() };
                messages.add(m);
                assert(messages.messages@ =~= old(messages).messages@ + seq![m]);
            },
        }
    }
}

/// Index of the first item of `inventory` equipped in `slot`.
pub fn get_equipped_in_slot(slot: Slot, inventory: &Vec<Object>) -> (r: Option<usize>)
    ensures
        match r {
            Some(i) => first_in_slot(inventory@, slot) == Some(i as int),
            None => first_in_slot(inventory@, slot).is_none(),
        },
{
    let mut i: usize = 0;
    while i < inventory.len()
        invariant
            i <= inventory@.len(),
            first_in_slot(inventory@.take(i as int), slot).is_none(),
        decreases inventory@.len() - i,
    {
        assert(inventory@.take(i + 1).drop_last() =~= inventory@.take(i as int));
        if let Some(e) = inventory[i].equipment {
            if e.equipped && e.slot == slot {
                proof { lemma_first_in_slot_prefix(inventory@, slot, i + 1); }
                return Some(i);
            }
        }
        i = i + 1;
    }
    assert(inventory@.take(i as int) =~= inventory@);
    None
}

/// Where a prefix already has an item equipped in the slot, so does the
/// whole sequence, at the same index.
proof fn lemma_first_in_slot_prefix(inv: Seq<Object>, slot: Slot, n: int)
    requires
        0 <= n <= inv.len(),
        first_in_slot(inv.take(n), slot).is_some(),
    ensures
        first_in_slot(inv, slot) == first_in_slot(inv.take(n), slot),
        0 <= first_in_slot(inv, slot).unwrap() < n,
    decreases inv.len() - n,
{
    if n < inv.len() {
        assert(inv.take(n + 1).drop_last() =~= inv.take(n));
        lemma_first_in_slot_prefix(inv, slot, n + 1);
    } else {
        assert(inv.take(n) =~= inv);
    }
    lemma_first_in_slot_range(inv.take(n), slot);
}

/// The first index equipped in a slot lies within the sequence.
proof fn lemma_first_in_slot_range(inv: Seq<Object>, slot: Slot)
    ensures
        first_in_slot(inv, slot) matches Some(i) ==> 0 <= i < inv.len() && equipped_in(inv[i], slot),
    decreases inv.len(),
{
    if inv.len() > 0 {
        lemma_first_in_slot_range(inv.drop_last(), slot);
    }
}

/// What using an item came to.
#[derive(Clone, Copy, Debug, PartialEq, Eq, Structural)]
pub enum UseResult {
    UsedUp,
    Cancelled,
    UsedAndKept,
    UseCharge,
}

/// Every inventory entry is an item, and at most one is equipped per slot.
pub open spec fn inventory_wf(inv: Seq<Object>) -> bool {
    &&& slots_unique(inv)
    &&& forall|i: int| 0 <= i < inv.len() ==> (#[trigger] inv[i]).item.is_some()
}

/// The inventory and log entries that toggling item `id` yields: whatever
/// is equipped in its slot is taken off first, then the item is taken off
/// if it was on, put on otherwise.
pub open spec fn toggle_effect(inv: Seq<Object>, id: int) -> (Seq<Object>, Seq<Message>) {
    match inv[id].equipment {
        None => (inv, Seq::empty()),
        Some(e) => {
            let inv1 = match first_in_slot(inv, e.slot) {
                Some(c) => inv.update(c, dequip_effect(inv[c]).0),
                None => inv,
            };
            let m1 = match first_in_slot(inv, e.slot) {
                Some(c) => dequip_effect(inv[c]).1,
                None => Seq::empty(),
            };
            let step = if e.equipped {
                dequip_effect(inv1[id])
            } else {
                equip_effect(inv1[id])
            };
            (inv1.update(id, step.0), m1 + step.1)
        },
    }
}

/// Takes equipment off or puts it on, first taking off whatever holds the
/// same slot. An item without equipment is cancelled and nothing changes.
pub fn toggle_equipment(inventory_id: usize, game: &mut Game) -> (r: UseResult)
    requires
        inventory_id < old(game).inventory@.len(),
    ensures
        r == if old(game).inventory@[inventory_id as int].equipment.is_none() {
            UseResult::Cancelled
        } else {
            UseResult::UsedAndKept
        },
        final(game).inventory@ == toggle_effect(old(game).inventory@, inventory_id as int).0,
        final(game).messages.messages@ == old(game).messages.messages@ + toggle_effect(
            old(game).inventory@,
            inventory_id as int,
        ).1,
        final(game).map == old(game).map,
        final(game).dungeon_level == old(game).dungeon_level,
{
    let equipment = match game.inventory[inventory_id].equipment {
        Some(equipment) => equipment,
        None => {
            return UseResult::Cancelled;
        },
    };
    let ghost inv0 = game.inventory@;
    let ghost log0 = game.messages.messages@;
    let current = get_equipped_in_slot(equipment.slot, &game.inventory);
    proof { lemma_first_in_slot_range(inv0, equipment.slot); }
    if let Some(c) = current {
        game.inventory[c].dequip(&mut game.messages);
    } else {
        assert(game.messages.messages@ =~= log0 + Seq::<Message>::empty());
    }
    assert(game.inventory@ == toggle_effect_first(inv0, equipment.slot));
    if equipment.equipped {
        game.inventory[inventory_id].dequip(&mut game.messages);
    } else {
        game.inventory[inventory_id].equip(&mut game.messages);
    }
    assert(game.messages.messages@ =~= log0 + toggle_effect(inv0, inventory_id as int).1);
    UseResult::UsedAndKept
}

/// The inventory after whatever is equipped in `slot` is taken off.
pub open spec fn toggle_effect_first(inv: Seq<Object>, slot: Slot) -> Seq<Object> {
    match first_in_slot(inv, slot) {
        Some(c) => inv.update(c, dequip_effect(inv[c]).0),
        None => inv,
    }
}

/// No item is equipped in `slot` when the search finds none.
proof fn lemma_first_in_slot_none(inv: Seq<Object>, slot: Slot)
    requires
        first_in_slot(inv, slot).is_none(),
    ensures
        forall|i: int| 0 <= i < inv.len() ==> !equipped_in(#[trigger] inv[i], slot),
    decreases inv.len(),
{
    if inv.len() > 0 {
        lemma_first_in_slot_none(inv.drop_last(), slot);
        assert forall|i: int| 0 <= i < inv.len() implies !equipped_in(#[trigger] inv[i], slot) by {
            if i < inv.len() - 1 {
                assert(inv.drop_last()[i] == inv[i]);
            }
        }
    }
}

/// Toggling equipment keeps every entry an item and at most one item
/// equipped per slot.
pub proof fn lemma_toggle_keeps_slots_unique(inv: Seq<Object>, id: int)
    requires
        inventory_wf(inv),
        0 <= id < inv.len(),
    ensures
        inventory_wf(toggle_effect(inv, id).0),
{
    if let Some(e) = inv[id].equipment {
        let s = e.slot;
        lemma_first_in_slot_range(inv, s);
        if first_in_slot(inv, s).is_none() {
            lemma_first_in_slot_none(inv, s);
        }
        let inv1 = toggle_effect_first(inv, s);
        // after the first step nothing is equipped in `s`
        assert forall|i: int| 0 <= i < inv1.len() implies !equipped_in(#[trigger] inv1[i], s) by {
            if let Some(c) = first_in_slot(inv, s) {
                if i != c {
                    assert(inv1[i] == inv[i]);
                    assert(equipped_in(inv[c], s));
                }
            }
        }
        let out = toggle_effect(inv, id).0;
        assert forall|i: int, j: int, t: Slot|
            0 <= i < out.len() && 0 <= j < out.len() && #[trigger] equipped_in(out[i], t)
                && #[trigger] equipped_in(out[j], t) implies i == j by {
            if i != j {
                if i != id && j != id {
                    assert(out[i] == inv1[i] && out[j] == inv1[j]);
                    if let Some(c) = first_in_slot(inv, s) {
                        if i != c {
                            assert(inv1[i] == inv[i]);
                        }
                        if j != c {
                            assert(inv1[j] == inv[j]);
                        }
                    } else {
                        assert(inv1[i] == inv[i] && inv1[j] == inv[j]);
                    }
                } else {
                    let k = if i == id { j } else { i };
                    assert(equipped_in(out[k], t));
                    assert(out[k] == inv1[k]);
                    if t == s {
                        assert(!equipped_in(inv1[k], s));
                    } else {
                        assert(equipped_in(out[id], t));
                        assert(out[id].equipment.unwrap().slot == s);
                    }
                }
            }
        }
        assert forall|i: int| 0 <= i < out.len() implies (#[trigger] out[i]).item.is_some() by {
            if i != id {
                if let Some(c) = first_in_slot(inv, s) {
                    if i != c {
                        assert(inv1[i] == inv[i]);
                    }
                }
            }
        }
    }
}

/// Equipping `x` and then `y`, two items for the same slot that were both
/// off, leaves `y` on, `x` off, and `y` the only item on in that slot.
pub proof fn law_equip_replaces(inv: Seq<Object>, x: int, y: int)
    requires
        inventory_wf(inv),
        0 <= x < inv.len(),
        0 <= y < inv.len(),
        x != y,
        inv[x].equipment.is_some(),
        inv[y].equipment.is_some(),
        !inv[x].equipment.unwrap().equipped,
        !inv[y].equipment.unwrap().equipped,
        inv[x].equipment.unwrap().slot == inv[y].equipment.unwrap().slot,
    ensures
        ({
            let after = toggle_effect(toggle_effect(inv, x).0, y).0;
            let s = inv[y].equipment.unwrap().slot;
            &&& equipped_in(after[y], s)
            &&& !is_equipped(after[x])
            &&& inventory_wf(after)
            &&& forall|i: int| 0 <= i < after.len() && #[trigger] equipped_in(after[i], s) ==> i == y
        }),
{
    let s = inv[y].equipment.unwrap().slot;
    lemma_toggle_keeps_slots_unique(inv, x);
    let mid = toggle_effect(inv, x).0;
    lemma_first_in_slot_range(inv, s);
    if let Some(c) = first_in_slot(inv, s) {
        assert(c != x && c != y);
    }
    assert(mid[y] == inv[y]);
    assert(equipped_in(mid[x], s));
    lemma_toggle_keeps_slots_unique(mid, y);
    lemma_first_in_slot_range(mid, s);
    if first_in_slot(mid, s).is_none() {
        lemma_first_in_slot_none(mid, s);
        assert(!equipped_in(mid[x], s));
    }
    let c2 = first_in_slot(mid, s).unwrap();
    assert(c2 == x);
    let after = toggle_effect(mid, y).0;
    assert(equipped_in(after[y], s));
}

/// The item as it enters inventory `inv`, and the log entries: equipment is
/// put on when nothing in the inventory, the item included, holds its slot.
pub open spec fn pickup_effect(inv: Seq<Object>, item: Object) -> (Object, Seq<Message>) {
    match item.equipment {
        Some(e) => if first_in_slot(inv.push(item), e.slot).is_none() {
            equip_effect(item)
        } else {
            (item, Seq::empty())
        },
        None => (item, Seq::empty()),
    }
}

/// What picking up roster entry `id` does: with the inventory full, only
/// the refusal is logged; otherwise the entry leaves the roster (the last
/// entry takes its place) and joins the inventory, put on when its slot is
/// free.
pub open spec fn pick_effect(id: int, o0: Seq<Object>, g0: Game, o1: Seq<Object>, g1: Game) -> bool {
    if g0.inventory@.len() >= INVENTORY_CAPACITY {
        &&& o1 == o0
        &&& g0.logged(&g1, seq![(Message::InventoryFull { name: o0[id].name })])
    } else {
        let item = o0[id];
        let (entered, equipping) = pickup_effect(g0.inventory@, item);
        &&& o1 == o0.update(id, o0.last()).drop_last()
        &&& g1.inventory@ == g0.inventory@.push(entered)
        &&& g1.messages.messages@ == g0.messages.messages@ + seq![(Message::PickedUp { name: item.name })]
            + equipping
        &&& g1.map == g0.map
        &&& g1.dungeon_level == g0.dungeon_level
    }
}

/// Moves roster entry `object_id` into the inventory, equipping it when its
/// slot is free. With the inventory full, nothing moves and the refusal is
/// logged: the item stays on the map.
pub fn pick_item_up(object_id: usize, game: &mut Game, objects: &mut Vec<Object>)
    requires
        object_id < old(objects)@.len(),
    ensures
        pick_effect(object_id as int, old(objects)@, *old(game), final(objects)@, *final(game)),
{
    if game.inventory.len() >= INVENTORY_CAPACITY {
        let m = Message::InventoryFull { name: objects[object_id].name.clone() };
        game.messages.add(m);
        assert(game.messages.messages@ =~= old(game).messages.messages@ + seq![m]);
    } else {
        let item = objects.swap_remove(object_id);
        let m = Message::PickedUp { name: item.name.clone() };
        game.messages.add(m);
        let ghost log1 = game.messages.messages@;
        let ghost inv0 = game.inventory@;
        let index = game.inventory.len();
        let slot = match item.equipment {
            Some(e) => Some(e.slot),
            None => None,
        };
        game.inventory.push(item);
        if let Some(slot) = slot {
            if get_equipped_in_slot(slot, &game.inventory).is_none() {
                game.inventory[index].equip(&mut game.messages);
                assert(game.inventory@ =~= inv0.push(pickup_effect(inv0, item).0));
            } else {
                assert(game.messages.messages@ =~= log1 + pickup_effect(inv0, item).1);
            }
        } else {
            assert(game.messages.messages@ =~= log1 + pickup_effect(inv0, item).1);
        }
        assert(game.messages.messages@ =~= old(game).messages.messages@ + seq![m] + pickup_effect(inv0, item).1);
    }
}

/// Equipment as it is when not worn.
pub open spec fn taken_off(e: Option<Equipment>) -> Option<Equipment> {
    match e {
        Some(e) => Some(Equipment { equipped: false, ..e }),
        None => None,
    }
}

/// What dropping inventory entry `id` does: it leaves the inventory, taken
/// off first if it is equipment (whatever `dequip` logs), and joins the
/// roster at the player's position, not worn; the drop is logged.
pub open spec fn drop_effect(id: int, o0: Seq<Object>, g0: Game, o1: Seq<Object>, g1: Game) -> bool {
    let item = g0.inventory@[id];
    let (off, logged) = if item.equipment.is_some() {
        dequip_effect(item)
    } else {
        (item, Seq::empty())
    };
    let player = o0[PLAYER as int];
    &&& g1.inventory@ == g0.inventory@.remove(id)
    &&& o1 == o0.push(Object { x: player.x, y: player.y, equipment: taken_off(off.equipment), ..off })
    &&& g1.messages.messages@ == g0.messages.messages@ + logged + seq![(Message::Dropped { name: item.name })]
    &&& g1.map == g0.map
    &&& g1.dungeon_level == g0.dungeon_level
}

/// Moves inventory entry `inventory_id` to the roster at the player's
/// position, taking it off first if it is equipment, and logs the drop.
pub fn drop_item(inventory_id: usize, game: &mut Game, objects: &mut Vec<Object>)
    requires
        inventory_id < old(game).inventory@.len(),
        old(objects)@.len() > PLAYER,
    ensures
        drop_effect(inventory_id as int, old(objects)@, *old(game), final(objects)@, *final(game)),
{
    let mut item = game.inventory.remove(inventory_id);
    if item.equipment.is_some() {
        item.dequip(&mut game.messages);
    } else {
        assert(game.messages.messages@ =~= old(game).messages.messages@ + Seq::<Message>::empty());
    }
    if let Some(e) = item.equipment {
        item.equipment = Some(Equipment { equipped: false, ..e });
    }
    item.set_pos(objects[PLAYER].x, objects[PLAYER].y);
    let ghost log1 = game.messages.messages@;
    let m = Message::Dropped { name: item.name.clone() };
    game.messages.add(m);
    assert(game.messages.messages@ =~= log1 + seq![m]);
    objects.push(item);
}

} // verus!
