//! The game aggregate, equipment bookkeeping and derived statistics.

use vstd::prelude::*;
use crate::log::{MessageLog, log_add};
use crate::map::{TileMap, map_wf};
use crate::object::{Color, Equipment, EquipmentSlot, Object};

verus! {

/// How many items the inventory holds at most.
pub const INVENTORY_CAPACITY: usize = 26;

pub struct Game {
    pub dungeon_level: i32,
    pub map: TileMap,
    pub fov_recompute: bool,
    pub log: MessageLog,
    pub inventory: Vec<Object>,
}

impl Game {
    /// The map has its full size and the inventory is within capacity.
    pub open spec fn wf(&self) -> bool {
        &&& map_wf(self.map@)
        &&& self.inventory@.len() <= INVENTORY_CAPACITY
    }

    /// Tests `wf`, for state that comes from outside (a loaded save).
    pub fn check_wf(&self) -> (r: bool)
        ensures
            r == self.wf(),
    {
        if self.map.len() != crate::map::MAP_WIDTH as usize {
            return false;
        }
        let mut x: usize = 0;
        while x < self.map.len()
            invariant
                self.map@.len() == crate::map::MAP_WIDTH,
                x <= self.map@.len(),
                forall|i: int| 0 <= i < x ==> (#[trigger] self.map@[i])@.len() == crate::map::MAP_HEIGHT,
            decreases self.map@.len() - x,
        {
            if self.map[x].len() != crate::map::MAP_HEIGHT as usize {
                return false;
            }
            x += 1;
        }
        self.inventory.len() <= INVENTORY_CAPACITY
    }
}

pub open spec fn is_equipped_item(o: Object) -> bool {
    match o.equipment {
        Some(e) => e.is_equipped,
        None => false,
    }
}

pub open spec fn equipped_in_slot(o: Object, slot: EquipmentSlot) -> bool {
    match o.equipment {
        Some(e) => e.is_equipped && e.slot == slot,
        None => false,
    }
}

/// No object of the collection is equipped.
pub open spec fn none_equipped(objects: Seq<Object>) -> bool {
    forall|j: int| 0 <= j < objects.len() ==> !is_equipped_item(#[trigger] objects[j])
}

/// No two inventory items are equipped in the same slot.
pub open spec fn one_per_slot(inv: Seq<Object>) -> bool {
    forall|i: int, j: int|
        0 <= i < inv.len() && 0 <= j < inv.len() && i != j && #[trigger] is_equipped_item(inv[i])
            && #[trigger] is_equipped_item(inv[j]) ==> inv[i].equipment->Some_0.slot
            != inv[j].equipment->Some_0.slot
}

/// The equipment components of the equipped items, in inventory order.
pub open spec fn equipped_in(inv: Seq<Object>) -> Seq<Equipment>
    decreases inv.len(),
{
    if inv.len() == 0 {
        Seq::empty()
    } else if is_equipped_item(inv.last()) {
        equipped_in(inv.drop_last()).push(inv.last().equipment->Some_0)
    } else {
        equipped_in(inv.drop_last())
    }
}

/// Which of an item's bonuses is meant.
#[derive(Clone, Copy, Debug, PartialEq, Eq, Structural)]
pub enum Bonus {
    Power,
    Defense,
    MaxHp,
}

pub open spec fn bonus_of(e: Equipment, which: Bonus) -> int {
    match which {
        Bonus::Power => e.power_bonus as int,
        Bonus::Defense => e.defense_bonus as int,
        Bonus::MaxHp => e.max_hp_bonus as int,
    }
}

/// The sum of one kind of bonus over some equipment.
pub open spec fn sum_bonus(e: Seq<Equipment>, which: Bonus) -> int
    decreases e.len(),
{
    if e.len() == 0 { 0 } else { sum_bonus(e.drop_last(), which) + bonus_of(e.last(), which) }
}

/// The equipment whose bonuses count for `o`: the player's equipped items;
/// nothing for anyone else.
pub open spec fn bonus_items(o: Object, inv: Seq<Object>) -> Seq<Equipment> {
    if o.is_player_spec() {
        equipped_in(inv)
    } else {
        Seq::empty()
    }
}

pub open spec fn spec_full_power(o: Object, inv: Seq<Object>) -> int {
    (match o.fighter {
        Some(f) => f.base_power as int,
        None => 0,
    }) + sum_bonus(bonus_items(o, inv), Bonus::Power)
}

pub open spec fn spec_full_defense(o: Object, inv: Seq<Object>) -> int {
    (match o.fighter {
        Some(f) => f.base_defense as int,
        None => 0,
    }) + sum_bonus(bonus_items(o, inv), Bonus::Defense)
}

pub open spec fn spec_full_max_hp(o: Object, inv: Seq<Object>) -> int {
    (match o.fighter {
        Some(f) => f.base_max_hp as int,
        None => 0,
    }) + sum_bonus(bonus_items(o, inv), Bonus::MaxHp)
}

pub proof fn lemma_equipped_len(inv: Seq<Object>)
    ensures
        equipped_in(inv).len() <= inv.len(),
    decreases inv.len(),
{
    if inv.len() > 0 {
        lemma_equipped_len(inv.drop_last());
    }
}

pub open spec fn slot_label(s: EquipmentSlot) -> Seq<char> {
    match s {
        EquipmentSlot::RightHand => "right hand"@,
        EquipmentSlot::LeftHand => "left hand"@,
    }
}

impl EquipmentSlot {
    /// How the slot is named in messages.
    pub fn label(&self) -> (r: &'static str)
        ensures
            r@ == slot_label(*self),
    {
        match self {
            EquipmentSlot::RightHand => "right hand",
            EquipmentSlot::LeftHand => "left hand",
        }
    }
}

pub open spec fn equip_text(name: Seq<char>, slot: EquipmentSlot) -> Seq<char> {
    "Equipped "@ + name + " on "@ + slot_label(slot) + "."@
}

pub open spec fn dequip_text(name: Seq<char>, slot: EquipmentSlot) -> Seq<char> {
    "Dequipped "@ + name + " from "@ + slot_label(slot) + "."@
}

/// Position of the first inventory item equipped in `slot`.
pub fn get_equipped_in_slot(slot: EquipmentSlot, inventory: &Vec<Object>) -> (r: Option<usize>)
    ensures
        match r {
            Some(i) => i < inventory@.len() && equipped_in_slot(inventory@[i as int], slot)
                && forall|j: int| 0 <= j < i ==> !equipped_in_slot(#[trigger] inventory@[j], slot),
            None => forall|j: int|
                0 <= j < inventory@.len() ==> !equipped_in_slot(#[trigger] inventory@[j], slot),
        },
{
    let mut i: usize = 0;
    while i < inventory.len()
        invariant
            i <= inventory@.len(),
            forall|j: int| 0 <= j < i ==> !equipped_in_slot(#[trigger] inventory@[j], slot),
        decreases inventory@.len() - i,
    {
        let found = match &inventory[i].equipment {
            Some(e) => e.is_equipped && e.slot == slot,
            None => false,
        };
        if found {
            return Some(i);
        }
        i += 1;
    }
    None
}

impl Object {
    /// The equipment whose bonuses count for this object.
    pub fn get_all_equipped(&self, game: &Game) -> (r: Vec<Equipment>)
        ensures
            r@ == bonus_items(*self, game.inventory@),
    {
        let mut r: Vec<Equipment> = Vec::new();
        if self.is_player() {
            let mut i: usize = 0;
            while i < game.inventory.len()
                invariant
                    i <= game.inventory@.len(),
                    self.is_player_spec(),
                    r@ == equipped_in(game.inventory@.subrange(0, i as int)),
                decreases game.inventory@.len() - i,
            {
                let ghost pre = game.inventory@.subrange(0, i as int);
                let ghost next = game.inventory@.subrange(0, i + 1);
                assert(next.drop_last() =~= pre);
                match &game.inventory[i].equipment {
                    Some(e) => {
                        if e.is_equipped {
                            r.push(*e);
                        }
                    },
                    None => {},
                }
                i += 1;
            }
            assert(game.inventory@.subrange(0, game.inventory@.len() as int) =~= game.inventory@);
        }
        r
    }

    /// The sum of one kind of bonus over the equipment that counts for this
    /// object.
    pub fn equipped_bonus(&self, game: &Game, which: Bonus) -> (r: i64)
        requires
            game.inventory@.len() <= INVENTORY_CAPACITY,
        ensures
            r == sum_bonus(bonus_items(*self, game.inventory@), which),
            -0x8000_0000 * INVENTORY_CAPACITY <= r <= 0x8000_0000 * INVENTORY_CAPACITY,
    {
        let items = self.get_all_equipped(game);
        proof {
            lemma_equipped_len(game.inventory@);
        }
        let mut bonus: i64 = 0;
        let mut i: usize = 0;
        while i < items.len()
            invariant
                i <= items@.len() <= INVENTORY_CAPACITY,
                items@ == bonus_items(*self, game.inventory@),
                bonus == sum_bonus(items@.subrange(0, i as int), which),
                -0x8000_0000 * i <= bonus <= 0x8000_0000 * i,
            decreases items@.len() - i,
        {
            assert(items@.subrange(0, i + 1).drop_last() =~= items@.subrange(0, i as int));
            let e = items[i];
            let b: i64 = match which {
                Bonus::Power => e.power_bonus as i64,
                Bonus::Defense => e.defense_bonus as i64,
                Bonus::MaxHp => e.max_hp_bonus as i64,
            };
            bonus = bonus + b;
            i += 1;
        }
        assert(items@.subrange(0, items@.len() as int) =~= items@);
        bonus
    }

    /// Base power plus the power bonuses of equipped items.
    pub fn full_power(&self, game: &Game) -> (r: i64)
        requires
            game.inventory@.len() <= INVENTORY_CAPACITY,
        ensures
            r == spec_full_power(*self, game.inventory@),
            -0x10_0000_0000 <= r <= 0x10_0000_0000,
    {
        let base: i64 = match &self.fighter {
            Some(f) => f.base_power as i64,
            None => 0,
        };
        base + self.equipped_bonus(game, Bonus::Power)
    }

    /// Base defense plus the defense bonuses of equipped items.
    pub fn full_defense(&self, game: &Game) -> (r: i64)
        requires
            game.inventory@.len() <= INVENTORY_CAPACITY,
        ensures
            r == spec_full_defense(*self, game.inventory@),
            -0x10_0000_0000 <= r <= 0x10_0000_0000,
    {
        let base: i64 = match &self.fighter {
            Some(f) => f.base_defense as i64,
            None => 0,
        };
        base + self.equipped_bonus(game, Bonus::Defense)
    }

    /// Base maximum HP plus the HP bonuses of equipped items.
    pub fn full_max_hp(&self, game: &Game) -> (r: i64)
        requires
            game.inventory@.len() <= INVENTORY_CAPACITY,
        ensures
            r == spec_full_max_hp(*self, game.inventory@),
            -0x10_0000_0000 <= r <= 0x10_0000_0000,
    {
        let base: i64 = match &self.fighter {
            Some(f) => f.base_max_hp as i64,
            None => 0,
        };
        base + self.equipped_bonus(game, Bonus::MaxHp)
    }

    /// Marks the object's equipment as equipped and says so in the log.
    pub fn equip(&mut self, messages: &mut MessageLog)
        ensures
            match old(self).equipment {
                Some(e) => {
                    &&& *final(self) == (Object {
                        equipment: Some(Equipment { is_equipped: true, ..e }),
                        ..*old(self)
                    })
                    &&& final(messages)@ == log_add(
                        old(messages)@,
                        (equip_text(old(self).name@, e.slot), Color::LightGreen),
                    )
                },
                None => *final(self) == *old(self) && final(messages)@ == old(messages)@,
            },
    {
        match self.equipment {
            Some(e) => {
                self.equipment = Some(Equipment { is_equipped: true, ..e });
                let text = String::from_str("Equipped ").concat(self.name.as_str()).concat(
                    " on ",
                ).concat(e.slot.label()).concat(".");
                messages.add(text, Color::LightGreen);
            },
            None => {},
        }
    }

    /// Marks the object's equipment as not equipped, if it was, and says so
    /// in the log.
    pub fn dequip(&mut self, messages: &mut MessageLog)
        ensures
            match old(self).equipment {
                Some(e) => if e.is_equipped {
                    &&& *final(self) == (Object {
                        equipment: Some(Equipment { is_equipped: false, ..e }),
                        ..*old(self)
                    })
                    &&& final(messages)@ == log_add(
                        old(messages)@,
                        (dequip_text(old(self).name@, e.slot), Color::LightYellow),
                    )
                } else {
                    *final(self) == *old(self) && final(messages)@ == old(messages)@
                },
                None => *final(self) == *old(self) && final(messages)@ == old(messages)@,
            },
    {
        match self.equipment {
            Some(e) => {
                if e.is_equipped {
                    self.equipment = Some(Equipment { is_equipped: false, ..e });
                    let text = String::from_str("Dequipped ").concat(self.name.as_str()).concat(
                        " from ",
                    ).concat(e.slot.label()).concat(".");
                    messages.add(text, Color::LightYellow);
                }
            },
            None => {},
        }
    }
}

} // verus!
