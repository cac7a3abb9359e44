//! Picking up, using and dropping items.

use vstd::prelude::*;
use crate::ai::FovGrid;
use crate::combat::same_but_log;
use crate::game::{
    dequip_text,
    Game, INVENTORY_CAPACITY, equipped_in_slot, get_equipped_in_slot, is_equipped_item,
    one_per_slot,
};
use crate::log::log_add;
use crate::object::{Color, Item, Object, PLAYER, UseResult};
use crate::ai::same_equipment;
use crate::spells::{
    FIREBALL_DAMAGE, LIGHTNING_DAMAGE, Target, lightning_target, burned, cast_confuse,
    cast_fireball, cast_heal, cast_lightning, confuse_outcome, credit_kills, credited,
    equip_or_dequip, fireball_result, heal_outcome, hit_result,
    lightning_outcome, toggle_outcome, with_equipped,
};
use crate::combat::hit_kills;

verus! {

/// What using an item of kind `item` (at `id` in the inventory) makes of the
/// objects and the game, before a used-up item leaves the inventory.
pub open spec fn item_effect(
    item: Item,
    id: int,
    o: Seq<Object>,
    g: Game,
    fov: Seq<Vec<bool>>,
    target: Option<Target>,
    o2: Seq<Object>,
    g2: Game,
    r: UseResult,
) -> bool {
    match item {
        Item::Heal => heal_outcome(o, g, o2, g2, r),
        Item::Lightning => lightning_outcome(o, g, fov, o2, g2, r),
        Item::Fireball => fireball_result(o, g, target, o2, g2, r),
        Item::Confuse => confuse_outcome(o, g, fov, target, o2, g2, r),
        Item::Sword | Item::Shield => {
            &&& o2 == o
            &&& g2.dungeon_level == g.dungeon_level
            &&& g2.map == g.map
            &&& g2.fov_recompute == g.fov_recompute
            &&& toggle_outcome(g.inventory@, id, g2.inventory@, r)
        },
    }
}

proof fn lemma_credit_kills_keeps_equipment(p: Object, objs: Seq<Object>, x: int, y: int, n: int)
    ensures
        credit_kills(p, objs, x, y, n).equipment == p.equipment,
    decreases n,
{
    if n > 1 {
        lemma_credit_kills_keeps_equipment(p, objs, x, y, n - 1);
    }
}

/// No item effect changes the equipment of any object in the world.
pub proof fn lemma_item_effect_keeps_equipment(
    item: Item,
    id: int,
    o: Seq<Object>,
    g: Game,
    fov: Seq<Vec<bool>>,
    target: Option<Target>,
    o2: Seq<Object>,
    g2: Game,
    r: UseResult,
)
    requires
        item_effect(item, id, o, g, fov, target, o2, g2, r),
        o.len() > PLAYER,
    ensures
        same_equipment(o, o2),
{
    match item {
        Item::Heal => {
            assert forall|j: int| 0 <= j < o.len() implies (#[trigger] o2[j]).equipment == o[j].equipment by {
                if j != PLAYER {
                    assert(o2[j] == o[j]);
                }
            }
        },
        Item::Lightning => {
            if r != UseResult::Cancelled {
                let i = choose|i: int| {
                    &&& lightning_target(o, fov, i)
                    &&& hit_result(o[i], LIGHTNING_DAMAGE as int, o2[i])
                    &&& o2[PLAYER as int] == if hit_kills(o[i], LIGHTNING_DAMAGE as int) {
                        credited(o[PLAYER as int], o[i].fighter->Some_0.xp as int)
                    } else {
                        o[PLAYER as int]
                    }
                    &&& forall|j: int| 0 <= j < o.len() && j != i && j != PLAYER
                        ==> #[trigger] o2[j] == o[j]
                };
                assert forall|j: int| 0 <= j < o.len() implies (#[trigger] o2[j]).equipment == o[j].equipment by {
                    if j != i && j != PLAYER {
                        assert(o2[j] == o[j]);
                    }
                }
            }
        },
        Item::Fireball => {
            match target {
                Some(Target::Tile { x, y }) => {
                    let p_hit = choose|p_hit: Object| {
                        &&& if burned(o[PLAYER as int], x as int, y as int) {
                            hit_result(o[PLAYER as int], FIREBALL_DAMAGE as int, p_hit)
                        } else {
                            p_hit == o[PLAYER as int]
                        }
                        &&& o2[PLAYER as int] == credit_kills(p_hit, o, x as int, y as int, o.len() as int)
                    };
                    lemma_credit_kills_keeps_equipment(p_hit, o, x as int, y as int, o.len() as int);
                    assert forall|j: int| 0 <= j < o.len() implies (#[trigger] o2[j]).equipment == o[j].equipment by {
                        if j >= 1 {
                            assert(if burned(o[j], x as int, y as int) {
                                hit_result(o[j], FIREBALL_DAMAGE as int, o2[j])
                            } else {
                                o2[j] == o[j]
                            });
                        }
                    }
                },
                _ => {},
            }
        },
        Item::Confuse => {
            match target {
                Some(Target::Monster { id: m }) => {
                    assert forall|j: int| 0 <= j < o.len() implies (#[trigger] o2[j]).equipment == o[j].equipment by {
                        if j != m {
                            assert(o2[j] == o[j]);
                        }
                    }
                },
                _ => {},
            }
        },
        Item::Sword | Item::Shield => {},
    }
}

impl Item {
    /// Runs the effect of this kind of item.
    pub fn use_item(
        &self,
        inventory_id: usize,
        objects: &mut Vec<Object>,
        game: &mut Game,
        fov: &FovGrid,
        target: Option<Target>,
    ) -> (r: UseResult)
        requires
            inventory_id < old(game).inventory@.len(),
            old(objects)@.len() > PLAYER,
            old(game).wf(),
        ensures
            item_effect(*self, inventory_id as int, old(objects)@, *old(game), fov@, target, final(objects)@, *final(game), r),
            one_per_slot(old(game).inventory@) ==> one_per_slot(final(game).inventory@),
    {
        match self {
            Item::Heal => cast_heal(objects, game),
            Item::Lightning => cast_lightning(objects, game, fov),
            Item::Fireball => cast_fireball(objects, game, target),
            Item::Confuse => cast_confuse(objects, game, fov, target),
            Item::Sword => equip_or_dequip(inventory_id, game),
            Item::Shield => equip_or_dequip(inventory_id, game),
        }
    }
}

proof fn lemma_one_per_slot_remove(inv: Seq<Object>, i: int)
    requires
        one_per_slot(inv),
        0 <= i < inv.len(),
    ensures
        one_per_slot(inv.remove(i)),
{
    let inv2 = inv.remove(i);
    assert forall|a: int, b: int|
        0 <= a < inv2.len() && 0 <= b < inv2.len() && a != b && #[trigger] is_equipped_item(inv2[a])
            && #[trigger] is_equipped_item(inv2[b]) implies inv2[a].equipment->Some_0.slot
            != inv2[b].equipment->Some_0.slot by {
        let a0 = if a < i { a } else { a + 1 };
        let b0 = if b < i { b } else { b + 1 };
        assert(inv2[a] == inv[a0] && inv2[b] == inv[b0]);
        assert(is_equipped_item(inv[a0]) && is_equipped_item(inv[b0]));
    }
}

/// What `use_item` makes of the objects and the game for the inventory
/// item at `id`: a used-up item leaves the inventory, a cancelled use is
/// logged, and an object that is no item cannot be used (`None`).
pub open spec fn use_outcome(
    id: int,
    o: Seq<Object>,
    g: Game,
    fov: Seq<Vec<bool>>,
    target: Option<Target>,
    o2: Seq<Object>,
    g2: Game,
    r: Option<UseResult>,
) -> bool {
    &&& g2.wf() == g.wf()
    &&& g2.map == g.map
    &&& g2.dungeon_level == g.dungeon_level
    &&& match g.inventory@[id].item {
        None => {
            &&& r is None
            &&& o2 == o
            &&& same_but_log(g, g2)
            &&& g2.log@ == log_add(
                g.log@,
                (
                    "The "@ + g.inventory@[id].name@ + " cannot be used."@,
                    Color::White,
                ),
            )
        },
        Some(item) => exists|g_mid: Game, res: UseResult| {
            &&& r == Some(res)
            &&& item_effect(item, id, o, g, fov, target, o2, g_mid, res)
            &&& g2.inventory@ == if res == UseResult::UsedUp {
                g_mid.inventory@.remove(id)
            } else {
                g_mid.inventory@
            }
            &&& g2.fov_recompute == g_mid.fov_recompute
            &&& g2.log@ == if res == UseResult::Cancelled {
                log_add(g_mid.log@, ("Cancelled"@, Color::White))
            } else {
                g_mid.log@
            }
        },
    }
}

/// Uses the inventory item at `inventory_id`: an item used up leaves the
/// inventory, a cancelled use says so in the log, and an object that is no
/// item cannot be used (`None`).
pub fn use_item(
    inventory_id: usize,
    objects: &mut Vec<Object>,
    game: &mut Game,
    fov: &FovGrid,
    target: Option<Target>,
) -> (r: Option<UseResult>)
    requires
        inventory_id < old(game).inventory@.len(),
        old(objects)@.len() > PLAYER,
        old(game).wf(),
    ensures
        final(game).wf(),
        final(game).map == old(game).map,
        final(game).dungeon_level == old(game).dungeon_level,
        one_per_slot(old(game).inventory@) ==> one_per_slot(final(game).inventory@),
        use_outcome(inventory_id as int, old(objects)@, *old(game), fov@, target, final(objects)@, *final(game), r),
{
    match game.inventory[inventory_id].item {
        Some(item) => {
            let result = item.use_item(inventory_id, objects, game, fov, target);
            let ghost g_mid = *game;
            match result {
                UseResult::UsedUp => {
                    // used up: it leaves the inventory
                    proof {
                        if one_per_slot(g_mid.inventory@) {
                            lemma_one_per_slot_remove(g_mid.inventory@, inventory_id as int);
                        }
                    }
                    game.inventory.remove(inventory_id);
                },
                UseResult::UsedAndKept => {},
                UseResult::Cancelled => {
                    game.log.add(String::from_str("Cancelled"), Color::White);
                },
            }
            Some(result)
        },
        None => {
            let text = String::from_str("The ").concat(game.inventory[inventory_id].name.as_str()).concat(
                " cannot be used.",
            );
            game.log.add(text, Color::White);
            None
        },
    }
}

/// The item as it enters the inventory: equipment goes on by itself when
/// nothing is equipped in its slot yet.
pub open spec fn as_picked_up(inv: Seq<Object>, item: Object) -> Object {
    match item.equipment {
        Some(e) => if forall|j: int| 0 <= j < inv.len() + 1 ==> !equipped_in_slot(#[trigger] inv.push(item)[j], e.slot) {
            with_equipped(item, true)
        } else {
            item
        },
        None => item,
    }
}

/// Moves the object at `object_id` from the map into the inventory, unless
/// the inventory is full.
pub fn pick_item_up(object_id: usize, objects: &mut Vec<Object>, game: &mut Game)
    requires
        object_id < old(objects)@.len(),
        object_id != PLAYER,
        old(game).wf(),
    ensures
        final(game).wf(),
        final(game).map == old(game).map,
        final(game).dungeon_level == old(game).dungeon_level,
        final(game).fov_recompute == old(game).fov_recompute,
        if old(game).inventory@.len() >= INVENTORY_CAPACITY {
            &&& final(objects)@ == old(objects)@
            &&& final(game).inventory@ == old(game).inventory@
            &&& final(game).log@ == log_add(
                old(game).log@,
                ("Your inventory is full, cannot pick up "@ + old(objects)@[object_id as int].name@ + "."@, Color::Red),
            )
        } else {
            let item = old(objects)@[object_id as int];
            &&& final(objects)@ == old(objects)@.update(object_id as int, old(objects)@.last()).drop_last()
            &&& final(game).inventory@ == old(game).inventory@.push(as_picked_up(old(game).inventory@, item))
            &&& (one_per_slot(old(game).inventory@) && !is_equipped_item(item)) ==> one_per_slot(final(game).inventory@)
        },
{
    if game.inventory.len() >= INVENTORY_CAPACITY {
        let text = String::from_str("Your inventory is full, cannot pick up ").concat(
            objects[object_id].name.as_str(),
        ).concat(".");
        game.log.add(text, Color::Red);
    } else {
        let ghost inv = game.inventory@;
        let item = objects.swap_remove(object_id);
        let text = String::from_str("You picked up a ").concat(item.name.as_str()).concat("!");
        game.log.add(text, Color::Green);
        let inventory_id = game.inventory.len();
        let equipment_slot = match &item.equipment {
            Some(e) => Some(e.slot),
            None => None,
        };
        let ghost picked = item;
        game.inventory.push(item);
        // equip it by itself when its slot is free
        match equipment_slot {
            Some(slot) => {
                if get_equipped_in_slot(slot, &game.inventory).is_none() {
                    game.inventory[inventory_id].equip(&mut game.log);
                    assert(game.inventory@ =~= inv.push(with_equipped(picked, true)));
                }
            },
            None => {},
        }
        proof {
            let inv2 = game.inventory@;
            if one_per_slot(inv) && !is_equipped_item(picked) {
                assert forall|a: int, b: int|
                    0 <= a < inv2.len() && 0 <= b < inv2.len() && a != b && #[trigger] is_equipped_item(inv2[a])
                        && #[trigger] is_equipped_item(inv2[b]) implies inv2[a].equipment->Some_0.slot
                        != inv2[b].equipment->Some_0.slot by {
                    if a < inv.len() && b < inv.len() {
                        assert(inv2[a] == inv[a] && inv2[b] == inv[b]);
                    } else if a == inv.len() {
                        assert(inv2[b] == inv.push(picked)[b]);
                        assert(!equipped_in_slot(inv.push(picked)[b], picked.equipment->Some_0.slot));
                    } else {
                        assert(inv2[a] == inv.push(picked)[a]);
                        assert(!equipped_in_slot(inv.push(picked)[a], picked.equipment->Some_0.slot));
                    }
                }
            }
        }
    }
}

/// The item as it is dropped: taken off, and lying at (x, y).
pub open spec fn as_dropped(item: Object, x: i32, y: i32) -> Object {
    let off = match item.equipment {
        Some(e) => if e.is_equipped { with_equipped(item, false) } else { item },
        None => item,
    };
    Object { x, y, ..off }
}

/// Takes the item at `inventory_id` out of the inventory, takes it off, and
/// leaves it where the player stands.
pub fn drop_item(inventory_id: usize, objects: &mut Vec<Object>, game: &mut Game)
    requires
        inventory_id < old(game).inventory@.len(),
        old(objects)@.len() > PLAYER,
        old(game).wf(),
    ensures
        final(game).wf(),
        final(game).map == old(game).map,
        final(game).dungeon_level == old(game).dungeon_level,
        final(game).fov_recompute == old(game).fov_recompute,
        final(game).inventory@ == old(game).inventory@.remove(inventory_id as int),
        final(objects)@ == old(objects)@.push(
            as_dropped(
                old(game).inventory@[inventory_id as int],
                old(objects)@[PLAYER as int].x,
                old(objects)@[PLAYER as int].y,
            ),
        ),
        one_per_slot(old(game).inventory@) ==> one_per_slot(final(game).inventory@),
        ({
            let it = old(game).inventory@[inventory_id as int];
            let taken_off = if is_equipped_item(it) {
                log_add(old(game).log@, (dequip_text(it.name@, it.equipment->Some_0.slot), Color::LightYellow))
            } else {
                old(game).log@
            };
            final(game).log@ == log_add(taken_off, ("You dropped a "@ + it.name@ + "."@, Color::Yellow))
        }),
{
    proof {
        if one_per_slot(game.inventory@) {
            lemma_one_per_slot_remove(game.inventory@, inventory_id as int);
        }
    }
    let mut item = game.inventory.remove(inventory_id);
    item.dequip(&mut game.log);
    let (px, py) = objects[PLAYER].pos();
    item.set_pos(px, py);
    let text = String::from_str("You dropped a ").concat(item.name.as_str()).concat(".");
    game.log.add(text, Color::Yellow);
    objects.push(item);
}

} // verus!
