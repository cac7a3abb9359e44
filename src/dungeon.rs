//! Dungeon generation: rooms, corridors, and what is placed in them.

use vstd::prelude::*;
use crate::ai::{is_blocked, spec_blocked};
use crate::geometry::Rect;
use crate::map::{
    MAP_HEIGHT, MAP_WIDTH, Tile, TileMap, create_h_tunnel, create_room, create_v_tunnel,
    in_interior, in_map, is_floor, map_wf, new_map, on_h_segment, on_v_segment, tile_at,
};
use crate::object::{
    Color, DeathCallback, Equipment, EquipmentSlot, Fighter, Item, MonsterAI, MonsterAIType,
    Object,
};
use crate::rng::{coin_flip, gen_range, total_weight, weighted_index};
use rand::StdRng;

verus! {

pub const ROOM_MAX_SIZE: i32 = 10;
pub const ROOM_MIN_SIZE: i32 = 6;
pub const MAX_ROOMS: i32 = 30;

/// The value of a level-scaled table: the value of the last entry whose
/// level threshold is at most `level`, or 0 below the first threshold.
pub open spec fn table_value(table: Seq<(u32, i32)>, level: int) -> u32
    decreases table.len(),
{
    if table.len() == 0 {
        0
    } else if level >= table.last().1 {
        table.last().0
    } else {
        table_value(table.drop_last(), level)
    }
}

/// Returns the value that applies at `level` in a table of
/// (value, first level) pairs.
pub fn from_dungeon_level(table: &[(u32, i32)], level: i32) -> (r: u32)
    ensures
        r == table_value(table@, level as int),
{
    let mut i: usize = table.len();
    assert(table@.subrange(0, i as int) =~= table@);
    while i > 0
        invariant
            i <= table@.len(),
            table_value(table@, level as int) == table_value(table@.subrange(0, i as int), level as int),
        decreases i,
    {
        let (value, table_level) = table[i - 1];
        assert(table@.subrange(0, i as int).drop_last() =~= table@.subrange(0, i - 1));
        if level >= table_level {
            return value;
        }
        i -= 1;
    }
    0
}

pub open spec fn orc_fighter() -> Fighter {
    Fighter { hp: 20, base_max_hp: 20, base_defense: 0, base_power: 4, xp: 35, death: Some(DeathCallback::Monster) }
}

pub open spec fn troll_fighter() -> Fighter {
    Fighter { hp: 30, base_max_hp: 30, base_defense: 2, base_power: 8, xp: 100, death: Some(DeathCallback::Monster) }
}

/// A freshly spawned orc or troll.
pub open spec fn is_monster_spawn(o: Object) -> bool {
    &&& o.alive
    &&& o.blocks
    &&& o.ai == Some(MonsterAI { old_ai: None, ai_type: MonsterAIType::Basic })
    &&& o.item is None
    &&& o.equipment is None
    &&& ((o.name@ == "orc"@ && o.fighter == Some(orc_fighter())) || (o.name@ == "troll"@
        && o.fighter == Some(troll_fighter())))
}

pub open spec fn item_kind(i: int) -> Item {
    if i == 0 {
        Item::Heal
    } else if i == 1 {
        Item::Lightning
    } else if i == 2 {
        Item::Fireball
    } else if i == 3 {
        Item::Confuse
    } else if i == 4 {
        Item::Sword
    } else {
        Item::Shield
    }
}

pub open spec fn item_equipment(kind: Item) -> Option<Equipment> {
    match kind {
        Item::Sword => Some(Equipment { slot: EquipmentSlot::RightHand, is_equipped: false, power_bonus: 3, defense_bonus: 0, max_hp_bonus: 0 }),
        Item::Shield => Some(Equipment { slot: EquipmentSlot::LeftHand, is_equipped: false, power_bonus: 0, defense_bonus: 1, max_hp_bonus: 0 }),
        _ => None,
    }
}

pub open spec fn item_name(kind: Item) -> Seq<char> {
    match kind {
        Item::Heal => "healing potion"@,
        Item::Lightning => "scroll of lightning bolt"@,
        Item::Fireball => "scroll of fireball"@,
        Item::Confuse => "scroll of confusion"@,
        Item::Sword => "sword"@,
        Item::Shield => "shield"@,
    }
}

/// A freshly spawned item of one of the six kinds.
pub open spec fn is_item_spawn(o: Object) -> bool {
    &&& o.item is Some ==> o.name@ == item_name(o.item->Some_0)
    &&& !o.alive
    &&& !o.blocks
    &&& o.fighter is None
    &&& o.ai is None
    &&& o.item is Some
    &&& o.equipment == item_equipment(o.item->Some_0)
}

/// A monster of the kind drawn (0: orc, otherwise troll) at (x, y).
pub fn new_monster(kind: usize, x: i32, y: i32) -> (o: Object)
    ensures
        is_monster_spawn(o),
        o.x == x && o.y == y,
        kind == 0 ==> o.name@ == "orc"@,
        kind != 0 ==> o.name@ == "troll"@,
{
    if kind == 0 {
        let mut orc = Object::new(x, y, 'o', "orc", Color::DesaturatedGreen, true);
        orc.fighter = Some(Fighter { hp: 20, base_max_hp: 20, base_defense: 0, base_power: 4, xp: 35, death: Some(DeathCallback::Monster) });
        orc.alive = true;
        orc.ai = Some(MonsterAI { old_ai: None, ai_type: MonsterAIType::Basic });
        orc
    } else {
        let mut troll = Object::new(x, y, 'T', "troll", Color::DarkerGreen, true);
        troll.fighter = Some(Fighter { hp: 30, base_max_hp: 30, base_defense: 2, base_power: 8, xp: 100, death: Some(DeathCallback::Monster) });
        troll.alive = true;
        troll.ai = Some(MonsterAI { old_ai: None, ai_type: MonsterAIType::Basic });
        troll
    }
}

/// An item of the kind drawn (by position in
/// Heal, Lightning, Fireball, Confuse, Sword, Shield) at (x, y).
pub fn new_item(kind: usize, x: i32, y: i32) -> (o: Object)
    ensures
        is_item_spawn(o),
        o.item == Some(item_kind(kind as int)),
        o.x == x && o.y == y,
{
    if kind == 0 {
        let mut object = Object::new(x, y, '!', "healing potion", Color::Violet, false);
        object.item = Some(Item::Heal);
        object
    } else if kind == 1 {
        let mut object = Object::new(x, y, '#', "scroll of lightning bolt", Color::LightYellow, false);
        object.item = Some(Item::Lightning);
        object
    } else if kind == 2 {
        let mut object = Object::new(x, y, '#', "scroll of fireball", Color::LightYellow, false);
        object.item = Some(Item::Fireball);
        object
    } else if kind == 3 {
        let mut object = Object::new(x, y, '#', "scroll of confusion", Color::LightYellow, false);
        object.item = Some(Item::Confuse);
        object
    } else if kind == 4 {
        let mut object = Object::new(x, y, '/', "sword", Color::Sky, false);
        object.equipment = Some(Equipment { slot: EquipmentSlot::RightHand, is_equipped: false, power_bonus: 3, defense_bonus: 0, max_hp_bonus: 0 });
        object.item = Some(Item::Sword);
        object
    } else {
        let mut object = Object::new(x, y, '[', "shield", Color::DarkerOrange, false);
        object.equipment = Some(Equipment { slot: EquipmentSlot::LeftHand, is_equipped: false, power_bonus: 0, defense_bonus: 1, max_hp_bonus: 0 });
        object.item = Some(Item::Shield);
        object
    }
}

/// A table's value never exceeds the largest value in it.
pub proof fn lemma_table_bound(table: Seq<(u32, i32)>, level: int, bound: u32)
    requires
        forall|i: int| 0 <= i < table.len() ==> (#[trigger] table[i]).0 <= bound,
    ensures
        table_value(table, level) <= bound,
    decreases table.len(),
{
    if table.len() > 0 {
        assert(table.last() == table[table.len() - 1]);
        lemma_table_bound(table.drop_last(), level, bound);
    }
}

/// The rules a room's spawns keep: each stands strictly inside the room, on
/// a cell that neither the map nor an earlier object blocked, and is a fresh
/// monster or item.
pub open spec fn spawned_in(map: Seq<Vec<Tile>>, room: Rect, objects: Seq<Object>, from: int) -> bool {
    forall|j: int|
        from <= j < objects.len() ==> {
            &&& in_interior(room, (#[trigger] objects[j]).x as int, objects[j].y as int)
            &&& !spec_blocked(map, objects.subrange(0, j), objects[j].x as int, objects[j].y as int)
            &&& (is_monster_spawn(objects[j]) || is_item_spawn(objects[j]))
        }
}

/// The room can hold spawns: its interior is non-empty and on the map.
pub open spec fn room_fits(room: Rect) -> bool {
    0 <= room.x1 && room.x1 + 1 < room.x2 && room.x2 <= MAP_WIDTH && 0 <= room.y1 && room.y1 + 1
        < room.y2 && room.y2 <= MAP_HEIGHT
}

/// The spawn drawn at position `k` of its weight table: an orc (0) or a
/// troll, or the item of kind `k`.
pub open spec fn spawn_of_kind(monster: bool, k: int, o: Object) -> bool {
    if monster {
        &&& is_monster_spawn(o)
        &&& k == 0 ==> o.name@ == "orc"@
        &&& k != 0 ==> o.name@ == "troll"@
    } else {
        is_item_spawn(o) && o.item == Some(item_kind(k))
    }
}

/// Tries to place one spawn in the room at a random interior cell: the
/// candidate is dropped when that cell is blocked. Returns the position in
/// `weights` of the kind placed.
fn place_one(room: Rect, map: &TileMap, objects: &mut Vec<Object>, rng: &mut StdRng, weights: &Vec<u32>, monster: bool) -> (r: Option<usize>)
    requires
        map_wf(map@),
        room_fits(room),
        weights@.len() > 0,
        0 < total_weight(weights@) <= u32::MAX,
    ensures
        final(objects)@.subrange(0, old(objects)@.len() as int) == old(objects)@,
        spawned_in(map@, room, final(objects)@, old(objects)@.len() as int),
        match r {
            Some(k) => {
                &&& final(objects)@.len() == old(objects)@.len() + 1
                &&& k < weights@.len()
                &&& weights@[k as int] > 0
                &&& spawn_of_kind(monster, k as int, final(objects)@.last())
            },
            None => final(objects)@.len() == old(objects)@.len(),
        },
{
    let x = gen_range(rng, room.x1 + 1, room.x2);
    let y = gen_range(rng, room.y1 + 1, room.y2);
    if !is_blocked(x, y, map, objects) {
        let kind = weighted_index(rng, weights);
        let o = if monster { new_monster(kind, x, y) } else { new_item(kind, x, y) };
        let ghost before = objects@;
        objects.push(o);
        assert(objects@.subrange(0, before.len() as int) =~= before);
        Some(kind)
    } else {
        assert(objects@.subrange(0, objects@.len() as int) =~= objects@);
        None
    }
}

proof fn lemma_spawned_extends(map: Seq<Vec<Tile>>, room: Rect, before: Seq<Object>, after: Seq<Object>, from: int)
    requires
        0 <= from <= before.len() <= after.len(),
        spawned_in(map, room, before, from),
        spawned_in(map, room, after, before.len() as int),
        after.subrange(0, before.len() as int) == before,
    ensures
        spawned_in(map, room, after, from),
        after.subrange(0, from) == before.subrange(0, from),
{
    assert(after.subrange(0, from) =~= before.subrange(0, from));
    assert forall|j: int| from <= j < after.len() implies {
        &&& in_interior(room, (#[trigger] after[j]).x as int, after[j].y as int)
        &&& !spec_blocked(map, after.subrange(0, j), after[j].x as int, after[j].y as int)
        &&& (is_monster_spawn(after[j]) || is_item_spawn(after[j]))
    } by {
        if j < before.len() {
            assert(after.subrange(0, before.len() as int)[j] == before[j]);
            assert(after.subrange(0, j) =~= before.subrange(0, j));
        }
    }
}

pub open spec fn troll_weights() -> Seq<(u32, i32)> {
    seq![(15u32, 3i32), (30, 5), (60, 7)]
}

pub open spec fn monster_counts() -> Seq<(u32, i32)> {
    seq![(2u32, 1i32), (3, 4), (5, 6)]
}

pub open spec fn item_counts() -> Seq<(u32, i32)> {
    seq![(1u32, 1i32), (2, 4)]
}

/// The weight of an item kind at `level`.
pub open spec fn item_chance(kind: Item, level: int) -> int {
    match kind {
        Item::Heal => 35,
        Item::Lightning => table_value(seq![(25u32, 4i32)], level) as int,
        Item::Fireball => table_value(seq![(25u32, 6i32)], level) as int,
        Item::Confuse => table_value(seq![(10u32, 2i32)], level) as int,
        Item::Sword => table_value(seq![(5u32, 4i32)], level) as int,
        Item::Shield => table_value(seq![(15u32, 8i32)], level) as int,
    }
}

/// A monster of a kind that has weight at `level`: an orc, or a troll
/// where trolls have weight.
pub open spec fn monster_allowed(o: Object, level: int) -> bool {
    o.name@ == "orc"@ || table_value(troll_weights(), level) > 0
}

/// From position `from` on, `objects` holds monsters up to `m` (at most
/// the monster table's count, each of a kind with weight at `level`), then
/// items (at most the item table's count, each of a kind with weight).
pub open spec fn monsters_then_items(objects: Seq<Object>, from: int, m: int, level: int) -> bool {
    &&& from <= m <= objects.len()
    &&& m - from <= table_value(monster_counts(), level)
    &&& objects.len() - m <= table_value(item_counts(), level)
    &&& forall|j: int| from <= j < m ==> is_monster_spawn(#[trigger] objects[j]) && monster_allowed(objects[j], level)
    &&& forall|j: int| m <= j < objects.len() ==> is_item_spawn(#[trigger] objects[j])
        && item_chance(objects[j].item->Some_0, level) > 0
}

/// Populates a room with a level-scaled random number of monsters and then
/// of items.
pub fn place_objects(room: Rect, map: &TileMap, objects: &mut Vec<Object>, level: i32, rng: &mut StdRng)
    requires
        map_wf(map@),
        room_fits(room),
    ensures
        final(objects)@.subrange(0, old(objects)@.len() as int) == old(objects)@,
        spawned_in(map@, room, final(objects)@, old(objects)@.len() as int),
        exists|m: int| monsters_then_items(final(objects)@, old(objects)@.len() as int, m, level as int),
{
    let ghost orig = objects@;
    let monster_table: [(u32, i32); 3] = [(2, 1), (3, 4), (5, 6)];
    let troll_table: [(u32, i32); 3] = [(15, 3), (30, 5), (60, 7)];
    let item_table: [(u32, i32); 2] = [(1, 1), (2, 4)];
    let lightning_table: [(u32, i32); 1] = [(25, 4)];
    let fireball_table: [(u32, i32); 1] = [(25, 6)];
    let confuse_table: [(u32, i32); 1] = [(10, 2)];
    let sword_table: [(u32, i32); 1] = [(5, 4)];
    let shield_table: [(u32, i32); 1] = [(15, 8)];
    assert(monster_table@ =~= monster_counts());
    assert(item_table@ =~= item_counts());
    assert(troll_table@ =~= troll_weights());
    assert(lightning_table@ =~= seq![(25u32, 4i32)]);
    assert(fireball_table@ =~= seq![(25u32, 6i32)]);
    assert(confuse_table@ =~= seq![(10u32, 2i32)]);
    assert(sword_table@ =~= seq![(5u32, 4i32)]);
    assert(shield_table@ =~= seq![(15u32, 8i32)]);

    // maximum number of monsters per room
    let max_monsters = from_dungeon_level(&monster_table, level);
    proof {
        lemma_table_bound(monster_table@, level as int, 5);
        lemma_table_bound(troll_table@, level as int, 60);
        lemma_table_bound(item_table@, level as int, 2);
        lemma_table_bound(lightning_table@, level as int, 25);
        lemma_table_bound(fireball_table@, level as int, 25);
        lemma_table_bound(confuse_table@, level as int, 10);
        lemma_table_bound(sword_table@, level as int, 5);
        lemma_table_bound(shield_table@, level as int, 15);
    }
    let num_monsters = gen_range(rng, 0, max_monsters as i32 + 1);

    // chance of each monster
    let troll_chance = from_dungeon_level(&troll_table, level);
    let monster_chances: Vec<u32> = vec![80, troll_chance];
    assert(total_weight(monster_chances@) == 80 + troll_chance) by {
        let s = monster_chances@;
        assert(s.drop_last().drop_last() =~= Seq::<u32>::empty());
        reveal_with_fuel(total_weight, 3);
    }

    // maximum number of items per room
    let max_items = from_dungeon_level(&item_table, level);

    // chance of each item (most are 0 on the first levels, then go up)
    let item_chances: Vec<u32> = vec![
        35,
        from_dungeon_level(&lightning_table, level),
        from_dungeon_level(&fireball_table, level),
        from_dungeon_level(&confuse_table, level),
        from_dungeon_level(&sword_table, level),
        from_dungeon_level(&shield_table, level),
    ];
    assert(total_weight(item_chances@) <= 35 + 25 + 25 + 10 + 5 + 15 && total_weight(item_chances@) >= 35) by {
        let s = item_chances@;
        assert(s.drop_last().drop_last().drop_last().drop_last().drop_last().drop_last() =~= Seq::<u32>::empty());
        reveal_with_fuel(total_weight, 7);
    }
    assert(forall|k: int| 0 <= k < 6 ==> #[trigger] item_chances@[k] == item_chance(item_kind(k), level as int));

    let mut i: i32 = 0;
    while i < num_monsters
        invariant
            0 <= i <= num_monsters <= max_monsters,
            max_monsters == table_value(monster_counts(), level as int),
            troll_chance == table_value(troll_weights(), level as int),
            monster_chances@ == seq![80u32, troll_chance],
            map_wf(map@),
            room_fits(room),
            0 < total_weight(monster_chances@) <= u32::MAX,
            orig.len() <= objects@.len() <= orig.len() + i,
            objects@.subrange(0, orig.len() as int) == orig,
            spawned_in(map@, room, objects@, orig.len() as int),
            forall|j: int| orig.len() <= j < objects@.len() ==> is_monster_spawn(#[trigger] objects@[j])
                && monster_allowed(objects@[j], level as int),
        decreases num_monsters - i,
    {
        let ghost before = objects@;
        let placed = place_one(room, map, objects, rng, &monster_chances, true);
        proof {
            lemma_spawned_extends(map@, room, before, objects@, orig.len() as int);
            assert forall|j: int| orig.len() <= j < objects@.len() implies is_monster_spawn(#[trigger] objects@[j])
                && monster_allowed(objects@[j], level as int) by {
                if j < before.len() {
                    assert(objects@.subrange(0, before.len() as int)[j] == before[j]);
                }
            }
        }
        i += 1;
    }

    let ghost mid = objects@.len() as int;
    let num_items = gen_range(rng, 0, max_items as i32 + 1);
    let mut k: i32 = 0;
    while k < num_items
        invariant
            0 <= k <= num_items <= max_items,
            max_items == table_value(item_counts(), level as int),
            map_wf(map@),
            room_fits(room),
            item_chances@.len() == 6,
            forall|n: int| 0 <= n < 6 ==> #[trigger] item_chances@[n] == item_chance(item_kind(n), level as int),
            0 < total_weight(item_chances@) <= u32::MAX,
            orig.len() <= mid <= orig.len() + max_monsters,
            mid <= objects@.len() <= mid + k,
            objects@.subrange(0, orig.len() as int) == orig,
            spawned_in(map@, room, objects@, orig.len() as int),
            forall|j: int| orig.len() <= j < mid ==> is_monster_spawn(#[trigger] objects@[j])
                && monster_allowed(objects@[j], level as int),
            forall|j: int| mid <= j < objects@.len() ==> is_item_spawn(#[trigger] objects@[j])
                && item_chance(objects@[j].item->Some_0, level as int) > 0,
        decreases num_items - k,
    {
        let ghost before = objects@;
        let placed = place_one(room, map, objects, rng, &item_chances, false);
        proof {
            lemma_spawned_extends(map@, room, before, objects@, orig.len() as int);
            assert forall|j: int| orig.len() <= j < objects@.len() implies (j < mid ==> is_monster_spawn(#[trigger] objects@[j])
                && monster_allowed(objects@[j], level as int)) && (mid <= j ==> is_item_spawn(objects@[j])
                && item_chance(objects@[j].item->Some_0, level as int) > 0) by {
                if j < before.len() {
                    assert(objects@.subrange(0, before.len() as int)[j] == before[j]);
                }
            }
        }
        k += 1;
    }
    assert(monsters_then_items(objects@, orig.len() as int, mid, level as int));
}

/// A room as the generator draws it: on the map, with sides of
/// `ROOM_MIN_SIZE` to `ROOM_MAX_SIZE` cells.
pub open spec fn room_in_bounds(r: Rect) -> bool {
    &&& 0 <= r.x1 && r.x2 < MAP_WIDTH
    &&& 0 <= r.y1 && r.y2 < MAP_HEIGHT
    &&& ROOM_MIN_SIZE <= r.x2 - r.x1 <= ROOM_MAX_SIZE
    &&& ROOM_MIN_SIZE <= r.y2 - r.y1 <= ROOM_MAX_SIZE
}

pub open spec fn floor_at(map: Seq<Vec<Tile>>, x: int, y: int) -> bool {
    is_floor(tile_at(map, x, y))
}

pub open spec fn interior_carved(map: Seq<Vec<Tile>>, r: Rect) -> bool {
    forall|x: int, y: int| in_interior(r, x, y) ==> #[trigger] floor_at(map, x, y)
}

pub open spec fn h_carved(map: Seq<Vec<Tile>>, x1: int, x2: int, y: int) -> bool {
    forall|x: int| on_h_segment(x1, x2, y, x, y) ==> #[trigger] floor_at(map, x, y)
}

pub open spec fn v_carved(map: Seq<Vec<Tile>>, y1: int, y2: int, x: int) -> bool {
    forall|y: int| on_v_segment(y1, y2, x, x, y) ==> #[trigger] floor_at(map, x, y)
}

/// An L-shaped corridor of floor runs from the center of `a` to the center
/// of `b`, turning either at (b's x, a's y) or at (a's x, b's y).
pub open spec fn joined(map: Seq<Vec<Tile>>, a: Rect, b: Rect) -> bool {
    let (px, py) = a.spec_center();
    let (nx, ny) = b.spec_center();
    ||| (h_carved(map, px, nx, py) && v_carved(map, py, ny, nx))
    ||| (v_carved(map, py, ny, px) && h_carved(map, px, nx, ny))
}

/// The generator's guarantees on a map and the rooms it accepted: every
/// room lies on the map, no two overlap (edges included), every room's
/// interior is floor, and each room is joined to the one accepted before it,
/// so that all of them are connected.
pub open spec fn layout_ok(map: Seq<Vec<Tile>>, rooms: Seq<Rect>) -> bool {
    &&& map_wf(map)
    &&& forall|i: int| 0 <= i < rooms.len() ==> room_in_bounds(#[trigger] rooms[i])
    &&& forall|i: int, j: int|
        0 <= i < rooms.len() && 0 <= j < rooms.len() && i != j ==> !(#[trigger] rooms[i]).overlaps(
            #[trigger] rooms[j],
        )
    &&& forall|i: int| 0 <= i < rooms.len() ==> interior_carved(map, #[trigger] rooms[i])
    &&& forall|i: int| 0 < i < rooms.len() ==> joined(map, rooms[i - 1], #[trigger] rooms[i])
}

/// Every floor cell of `old` is floor in `new`.
pub open spec fn floor_kept(old: Seq<Vec<Tile>>, new: Seq<Vec<Tile>>) -> bool {
    &&& map_wf(new)
    &&& forall|x: int, y: int| in_map(x, y) && floor_at(old, x, y) ==> #[trigger] floor_at(new, x, y)
}

proof fn lemma_carving_keeps_floor(old: Seq<Vec<Tile>>, new: Seq<Vec<Tile>>, carved: spec_fn(int, int) -> bool)
    requires
        crate::map::carved_where(old, new, carved),
    ensures
        floor_kept(old, new),
{
    assert(forall|x: int, y: int| in_map(x, y) && floor_at(old, x, y) ==> #[trigger] floor_at(new, x, y));
}

proof fn lemma_layout_kept(old: Seq<Vec<Tile>>, new: Seq<Vec<Tile>>, rooms: Seq<Rect>)
    requires
        layout_ok(old, rooms),
        floor_kept(old, new),
    ensures
        layout_ok(new, rooms),
{
    assert forall|i: int| 0 <= i < rooms.len() implies interior_carved(new, #[trigger] rooms[i]) by {
        assert(room_in_bounds(rooms[i]));
        assert(interior_carved(old, rooms[i]));
    }
    assert forall|i: int| 0 < i < rooms.len() implies joined(new, rooms[i - 1], #[trigger] rooms[i]) by {
        assert(room_in_bounds(rooms[i]));
        assert(room_in_bounds(rooms[i - 1]));
        assert(joined(old, rooms[i - 1], rooms[i]));
    }
}

pub open spec fn rock() -> Tile {
    Tile { blocked: true, explored: false, block_sight: true }
}

pub open spec fn open_floor() -> Tile {
    Tile { blocked: false, explored: false, block_sight: false }
}

/// (x, y) lies on one of the two L-shaped routes between the centers of
/// `a` and `b`.
pub open spec fn on_corridor(a: Rect, b: Rect, x: int, y: int) -> bool {
    let (px, py) = a.spec_center();
    let (nx, ny) = b.spec_center();
    ||| on_h_segment(px, nx, py, x, y)
    ||| on_v_segment(py, ny, nx, x, y)
    ||| on_v_segment(py, ny, px, x, y)
    ||| on_h_segment(px, nx, ny, x, y)
}

/// (x, y) lies inside one of the rooms or on a route joining one of them
/// to the room before it.
pub open spec fn carved_by(rooms: Seq<Rect>, x: int, y: int) -> bool {
    exists|i: int|
        0 <= i < rooms.len() && (in_interior(#[trigger] rooms[i], x, y) || (i > 0 && on_corridor(rooms[i - 1], rooms[i], x, y)))
}

/// Every cell is unexplored solid rock, or unexplored floor that lies in a
/// room or on a corridor between consecutive rooms.
pub open spec fn only_carved(map: Seq<Vec<Tile>>, rooms: Seq<Rect>) -> bool {
    forall|x: int, y: int|
        in_map(x, y) ==> #[trigger] tile_at(map, x, y) == rock() || (tile_at(map, x, y) == open_floor()
            && carved_by(rooms, x, y))
}

proof fn lemma_only_carved_more_rooms(map: Seq<Vec<Tile>>, rooms: Seq<Rect>, r: Rect)
    requires
        only_carved(map, rooms),
    ensures
        only_carved(map, rooms.push(r)),
{
    let more = rooms.push(r);
    assert forall|x: int, y: int| in_map(x, y) && tile_at(map, x, y) != rock() implies carved_by(more, x, y) by {
        let i = choose|i: int|
            0 <= i < rooms.len() && (in_interior(#[trigger] rooms[i], x, y) || (i > 0 && on_corridor(rooms[i - 1], rooms[i], x, y)));
        assert(more[i] == rooms[i]);
        if i > 0 {
            assert(more[i - 1] == rooms[i - 1]);
        }
    }
}

proof fn lemma_carve_only(old: Seq<Vec<Tile>>, new: Seq<Vec<Tile>>, carved: spec_fn(int, int) -> bool, rooms: Seq<Rect>)
    requires
        only_carved(old, rooms),
        crate::map::carved_where(old, new, carved),
        forall|x: int, y: int| in_map(x, y) && carved(x, y) ==> carved_by(rooms, x, y),
    ensures
        only_carved(new, rooms),
{
    assert forall|x: int, y: int| in_map(x, y) implies #[trigger] tile_at(new, x, y) == rock() || (tile_at(new, x, y)
        == open_floor() && carved_by(rooms, x, y)) by {
        assert(tile_at(old, x, y) == rock() || tile_at(old, x, y) == open_floor());
    }
}

/// Whether `room` overlaps any of `rooms`.
fn intersects_any(room: &Rect, rooms: &Vec<Rect>) -> (r: bool)
    ensures
        r == exists|k: int| 0 <= k < rooms@.len() && room.overlaps(#[trigger] rooms@[k]),
{
    let mut j: usize = 0;
    while j < rooms.len()
        invariant
            j <= rooms@.len(),
            forall|k: int| 0 <= k < j ==> !room.overlaps(#[trigger] rooms@[k]),
        decreases rooms@.len() - j,
    {
        if room.intersect(&rooms[j]) {
            return true;
        }
        j += 1;
    }
    false
}

/// The stairway down, at (x, y).
pub open spec fn is_stairs_at(o: Object, x: int, y: int) -> bool {
    &&& o.name@ == "stairs"@
    &&& o.x == x && o.y == y
    &&& o.always_visible
    &&& !o.blocks
    &&& o.fighter is None && o.ai is None && o.item is None && o.equipment is None
}

/// Every object from position 1 up to (not including) `end` is a fresh
/// spawn inside one of the rooms.
pub open spec fn spawns_in_rooms(objects: Seq<Object>, rooms: Seq<Rect>, end: int) -> bool {
    forall|j: int|
        1 <= j < end ==> exists|i: int|
            0 <= i < rooms.len() && #[trigger] in_interior(rooms[i], (#[trigger] objects[j]).x as int, objects[j].y as int)
                && (is_monster_spawn(objects[j]) || is_item_spawn(objects[j]))
}

/// No spawn is named like the stairs.
pub proof fn lemma_spawn_not_stairs(o: Object)
    requires
        is_monster_spawn(o) || is_item_spawn(o),
    ensures
        o.name@ != "stairs"@,
{
    reveal_strlit("stairs");
    reveal_strlit("orc");
    reveal_strlit("troll");
    reveal_strlit("healing potion");
    reveal_strlit("scroll of lightning bolt");
    reveal_strlit("scroll of fireball");
    reveal_strlit("scroll of confusion");
    reveal_strlit("sword");
    reveal_strlit("shield");
    let n = o.name@;
    if is_monster_spawn(o) {
        assert(n.len() == 3 || n.len() == 5);
    } else {
        match o.item->Some_0 {
            Item::Shield => {
                assert(n[1] == 'h' && "stairs"@[1] == 't');
            },
            _ => {
                assert(n.len() != 6);
            },
        }
    }
}

/// A level as the generator leaves it: at least one room kept, with the
/// guarantees of `layout_ok`; the player at the center of the first room;
/// the stairway down, last, at the center of the last room; between them
/// only fresh spawns, each inside a room and none named like the stairs;
/// and, on the map, floor only in the rooms and on their corridors.
pub open spec fn level_built(map: Seq<Vec<Tile>>, objects: Seq<Object>, rooms: Seq<Rect>) -> bool {
    &&& 1 <= rooms.len() <= MAX_ROOMS
    &&& layout_ok(map, rooms)
    &&& objects.len() >= 2
    &&& objects[0].x == rooms[0].spec_center().0 && objects[0].y == rooms[0].spec_center().1
    &&& is_stairs_at(objects.last(), rooms.last().spec_center().0, rooms.last().spec_center().1)
    &&& spawns_in_rooms(objects, rooms, objects.len() - 1)
    &&& only_carved(map, rooms)
    &&& forall|j: int| 1 <= j < objects.len() - 1 ==> (#[trigger] objects[j]).name@ != "stairs"@
}

/// The spawns (all objects but the first and the last) stand elsewhere
/// than the player.
pub open spec fn spawns_apart(objects: Seq<Object>) -> bool {
    forall|j: int|
        1 <= j < objects.len() - 1 ==> !((#[trigger] objects[j]).x == objects[0].x && objects[j].y == objects[0].y)
}

/// Builds a level: up to `MAX_ROOMS` random rooms, each kept only when it
/// overlaps none kept before, carved, populated, and joined to the previous
/// one by an L-shaped corridor whose bend a coin decides. The player (the
/// first object; the others are dropped) starts at the center of the first
/// room, and a stairway down stands at the center of the last. Returns the
/// map and the rooms kept; the first attempt always is, as nothing can
/// overlap it yet.
pub fn make_map(objects: &mut Vec<Object>, level: i32, rng: &mut StdRng) -> (r: (TileMap, Vec<Rect>))
    requires
        old(objects)@.len() >= 1,
    ensures
        level_built(r.0@, final(objects)@, r.1@),
        final(objects)@[0] == (Object { x: final(objects)@[0].x, y: final(objects)@[0].y, ..old(objects)@[0] }),
        old(objects)@[0].blocks ==> spawns_apart(final(objects)@),
{
    // fill map with "blocked" tiles
    let mut map = new_map();
    objects.truncate(1);  // the player is the first object; drop the others
    let ghost player = objects@[0];
    let mut rooms: Vec<Rect> = Vec::new();
    proof {
        assert forall|x: int, y: int| in_map(x, y) implies !#[trigger] floor_at(map@, x, y) by {
            assert(tile_at(map@, x, y).blocked);
        }
        assert(only_carved(map@, rooms@));
    }

    let mut t: i32 = 0;
    while t < MAX_ROOMS
        invariant
            0 <= t <= MAX_ROOMS,
            rooms@.len() <= t,
            t > 0 ==> rooms@.len() > 0,
            only_carved(map@, rooms@),
            layout_ok(map@, rooms@),
            objects@.len() >= 1,
            rooms@.len() == 0 ==> objects@ == seq![player],
            rooms@.len() > 0 ==> objects@[0] == (Object {
                x: rooms@[0].spec_center().0 as i32,
                y: rooms@[0].spec_center().1 as i32,
                ..player
            }),
            spawns_in_rooms(objects@, rooms@, objects@.len() as int),
            player.blocks && rooms@.len() > 0 ==> forall|j: int|
                1 <= j < objects@.len() ==> !((#[trigger] objects@[j]).x == objects@[0].x && objects@[j].y
                    == objects@[0].y),
        decreases MAX_ROOMS - t,
    {
        // random width and height
        let w = gen_range(rng, ROOM_MIN_SIZE, ROOM_MAX_SIZE + 1);
        let h = gen_range(rng, ROOM_MIN_SIZE, ROOM_MAX_SIZE + 1);
        // random position without going out of the boundaries of the map
        let x = gen_range(rng, 0, MAP_WIDTH - w);
        let y = gen_range(rng, 0, MAP_HEIGHT - h);
        let new_room = Rect::new(x, y, w, h);

        if !intersects_any(&new_room, &rooms) {
            // no overlap: the room is kept
            let ghost map0 = map@;
            let ghost old_rooms = rooms@;
            let ghost more = rooms@.push(new_room);
            proof {
                lemma_only_carved_more_rooms(map@, rooms@, new_room);
            }
            create_room(new_room, &mut map);
            proof {
                assert forall|x: int, y: int| in_map(x, y) && in_interior(new_room, x, y) implies carved_by(more, x, y) by {
                    assert(more[more.len() - 1] == new_room);
                }
                lemma_carve_only(map0, map@, |i: int, j: int| in_interior(new_room, i, j), more);
                lemma_carving_keeps_floor(map0, map@, |i: int, j: int| in_interior(new_room, i, j));
                lemma_layout_kept(map0, map@, rooms@);
            }
            let (new_x, new_y) = new_room.center();
            if rooms.len() == 0 {
                // the first room is where the player starts; set that before
                // anything is placed, so that nothing lands on the player
                objects[0].set_pos(new_x, new_y);
            }
            let ghost objs0 = objects@;
            place_objects(new_room, &map, objects, level, rng);
            let ghost map1 = map@;
            let ghost rooms1 = rooms@.push(new_room);
            if rooms.len() > 0 {
                // join it to the previous room by a corridor
                let (prev_x, prev_y) = rooms[rooms.len() - 1].center();
                if coin_flip(rng) {
                    // first horizontally, then vertically
                    create_h_tunnel(prev_x, new_x, prev_y, &mut map);
                    let ghost map2 = map@;
                    create_v_tunnel(prev_y, new_y, new_x, &mut map);
                    proof {
                        let last = more.len() - 1;
                        assert(more[last] == new_room && more[last - 1] == old_rooms[old_rooms.len() - 1]);
                        assert forall|x: int, y: int| in_map(x, y) && on_h_segment(prev_x as int, new_x as int, prev_y as int, x, y) implies carved_by(more, x, y) by {
                            assert(on_corridor(more[last - 1], more[last], x, y));
                        }
                        assert forall|x: int, y: int| in_map(x, y) && on_v_segment(prev_y as int, new_y as int, new_x as int, x, y) implies carved_by(more, x, y) by {
                            assert(on_corridor(more[last - 1], more[last], x, y));
                        }
                        lemma_carve_only(map1, map2, |i: int, j: int| on_h_segment(prev_x as int, new_x as int, prev_y as int, i, j), more);
                        lemma_carve_only(map2, map@, |i: int, j: int| on_v_segment(prev_y as int, new_y as int, new_x as int, i, j), more);
                        lemma_carving_keeps_floor(map1, map2, |i: int, j: int| on_h_segment(prev_x as int, new_x as int, prev_y as int, i, j));
                        lemma_carving_keeps_floor(map2, map@, |i: int, j: int| on_v_segment(prev_y as int, new_y as int, new_x as int, i, j));
                        assert(h_carved(map2, prev_x as int, new_x as int, prev_y as int));
                        assert(h_carved(map@, prev_x as int, new_x as int, prev_y as int));
                        assert(v_carved(map@, prev_y as int, new_y as int, new_x as int));
                    }
                } else {
                    // first vertically, then horizontally
                    create_v_tunnel(prev_y, new_y, prev_x, &mut map);
                    let ghost map2 = map@;
                    create_h_tunnel(prev_x, new_x, new_y, &mut map);
                    proof {
                        let last = more.len() - 1;
                        assert(more[last] == new_room && more[last - 1] == old_rooms[old_rooms.len() - 1]);
                        assert forall|x: int, y: int| in_map(x, y) && on_v_segment(prev_y as int, new_y as int, prev_x as int, x, y) implies carved_by(more, x, y) by {
                            assert(on_corridor(more[last - 1], more[last], x, y));
                        }
                        assert forall|x: int, y: int| in_map(x, y) && on_h_segment(prev_x as int, new_x as int, new_y as int, x, y) implies carved_by(more, x, y) by {
                            assert(on_corridor(more[last - 1], more[last], x, y));
                        }
                        lemma_carve_only(map1, map2, |i: int, j: int| on_v_segment(prev_y as int, new_y as int, prev_x as int, i, j), more);
                        lemma_carve_only(map2, map@, |i: int, j: int| on_h_segment(prev_x as int, new_x as int, new_y as int, i, j), more);
                        lemma_carving_keeps_floor(map1, map2, |i: int, j: int| on_v_segment(prev_y as int, new_y as int, prev_x as int, i, j));
                        lemma_carving_keeps_floor(map2, map@, |i: int, j: int| on_h_segment(prev_x as int, new_x as int, new_y as int, i, j));
                        assert(v_carved(map2, prev_y as int, new_y as int, prev_x as int));
                        assert(v_carved(map@, prev_y as int, new_y as int, prev_x as int));
                        assert(h_carved(map@, prev_x as int, new_x as int, new_y as int));
                    }
                }
                proof {
                    assert(floor_kept(map1, map@));
                    lemma_layout_kept(map1, map@, rooms@);
                    assert(interior_carved(map1, new_room));
                }
            }
            rooms.push(new_room);
            proof {
                assert(rooms@ == rooms1);
                assert(interior_carved(map@, new_room));
                assert forall|j: int| 1 <= j < objects@.len() implies exists|i: int|
                    0 <= i < rooms@.len() && #[trigger] in_interior(rooms@[i], (#[trigger] objects@[j]).x as int, objects@[j].y as int)
                        && (is_monster_spawn(objects@[j]) || is_item_spawn(objects@[j])) by {
                    if j < objs0.len() {
                        assert(objects@.subrange(0, objs0.len() as int)[j] == objs0[j]);
                        assert(objects@[j] == objs0[j]);
                        let i = choose|i: int|
                            0 <= i < old_rooms.len() && #[trigger] in_interior(old_rooms[i], (#[trigger] objs0[j]).x as int, objs0[j].y as int)
                                && (is_monster_spawn(objs0[j]) || is_item_spawn(objs0[j]));
                        assert(rooms@[i] == old_rooms[i]);
                        assert(in_interior(rooms@[i], objects@[j].x as int, objects@[j].y as int));
                    } else {
                        assert(in_interior(rooms@[rooms@.len() - 1], objects@[j].x as int, objects@[j].y as int));
                    }
                }
                assert(objects@.subrange(0, objs0.len() as int)[0] == objs0[0]);
                if player.blocks {
                    assert(objects@[0] == objs0[0]);
                    assert(objects@[0].blocks);
                    assert forall|j: int| 1 <= j < objects@.len() implies !((#[trigger] objects@[j]).x
                        == objects@[0].x && objects@[j].y == objects@[0].y) by {
                        if j < objs0.len() {
                            assert(objects@.subrange(0, objs0.len() as int)[j] == objs0[j]);
                            assert(old_rooms.len() > 0);
                            assert(!(objs0[j].x == objs0[0].x && objs0[j].y == objs0[0].y));
                        } else {
                            let sub = objects@.subrange(0, j);
                            assert(sub[0] == objects@[0]);
                            assert(!spec_blocked(map@, sub, objects@[j].x as int, objects@[j].y as int));
                        }
                    }
                }
            }
        }
        t += 1;
    }

    // a stairway down at the center of the last room
    let (last_room_x, last_room_y) = rooms[rooms.len() - 1].center();
    let mut stairs = Object::new(last_room_x, last_room_y, '<', "stairs", Color::White, false);
    stairs.always_visible = true;
    let ghost objs1 = objects@;
    objects.push(stairs);
    proof {
        assert forall|j: int| 1 <= j < objects@.len() - 1 implies exists|i: int|
            0 <= i < rooms@.len() && #[trigger] in_interior(rooms@[i], (#[trigger] objects@[j]).x as int, objects@[j].y as int)
                && (is_monster_spawn(objects@[j]) || is_item_spawn(objects@[j])) by {
            assert(objects@[j] == objs1[j]);
        }
        assert forall|j: int| 1 <= j < objects@.len() - 1 implies (#[trigger] objects@[j]).name@ != "stairs"@ by {
            assert(objects@[j] == objs1[j]);
            lemma_spawn_not_stairs(objects@[j]);
        }
    }
    (map, rooms)
}

} // verus!
