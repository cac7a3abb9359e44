//! Item effects: healing, lightning, fireball, confusion, and equipping.

use vstd::prelude::*;
use crate::ai::{FovGrid, in_fov, spec_in_fov};
use crate::combat::{after_hit, corpse_of, credited_xp, hit_kills, same_but_log};
use crate::game::{
    Game, equipped_in_slot, get_equipped_in_slot, is_equipped_item,
    one_per_slot, spec_full_max_hp,
};
use crate::log::log_add;
use crate::object::{
    Color, Fighter, MonsterAI, MonsterAIType, Object, PLAYER, UseResult, healed_hp, sq_dist,
};
use crate::text::decimal_text;

verus! {

pub const HEAL_AMOUNT: i32 = 40;
pub const LIGHTNING_DAMAGE: i32 = 40;
pub const LIGHTNING_RANGE: i32 = 5;
pub const CONFUSE_RANGE: i32 = 8;
pub const CONFUSE_NUM_TURNS: i32 = 10;
pub const FIREBALL_RADIUS: i32 = 3;
pub const FIREBALL_DAMAGE: i32 = 25;

/// What a targeting prompt came back with.
#[derive(Clone, Copy, Debug, PartialEq, Eq, Structural)]
pub enum Target {
    Tile { x: i32, y: i32 },
    Monster { id: usize },
}

/// A lightning target: a fighter other than the player (neither the first
/// object nor one named "player") that the player sees.
pub open spec fn is_enemy_in_view(objects: Seq<Object>, fov: Seq<Vec<bool>>, j: int) -> bool {
    &&& j != PLAYER
    &&& !objects[j].is_player_spec()
    &&& objects[j].fighter is Some
    &&& spec_in_fov(fov, objects[j].x as int, objects[j].y as int)
}

pub open spec fn player_dist_sq(objects: Seq<Object>, j: int) -> int {
    sq_dist(
        objects[PLAYER as int].x as int,
        objects[PLAYER as int].y as int,
        objects[j].x as int,
        objects[j].y as int,
    )
}

/// Whether a target is within `range` cells of (x, y) (Euclidean).
pub open spec fn within(px: int, py: int, x: int, y: int, range: int) -> bool {
    sq_dist(px, py, x, y) <= range * range
}

/// The closest enemy the player sees, within `max_range`; among
/// equally close ones the first.
pub fn closest_monster(max_range: i32, objects: &Vec<Object>, fov: &FovGrid) -> (r: Option<usize>)
    requires
        objects@.len() > PLAYER,
        0 <= max_range < 0x1000_0000,
    ensures
        match r {
            Some(i) => {
                &&& i < objects@.len()
                &&& is_enemy_in_view(objects@, fov@, i as int)
                &&& player_dist_sq(objects@, i as int) <= max_range * max_range
                &&& forall|j: int| 0 <= j < objects@.len() && is_enemy_in_view(objects@, fov@, j)
                    ==> player_dist_sq(objects@, i as int) <= #[trigger] player_dist_sq(objects@, j)
                &&& forall|j: int| 0 <= j < i && is_enemy_in_view(objects@, fov@, j)
                    ==> player_dist_sq(objects@, i as int) < #[trigger] player_dist_sq(objects@, j)
            },
            None => forall|j: int| 0 <= j < objects@.len() && is_enemy_in_view(objects@, fov@, j)
                ==> #[trigger] player_dist_sq(objects@, j) > max_range * max_range,
        },
{
    assert(0 <= max_range * max_range <= 0x1_0000_0000_0000_0000) by (nonlinear_arith)
        requires
            0 <= max_range < 0x1000_0000,
    ;
    // one past the largest squared distance in range
    let limit: i128 = max_range as i128 * max_range as i128 + 1;
    let mut closest_enemy: Option<usize> = None;
    let mut closest_dist: i128 = limit;
    let mut id: usize = 0;
    while id < objects.len()
        invariant
            objects@.len() > PLAYER,
            limit == max_range * max_range + 1,
            id <= objects@.len(),
            closest_dist <= limit,
            match closest_enemy {
                Some(i) => {
                    &&& i < id
                    &&& is_enemy_in_view(objects@, fov@, i as int)
                    &&& closest_dist == player_dist_sq(objects@, i as int)
                    &&& closest_dist < limit
                    &&& forall|j: int| 0 <= j < i && is_enemy_in_view(objects@, fov@, j)
                        ==> closest_dist < #[trigger] player_dist_sq(objects@, j)
                },
                None => closest_dist == limit,
            },
            forall|j: int| 0 <= j < id && is_enemy_in_view(objects@, fov@, j)
                ==> closest_dist <= #[trigger] player_dist_sq(objects@, j),
        decreases objects@.len() - id,
    {
        let object = &objects[id];
        if id != PLAYER && !object.is_player() && object.fighter.is_some() && in_fov(fov, object.x, object.y) {
            // distance between this object and the player
            let dist = objects[PLAYER].dist_sq_to(object);
            if dist < closest_dist {
                closest_enemy = Some(id);
                closest_dist = dist;
            }
        }
        id += 1;
    }
    closest_enemy
}

/// What `cast_heal` makes of the objects and the game.
pub open spec fn heal_outcome(o: Seq<Object>, g: Game, o2: Seq<Object>, g2: Game, r: UseResult) -> bool {
    let p = o[PLAYER as int];
    &&& same_but_log(g, g2)
    &&& o2.len() == o.len()
    &&& forall|j: int| 0 <= j < o.len() && j != PLAYER ==> #[trigger] o2[j] == o[j]
    &&& match p.fighter {
        Some(f) => if f.hp == spec_full_max_hp(p, g.inventory@) {
            &&& r == UseResult::Cancelled
            &&& o2 == o
            &&& g2.log@ == log_add(g.log@, ("You are already at full health."@, Color::Red))
        } else {
            &&& r == UseResult::UsedUp
            &&& o2[PLAYER as int] == (Object {
                fighter: Some(Fighter {
                    hp: healed_hp(f.hp as int, HEAL_AMOUNT as int, f.base_max_hp as int) as i32,
                    ..f
                }),
                ..p
            })
            &&& g2.log@ == log_add(g.log@, ("Your wounds start to feel better!"@, Color::LightViolet))
        },
        None => r == UseResult::Cancelled && o2 == o && g2 == g,
    }
}

/// Heals the player, unless already at full health.
pub fn cast_heal(objects: &mut Vec<Object>, game: &mut Game) -> (r: UseResult)
    requires
        old(objects)@.len() > PLAYER,
        old(game).wf(),
    ensures
        heal_outcome(old(objects)@, *old(game), final(objects)@, *final(game), r),
{
    let hp = match &objects[PLAYER].fighter {
        Some(f) => f.hp,
        None => {
            return UseResult::Cancelled;
        },
    };
    let max_hp = objects[PLAYER].full_max_hp(game);
    if hp as i64 == max_hp {
        game.log.add(String::from_str("You are already at full health."), Color::Red);
        return UseResult::Cancelled;
    }
    game.log.add(String::from_str("Your wounds start to feel better!"), Color::LightViolet);
    match &mut objects[PLAYER].fighter {
        Some(fighter) => fighter.heal(HEAL_AMOUNT),
        None => {},
    }
    UseResult::UsedUp
}

/// Adds `xp` to the player's experience, if the player is a fighter.
fn credit_player(objects: &mut Vec<Object>, xp: i32)
    requires
        old(objects)@.len() > PLAYER,
    ensures
        final(objects)@.len() == old(objects)@.len(),
        forall|j: int| 0 <= j < old(objects)@.len() && j != PLAYER ==> #[trigger] final(objects)@[j] == old(objects)@[j],
        final(objects)@[PLAYER as int] == credited(old(objects)@[PLAYER as int], xp as int),
{
    match &mut objects[PLAYER].fighter {
        Some(f) => {
            let sum: i64 = f.xp as i64 + xp as i64;
            f.xp = if sum > i32::MAX as i64 {
                i32::MAX
            } else if sum < i32::MIN as i64 {
                i32::MIN
            } else {
                sum as i32
            };
        },
        None => {},
    }
}

/// `o` with `gain` added to its fighter's experience, if it is a fighter.
pub open spec fn credited(o: Object, gain: int) -> Object {
    match o.fighter {
        Some(f) => Object { fighter: Some(Fighter { xp: credited_xp(f.xp as int, gain) as i32, ..f }), ..o },
        None => o,
    }
}

/// `o2` is what a hit of `damage` leaves of `o`: the hit object, or its
/// remains when the hit brings on its death.
pub open spec fn hit_result(o: Object, damage: int, o2: Object) -> bool {
    if hit_kills(o, damage) {
        corpse_of(after_hit(o, damage), o2, o.fighter->Some_0.death->Some_0)
    } else {
        o2 == after_hit(o, damage)
    }
}

/// The lightning's target: the closest enemy in view within
/// `LIGHTNING_RANGE`, the first of several equally close.
pub open spec fn lightning_target(o: Seq<Object>, fov: Seq<Vec<bool>>, i: int) -> bool {
    &&& 0 <= i < o.len()
    &&& i != PLAYER
    &&& is_enemy_in_view(o, fov, i)
    &&& player_dist_sq(o, i) <= LIGHTNING_RANGE * LIGHTNING_RANGE
    &&& forall|j: int| 0 <= j < o.len() && is_enemy_in_view(o, fov, j)
        ==> player_dist_sq(o, i) <= #[trigger] player_dist_sq(o, j)
    &&& forall|j: int| 0 <= j < i && is_enemy_in_view(o, fov, j)
        ==> player_dist_sq(o, i) < #[trigger] player_dist_sq(o, j)
}

/// What `cast_lightning` makes of the objects and the game.
pub open spec fn lightning_outcome(o: Seq<Object>, g: Game, fov: Seq<Vec<bool>>, o2: Seq<Object>, g2: Game, r: UseResult) -> bool {
    &&& same_but_log(g, g2)
    &&& o2.len() == o.len()
    &&& r == UseResult::Cancelled <==> forall|j: int| 0 <= j < o.len() && is_enemy_in_view(o, fov, j)
        ==> #[trigger] player_dist_sq(o, j) > LIGHTNING_RANGE * LIGHTNING_RANGE
    &&& r == UseResult::Cancelled ==> o2 == o
        && g2.log@ == log_add(g.log@, ("No enemy is close enough to strike."@, Color::Red))
    &&& r != UseResult::Cancelled ==> r == UseResult::UsedUp && exists|i: int| {
            &&& lightning_target(o, fov, i)
            &&& hit_result(o[i], LIGHTNING_DAMAGE as int, o2[i])
            &&& o2[PLAYER as int] == if hit_kills(o[i], LIGHTNING_DAMAGE as int) {
                credited(o[PLAYER as int], o[i].fighter->Some_0.xp as int)
            } else {
                o[PLAYER as int]
            }
            &&& forall|j: int| 0 <= j < o.len() && j != i && j != PLAYER
                ==> #[trigger] o2[j] == o[j]
        }
}

/// Strikes the closest visible enemy within range; the player gains its
/// XP if it dies.
pub fn cast_lightning(objects: &mut Vec<Object>, game: &mut Game, fov: &FovGrid) -> (r: UseResult)
    requires
        old(objects)@.len() > PLAYER,
        old(game).wf(),
    ensures
        lightning_outcome(old(objects)@, *old(game), fov@, final(objects)@, *final(game), r),
{
    // find the closest enemy inside the range, and damage it
    let monster_id = closest_monster(LIGHTNING_RANGE, objects, fov);
    match monster_id {
        Some(monster_id) => {
            let text = String::from_str("A lightning bolt strikes the ").concat(
                objects[monster_id].name.as_str(),
            ).concat(" with a loud thunder! The damage is ").concat(
                decimal_text(LIGHTNING_DAMAGE).as_str(),
            ).concat(" hit points.");
            game.log.add(text, Color::LightBlue);
            assert(lightning_target(objects@, fov@, monster_id as int));
            let xp = objects[monster_id].take_damage(LIGHTNING_DAMAGE, game);
            match xp {
                Some(xp) => credit_player(objects, xp),
                None => {},
            }
            UseResult::UsedUp
        },
        None => {
            game.log.add(String::from_str("No enemy is close enough to strike."), Color::Red);
            UseResult::Cancelled
        },
    }
}

/// A fighter that the fireball bursting at (x, y) reaches.
pub open spec fn burned(o: Object, x: int, y: int) -> bool {
    o.fighter is Some && sq_dist(o.x as int, o.y as int, x, y) <= FIREBALL_RADIUS * FIREBALL_RADIUS
}

/// `p` after the player is credited, in index order, with the XP of every
/// object among `objs[1..n]` that the fireball at (x, y) kills.
pub open spec fn credit_kills(p: Object, objs: Seq<Object>, x: int, y: int, n: int) -> Object
    decreases n,
{
    if n <= 1 {
        p
    } else {
        let prev = credit_kills(p, objs, x, y, n - 1);
        let o = objs[n - 1];
        if burned(o, x, y) && hit_kills(o, FIREBALL_DAMAGE as int) {
            credited(prev, o.fighter->Some_0.xp as int)
        } else {
            prev
        }
    }
}

pub open spec fn fireball_prompt_text() -> Seq<char> {
    "Left-click a target tile for the fireball, or right-click to cancel."@
}

/// What the fireball at (x, y) makes of the objects: every fighter within
/// the radius, the player included, takes the fireball's damage, and the
/// player gains the XP of every other object it kills.
pub open spec fn fireball_outcome(o: Seq<Object>, x: int, y: int, o2: Seq<Object>) -> bool {
    &&& o2.len() == o.len()
    &&& forall|j: int| 1 <= j < o.len() ==> if burned(o[j], x, y) {
        hit_result(o[j], FIREBALL_DAMAGE as int, #[trigger] o2[j])
    } else {
        o2[j] == o[j]
    }
    &&& exists|p_hit: Object| {
        &&& if burned(o[PLAYER as int], x, y) {
            hit_result(o[PLAYER as int], FIREBALL_DAMAGE as int, p_hit)
        } else {
            p_hit == o[PLAYER as int]
        }
        &&& o2[PLAYER as int] == credit_kills(p_hit, o, x, y, o.len() as int)
    }
}

/// What `cast_fireball` makes of the objects and the game.
pub open spec fn fireball_result(o: Seq<Object>, g: Game, target: Option<Target>, o2: Seq<Object>, g2: Game, r: UseResult) -> bool {
    &&& same_but_log(g, g2)
    &&& match target {
        Some(Target::Tile { x, y }) => r == UseResult::UsedUp && fireball_outcome(o, x as int, y as int, o2),
        _ => {
            &&& r == UseResult::Cancelled
            &&& o2 == o
            &&& g2.log@ == log_add(g.log@, (fireball_prompt_text(), Color::LightCyan))
        },
    }
}

/// Throws a fireball at the tile the player chose; without one, nothing
/// happens.
pub fn cast_fireball(objects: &mut Vec<Object>, game: &mut Game, target: Option<Target>) -> (r: UseResult)
    requires
        old(objects)@.len() > PLAYER,
        old(game).wf(),
    ensures
        fireball_result(old(objects)@, *old(game), target, final(objects)@, *final(game), r),
{
    game.log.add(
        String::from_str("Left-click a target tile for the fireball, or right-click to cancel."),
        Color::LightCyan,
    );
    let (x, y) = match target {
        Some(Target::Tile { x, y }) => (x, y),
        _ => {
            return UseResult::Cancelled;
        },
    };
    let text = String::from_str("The fireball explodes, burning everything within ").concat(
        decimal_text(FIREBALL_RADIUS).as_str(),
    ).concat(" tiles!");
    game.log.add(text, Color::Orange);

    let ghost orig = objects@;
    let ghost orig_game = *game;
    let ghost mut p_hit = objects@[PLAYER as int];
    // every fighter in range, the player included
    let mut id: usize = 0;
    while id < objects.len()
        invariant
            objects@.len() == orig.len(),
            orig.len() > PLAYER,
            id <= orig.len(),
            orig_game.wf(),
            same_but_log(orig_game, *game),
            forall|j: int| 1 <= j < id ==> if burned(orig[j], x as int, y as int) {
                hit_result(orig[j], FIREBALL_DAMAGE as int, #[trigger] objects@[j])
            } else {
                objects@[j] == orig[j]
            },
            forall|j: int| id <= j < orig.len() && j != PLAYER ==> #[trigger] objects@[j] == orig[j],
            id == 0 ==> objects@[PLAYER as int] == orig[PLAYER as int],
            id >= 1 ==> {
                &&& if burned(orig[PLAYER as int], x as int, y as int) {
                    hit_result(orig[PLAYER as int], FIREBALL_DAMAGE as int, p_hit)
                } else {
                    p_hit == orig[PLAYER as int]
                }
                &&& objects@[PLAYER as int] == credit_kills(p_hit, orig, x as int, y as int, id as int)
            },
        decreases orig.len() - id,
    {
        let ghost before = objects@;
        let in_reach = objects[id].fighter.is_some() && objects[id].dist_sq(x, y) <= (FIREBALL_RADIUS * FIREBALL_RADIUS) as i128;
        if in_reach {
            let text = String::from_str("The ").concat(objects[id].name.as_str()).concat(
                " gets burned for ",
            ).concat(decimal_text(FIREBALL_DAMAGE).as_str()).concat(" hit points.");
            game.log.add(text, Color::Orange);
            let xp = objects[id].take_damage(FIREBALL_DAMAGE, game);
            if id != PLAYER {
                match xp {
                    Some(xp) => credit_player(objects, xp),
                    None => {},
                }
            }
        }
        proof {
            if id == PLAYER {
                p_hit = objects@[PLAYER as int];
            }
            assert forall|j: int| 1 <= j < id + 1 implies if burned(orig[j], x as int, y as int) {
                hit_result(orig[j], FIREBALL_DAMAGE as int, #[trigger] objects@[j])
            } else {
                objects@[j] == orig[j]
            } by {
                if j < id {
                    assert(objects@[j] == before[j]);
                }
            }
        }
        id += 1;
    }
    assert(fireball_outcome(orig, x as int, y as int, objects@));
    UseResult::UsedUp
}

/// The monster that a confusion spell may take: a fighter other than the
/// player, standing where the player sees it, within `CONFUSE_RANGE`.
pub open spec fn confusable(objects: Seq<Object>, fov: Seq<Vec<bool>>, id: int) -> bool {
    &&& 0 <= id < objects.len()
    &&& id != PLAYER
    &&& objects[id].fighter is Some
    &&& spec_in_fov(fov, objects[id].x as int, objects[id].y as int)
    &&& within(
        objects[PLAYER as int].x as int,
        objects[PLAYER as int].y as int,
        objects[id].x as int,
        objects[id].y as int,
        CONFUSE_RANGE as int,
    )
}

/// The behaviour of a monster just confused: the confusion wraps the
/// behaviour it had.
pub open spec fn confused_ai(prior: Option<MonsterAI>) -> MonsterAI {
    MonsterAI {
        old_ai: match prior {
            Some(a) => Some(Box::new(a)),
            None => None,
        },
        ai_type: MonsterAIType::Confused { num_turns: CONFUSE_NUM_TURNS },
    }
}

pub open spec fn confuse_prompt_text() -> Seq<char> {
    "Left-click an enemy to confuse it, or right-click to cancel."@
}

/// Whether the player sees cell (x, y) and, when a range is given, it lies
/// within that range of the player: the tiles a targeting prompt accepts.
pub fn tile_target_ok(objects: &Vec<Object>, fov: &FovGrid, x: i32, y: i32, max_range: Option<i32>) -> (r: bool)
    requires
        objects@.len() > PLAYER,
    ensures
        r == (spec_in_fov(fov@, x as int, y as int) && match max_range {
            Some(range) => within(
                objects@[PLAYER as int].x as int,
                objects@[PLAYER as int].y as int,
                x as int,
                y as int,
                range as int,
            ),
            None => true,
        }),
{
    if !in_fov(fov, x, y) {
        return false;
    }
    match max_range {
        Some(range) => {
            let d2 = objects[PLAYER].dist_sq(x, y);
            assert(0 <= range * range <= 0x4000_0000_0000_0000) by (nonlinear_arith)
                requires
                    i32::MIN <= range <= i32::MAX,
            ;
            d2 <= range as i128 * range as i128
        },
        None => true,
    }
}

/// The first fighter other than the player standing at (x, y).
pub fn monster_at(objects: &Vec<Object>, x: i32, y: i32) -> (r: Option<usize>)
    ensures
        match r {
            Some(id) => {
                &&& id < objects@.len()
                &&& id != PLAYER
                &&& objects@[id as int].fighter is Some
                &&& objects@[id as int].x == x && objects@[id as int].y == y
                &&& forall|j: int| 0 <= j < id && j != PLAYER ==> !((#[trigger] objects@[j]).fighter is Some && objects@[j].x == x && objects@[j].y == y)
            },
            None => forall|j: int| 0 <= j < objects@.len() && j != PLAYER ==> !((#[trigger] objects@[j]).fighter is Some && objects@[j].x == x && objects@[j].y == y),
        },
{
    let mut id: usize = 0;
    while id < objects.len()
        invariant
            id <= objects@.len(),
            forall|j: int| 0 <= j < id && j != PLAYER ==> !((#[trigger] objects@[j]).fighter is Some && objects@[j].x == x && objects@[j].y == y),
        decreases objects@.len() - id,
    {
        if id != PLAYER && objects[id].fighter.is_some() && objects[id].x == x && objects[id].y == y {
            return Some(id);
        }
        id += 1;
    }
    None
}

/// What `cast_confuse` makes of the objects and the game.
pub open spec fn confuse_outcome(o: Seq<Object>, g: Game, fov: Seq<Vec<bool>>, target: Option<Target>, o2: Seq<Object>, g2: Game, r: UseResult) -> bool {
    &&& same_but_log(g, g2)
    &&& match target {
        Some(Target::Monster { id }) if confusable(o, fov, id as int) => {
            &&& r == UseResult::UsedUp
            &&& o2 == o.update(id as int, Object { ai: Some(confused_ai(o[id as int].ai)), ..o[id as int] })
        },
        _ => {
            &&& r == UseResult::Cancelled
            &&& o2 == o
            &&& g2.log@ == log_add(g.log@, (confuse_prompt_text(), Color::LightCyan))
        },
    }
}

/// Confuses the monster the player chose, if it may be taken; its present
/// behaviour is kept, to come back when the confusion ends.
pub fn cast_confuse(objects: &mut Vec<Object>, game: &mut Game, fov: &FovGrid, target: Option<Target>) -> (r: UseResult)
    requires
        old(objects)@.len() > PLAYER,
    ensures
        confuse_outcome(old(objects)@, *old(game), fov@, target, final(objects)@, *final(game), r),
{
    game.log.add(
        String::from_str("Left-click an enemy to confuse it, or right-click to cancel."),
        Color::LightCyan,
    );
    let id = match target {
        Some(Target::Monster { id }) => id,
        _ => {
            return UseResult::Cancelled;
        },
    };
    if id >= objects.len() || id == PLAYER || objects[id].fighter.is_none() {
        return UseResult::Cancelled;
    }
    if !tile_target_ok(objects, fov, objects[id].x, objects[id].y, Some(CONFUSE_RANGE)) {
        return UseResult::Cancelled;
    }
    // replace the monster's behaviour with a confused one that keeps it
    let monster = &mut objects[id];
    let old_ai = match monster.ai.take() {
        Some(ai) => Some(Box::new(ai)),
        None => None,
    };
    monster.ai = Some(MonsterAI { old_ai, ai_type: MonsterAIType::Confused { num_turns: CONFUSE_NUM_TURNS } });
    let text = String::from_str("The eyes of the ").concat(monster.name.as_str()).concat(
        " look vacant, as he starts to stumble around!",
    );
    game.log.add(text, Color::Green);
    UseResult::UsedUp
}

/// `o` with its equipment marked equipped or not.
pub open spec fn with_equipped(o: Object, on: bool) -> Object {
    Object { equipment: Some(crate::object::Equipment { is_equipped: on, ..o.equipment->Some_0 }), ..o }
}

/// What toggling the equipment at `id` makes of the inventory: an equipped
/// item comes off; otherwise whatever is equipped in its slot comes off and
/// it goes on. An item without equipment cannot be toggled.
pub open spec fn toggle_outcome(inv: Seq<Object>, id: int, inv2: Seq<Object>, r: UseResult) -> bool {
    match inv[id].equipment {
        None => r == UseResult::Cancelled && inv2 == inv,
        Some(e) => {
            &&& r == UseResult::UsedAndKept
            &&& if e.is_equipped {
                inv2 == inv.update(id, with_equipped(inv[id], false))
            } else {
                exists|k: int| {
                    &&& if 0 <= k < inv.len() {
                        &&& equipped_in_slot(inv[k], e.slot)
                        &&& forall|j: int| 0 <= j < k ==> !equipped_in_slot(#[trigger] inv[j], e.slot)
                        &&& inv2 == inv.update(k, with_equipped(inv[k], false)).update(id, with_equipped(inv[id], true))
                    } else {
                        &&& forall|j: int| 0 <= j < inv.len() ==> !equipped_in_slot(#[trigger] inv[j], e.slot)
                        &&& inv2 == inv.update(id, with_equipped(inv[id], true))
                    }
                }
            }
        },
    }
}

/// Equips the item at `inventory_id`, first taking off whatever is in its
/// slot, or takes it off if it is equipped. The item is kept.
pub fn equip_or_dequip(inventory_id: usize, game: &mut Game) -> (r: UseResult)
    requires
        inventory_id < old(game).inventory@.len(),
    ensures
        final(game).dungeon_level == old(game).dungeon_level,
        final(game).map == old(game).map,
        final(game).fov_recompute == old(game).fov_recompute,
        toggle_outcome(old(game).inventory@, inventory_id as int, final(game).inventory@, r),
        one_per_slot(old(game).inventory@) ==> one_per_slot(final(game).inventory@),
{
    let ghost inv = game.inventory@;
    let equipment = match game.inventory[inventory_id].equipment {
        Some(equipment) => equipment,
        None => {
            return UseResult::Cancelled;
        },
    };
    if equipment.is_equipped {
        game.inventory[inventory_id].dequip(&mut game.log);
        assert(game.inventory@ =~= inv.update(inventory_id as int, with_equipped(inv[inventory_id as int], false)));
    } else {
        let current = get_equipped_in_slot(equipment.slot, &game.inventory);
        match current {
            Some(k) => {
                game.inventory[k].dequip(&mut game.log);
                proof {
                    assert(k != inventory_id);
                }
            },
            None => {},
        }
        game.inventory[inventory_id].equip(&mut game.log);
        proof {
            let k: int = match current {
                Some(k) => k as int,
                None => -1,
            };
            match current {
                Some(_) => {
                    assert(game.inventory@ =~= inv.update(k, with_equipped(inv[k], false)).update(
                        inventory_id as int,
                        with_equipped(inv[inventory_id as int], true),
                    ));
                },
                None => {
                    assert(game.inventory@ =~= inv.update(inventory_id as int, with_equipped(inv[inventory_id as int], true)));
                },
            }
            if one_per_slot(inv) {
                let inv2 = game.inventory@;
                assert forall|i: int, j: int|
                    0 <= i < inv2.len() && 0 <= j < inv2.len() && i != j && #[trigger] is_equipped_item(inv2[i])
                        && #[trigger] is_equipped_item(inv2[j]) implies inv2[i].equipment->Some_0.slot
                        != inv2[j].equipment->Some_0.slot by {
                    if i != inventory_id && j != inventory_id {
                        assert(is_equipped_item(inv[i]) && is_equipped_item(inv[j]));
                    } else if i == inventory_id {
                        assert(is_equipped_item(inv[j]));
                        assert(j != k);
                        if inv2[j].equipment->Some_0.slot == equipment.slot {
                            assert(equipped_in_slot(inv[j], equipment.slot));
                            if k >= 0 {
                                assert(is_equipped_item(inv[k]));
                            }
                        }
                    } else {
                        assert(is_equipped_item(inv[i]));
                        assert(i != k);
                        if inv2[i].equipment->Some_0.slot == equipment.slot {
                            assert(equipped_in_slot(inv[i], equipment.slot));
                            if k >= 0 {
                                assert(is_equipped_item(inv[k]));
                            }
                        }
                    }
                }
            }
        }
    }
    UseResult::UsedAndKept
}

} // verus!
