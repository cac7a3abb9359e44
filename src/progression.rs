//! Starting a game, levelling up, and going down to the next level.

use vstd::prelude::*;
use crate::dungeon::{is_item_spawn, is_monster_spawn, item_equipment, level_built, make_map, spawns_apart};
use crate::game::{Game, is_equipped_item, none_equipped, one_per_slot, spec_full_max_hp};
use crate::map::in_interior;
use crate::geometry::half_toward_zero;
use crate::log::{MessageLog, log_add};
use crate::object::{
    Color, DeathCallback, Equipment, EquipmentSlot, Fighter, Item, Object, PLAYER, healed_hp,
};
use crate::text::{decimal, decimal_text};
use rand::StdRng;

verus! {

pub const LEVEL_UP_BASE: i32 = 200;
pub const LEVEL_UP_FACTOR: i32 = 150;

/// The experience that takes a character of `level` to the next level.
pub open spec fn level_up_xp(level: int) -> int {
    LEVEL_UP_BASE + level * LEVEL_UP_FACTOR
}

/// The player has the experience for the next level.
pub open spec fn level_up_due(p: Object) -> bool {
    p.fighter is Some && p.fighter->Some_0.xp >= level_up_xp(p.level as int)
}

/// The stat a level-up raises.
#[derive(Clone, Copy, Debug, PartialEq, Eq, Structural)]
pub enum StatChoice {
    /// +20 maximum HP, and as much current HP.
    Constitution,
    /// +1 attack power.
    Strength,
    /// +1 defense.
    Agility,
}

/// `v + d` held at `i32::MAX`.
pub open spec fn raised(v: int, d: int) -> int {
    if v + d > i32::MAX { i32::MAX as int } else { v + d }
}

/// `v` held within `i32`.
pub open spec fn clamp32(v: int) -> int {
    if v > i32::MAX {
        i32::MAX as int
    } else if v < i32::MIN {
        i32::MIN as int
    } else {
        v
    }
}

/// The player after a level-up: one level more, the threshold's worth of
/// experience spent, and the chosen stat raised.
pub open spec fn leveled(p: Object, choice: StatChoice) -> Object {
    let f = p.fighter->Some_0;
    let spent = Fighter { xp: clamp32(f.xp - level_up_xp(p.level as int)) as i32, ..f };
    let f2 = match choice {
        StatChoice::Constitution => Fighter {
            base_max_hp: raised(f.base_max_hp as int, 20) as i32,
            hp: raised(f.hp as int, 20) as i32,
            ..spent
        },
        StatChoice::Strength => Fighter { base_power: raised(f.base_power as int, 1) as i32, ..spent },
        StatChoice::Agility => Fighter { base_defense: raised(f.base_defense as int, 1) as i32, ..spent },
    };
    Object { level: (p.level + 1) as i32, fighter: Some(f2), ..p }
}

pub open spec fn level_up_text(level: int) -> Seq<char> {
    "Your battle skills grow stronger! You reached level "@ + decimal(level) + "!"@
}

/// Whether the player has the experience for the next level.
pub fn needs_level_up(objects: &Vec<Object>) -> (r: bool)
    requires
        objects@.len() > PLAYER,
    ensures
        r == level_up_due(objects@[PLAYER as int]),
{
    let player = &objects[PLAYER];
    let threshold: i64 = LEVEL_UP_BASE as i64 + player.level as i64 * LEVEL_UP_FACTOR as i64;
    match &player.fighter {
        Some(f) => f.xp as i64 >= threshold,
        None => false,
    }
}

fn raise(v: i32, d: i32) -> (r: i32)
    requires
        d >= 0,
    ensures
        r == raised(v as int, d as int),
{
    if v as i64 + d as i64 > i32::MAX as i64 { i32::MAX } else { v + d }
}

/// Levels the player up, once, raising the chosen stat, when the player
/// has the experience for it; otherwise changes nothing.
pub fn level_up(objects: &mut Vec<Object>, game: &mut Game, choice: StatChoice)
    requires
        old(objects)@.len() > PLAYER,
    ensures
        final(game).dungeon_level == old(game).dungeon_level,
        final(game).map == old(game).map,
        final(game).fov_recompute == old(game).fov_recompute,
        final(game).inventory == old(game).inventory,
        if level_up_due(old(objects)@[PLAYER as int]) {
            &&& final(objects)@ == old(objects)@.update(PLAYER as int, leveled(old(objects)@[PLAYER as int], choice))
            &&& final(game).log@ == log_add(
                old(game).log@,
                (level_up_text(old(objects)@[PLAYER as int].level + 1), Color::Yellow),
            )
        } else {
            final(objects)@ == old(objects)@ && final(game).log@ == old(game).log@
        },
{
    if !needs_level_up(objects) {
        return;
    }
    let player = &mut objects[PLAYER];
    let threshold: i64 = LEVEL_UP_BASE as i64 + player.level as i64 * LEVEL_UP_FACTOR as i64;
    player.level = player.level + 1;
    let text = String::from_str("Your battle skills grow stronger! You reached level ").concat(
        decimal_text(player.level).as_str(),
    ).concat("!");
    game.log.add(text, Color::Yellow);
    match &mut player.fighter {
        Some(fighter) => {
            let xp: i64 = fighter.xp as i64 - threshold;
            fighter.xp = if xp > i32::MAX as i64 {
                i32::MAX
            } else if xp < i32::MIN as i64 {
                i32::MIN
            } else {
                xp as i32
            };
            match choice {
                StatChoice::Constitution => {
                    fighter.base_max_hp = raise(fighter.base_max_hp, 20);
                    fighter.hp = raise(fighter.hp, 20);
                },
                StatChoice::Strength => {
                    fighter.base_power = raise(fighter.base_power, 1);
                },
                StatChoice::Agility => {
                    fighter.base_defense = raise(fighter.base_defense, 1);
                },
            }
        },
        None => {},
    }
}

/// A level-up fires exactly when the experience reaches the threshold, and
/// then raises the level by one and spends exactly the threshold: the
/// experience left is not reset to zero and, for a player of non-negative
/// level, is never negative.
pub proof fn lemma_level_up_spends_threshold(p: Object, choice: StatChoice)
    requires
        p.fighter is Some,
        p.level >= 0,
        p.level < i32::MAX,
    ensures
        level_up_due(p) <==> p.fighter->Some_0.xp >= LEVEL_UP_BASE + p.level * LEVEL_UP_FACTOR,
        level_up_due(p) ==> {
            let q = leveled(p, choice);
            &&& q.level == p.level + 1
            &&& q.fighter->Some_0.xp == p.fighter->Some_0.xp - level_up_xp(p.level as int)
            &&& 0 <= q.fighter->Some_0.xp < p.fighter->Some_0.xp
        },
{
    assert(level_up_xp(p.level as int) >= LEVEL_UP_BASE) by (nonlinear_arith)
        requires
            p.level >= 0,
    ;
}

/// The welcome message of a new game.
pub open spec fn welcome_text() -> Seq<char> {
    "Welcome stranger! Prepare to perish in the Tombs of the Ancient Kings."@
}

/// The dagger the player starts with, equipped in the right hand.
pub open spec fn is_starting_dagger(o: Object) -> bool {
    &&& o.name@ == "dagger"@
    &&& o.item == Some(Item::Sword)
    &&& o.equipment == Some(Equipment {
        slot: EquipmentSlot::RightHand,
        is_equipped: true,
        power_bonus: 2,
        defense_bonus: 0,
        max_hp_bonus: 0,
    })
}

/// The player as a new game makes it.
pub open spec fn is_new_player(o: Object) -> bool {
    &&& o.name@ == "player"@
    &&& o.alive
    &&& o.blocks
    &&& o.level == 1
    &&& o.fighter == Some(Fighter { hp: 100, base_max_hp: 100, base_defense: 1, base_power: 2, xp: 0, death: Some(DeathCallback::Player) })
    &&& o.ai is None && o.item is None && o.equipment is None
}

/// What going down a level makes of the objects and the game: the player
/// rests (healing by half of the full maximum HP) and keeps the inventory,
/// the level counter rises by one, and the map and the objects are a fresh
/// level with the player in it, the old objects gone.
pub open spec fn descent_outcome(o: Seq<Object>, g: Game, o2: Seq<Object>, g2: Game) -> bool {
    let p = o[PLAYER as int];
    let amount = clamp32(half_toward_zero(spec_full_max_hp(p, g.inventory@)));
    let rested = match p.fighter {
        Some(f) => Object {
            fighter: Some(Fighter { hp: healed_hp(f.hp as int, amount, f.base_max_hp as int) as i32, ..f }),
            ..p
        },
        None => p,
    };
    &&& g2.inventory == g.inventory
    &&& g2.dungeon_level == g.dungeon_level + 1
    &&& g2.fov_recompute
    &&& o2[PLAYER as int] == (Object { x: o2[PLAYER as int].x, y: o2[PLAYER as int].y, ..rested })
    &&& exists|rooms: Seq<crate::geometry::Rect>| level_built(g2.map@, o2, rooms)
    &&& !is_equipped_item(p) ==> none_equipped(o2)
    &&& p.blocks ==> spawns_apart(o2)
}

impl Game {
    /// A new game on dungeon level 1: the player, with a dagger in hand, in
    /// a freshly generated level.
    pub fn new(rng: &mut StdRng) -> (r: (Game, Vec<Object>))
        ensures
            ({
                let (game, objects) = r;
                &&& game.wf()
                &&& game.dungeon_level == 1
                &&& game.fov_recompute
                &&& game.log@ == seq![(welcome_text(), Color::Red)]
                &&& game.inventory@.len() == 1
                &&& is_starting_dagger(game.inventory@[0])
                &&& one_per_slot(game.inventory@)
                &&& objects@.len() >= 2
                &&& none_equipped(objects@)
                &&& is_new_player(objects@[PLAYER as int])
                &&& spawns_apart(objects@)
                &&& exists|rooms: Seq<crate::geometry::Rect>| level_built(game.map@, objects@, rooms)
            }),
    {
        // the player
        let mut player = Object::new(0, 0, '@', "player", Color::White, true);
        player.alive = true;
        player.fighter = Some(Fighter { hp: 100, base_max_hp: 100, base_defense: 1, base_power: 2, xp: 0, death: Some(DeathCallback::Player) });
        player.level = 1;

        let mut objects = vec![player];
        let dungeon_level: i32 = 1;
        let (map, rooms) = make_map(&mut objects, dungeon_level, rng);
        let mut game = Game {
            dungeon_level,
            map,
            fov_recompute: true,
            log: MessageLog::new(),
            inventory: Vec::new(),
        };
        // a warm welcoming message
        game.log.add(
            String::from_str("Welcome stranger! Prepare to perish in the Tombs of the Ancient Kings."),
            Color::Red,
        );
        assert(game.log@ =~= seq![(welcome_text(), Color::Red)]);

        // initial equipment: a dagger
        let mut dagger = Object::new(0, 0, '-', "dagger", Color::Sky, false);
        dagger.equipment = Some(Equipment { slot: EquipmentSlot::RightHand, is_equipped: true, power_bonus: 2, defense_bonus: 0, max_hp_bonus: 0 });
        dagger.item = Some(Item::Sword);
        game.inventory.push(dagger);
        proof {
            assert(level_built(game.map@, objects@, rooms@));
            let o = objects@;
            assert forall|j: int| 0 <= j < o.len() implies !is_equipped_item(#[trigger] o[j]) by {
                if 1 <= j < o.len() - 1 {
                    let i = choose|i: int|
                        0 <= i < rooms@.len() && #[trigger] in_interior(rooms@[i], o[j].x as int, o[j].y as int)
                            && (is_monster_spawn(o[j]) || is_item_spawn(o[j]));
                    if is_item_spawn(o[j]) {
                        assert(o[j].equipment == item_equipment(o[j].item->Some_0));
                    }
                }
            }
        }
        (game, objects)
    }

    /// Rests (healing the player by half of the full maximum HP), goes one
    /// level down and builds it; the player keeps the inventory.
    pub fn next_level(&mut self, objects: &mut Vec<Object>, rng: &mut StdRng)
        requires
            old(objects)@.len() > PLAYER,
            old(self).wf(),
            old(self).dungeon_level < i32::MAX,
        ensures
            final(self).wf(),
            descent_outcome(old(objects)@, *old(self), final(objects)@, *final(self)),
    {
        self.log.add(String::from_str("You take a moment to rest, and recover your strength."), Color::LightViolet);
        let max_hp = objects[PLAYER].full_max_hp(self);
        let half: i64 = if max_hp >= 0 { max_hp / 2 } else { -((-max_hp) / 2) };
        let amount: i32 = if half > i32::MAX as i64 {
            i32::MAX
        } else if half < i32::MIN as i64 {
            i32::MIN
        } else {
            half as i32
        };
        // heal the player by half of the maximum
        match &mut objects[PLAYER].fighter {
            Some(f) => f.heal(amount),
            None => {},
        }
        assert(objects@[PLAYER as int].equipment == old(objects)@[PLAYER as int].equipment);
        self.log.add(
            String::from_str("After a rare moment of peace, you descend deeper into the heart of the dungeon..."),
            Color::Red,
        );
        self.dungeon_level = self.dungeon_level + 1;
        // a fresh new level
        let (map, rooms) = make_map(objects, self.dungeon_level, rng);
        self.map = map;
        self.fov_recompute = true;
        proof {
            assert(level_built(self.map@, objects@, rooms@));
            let o = objects@;
            assert(o[0].equipment == old(objects)@[0].equipment);
            if !is_equipped_item(old(objects)@[PLAYER as int]) {
                assert forall|j: int| 0 <= j < o.len() implies !is_equipped_item(#[trigger] o[j]) by {
                    if 1 <= j < o.len() - 1 {
                        let i = choose|i: int|
                            0 <= i < rooms@.len() && #[trigger] in_interior(rooms@[i], o[j].x as int, o[j].y as int)
                                && (is_monster_spawn(o[j]) || is_item_spawn(o[j]));
                        if is_item_spawn(o[j]) {
                            assert(o[j].equipment == item_equipment(o[j].item->Some_0));
                        }
                    }
                }
            }
        }
    }
}

} // verus!
