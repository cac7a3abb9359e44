//! Damage, death transitions and melee attacks.

use vstd::prelude::*;
use crate::game::{Game, INVENTORY_CAPACITY, spec_full_power, spec_full_defense};
use crate::log::log_add;
use crate::object::{Color, DeathCallback, Fighter, Object};
use crate::text::{decimal, decimal_text};

verus! {

/// `hp` after a hit of `damage`: only a positive hit counts, and the result
/// is held at `i32::MIN`.
pub open spec fn damaged_hp(hp: int, damage: int) -> int {
    if damage <= 0 {
        hp
    } else if hp - damage < i32::MIN {
        i32::MIN as int
    } else {
        hp - damage
    }
}

/// `xp` after a credit of `gain`, held within `i32`.
pub open spec fn credited_xp(xp: int, gain: int) -> int {
    if xp + gain > i32::MAX {
        i32::MAX as int
    } else if xp + gain < i32::MIN {
        i32::MIN as int
    } else {
        xp + gain
    }
}

/// The hit that an attack deals for a power/defense difference, held
/// within `i32`.
pub open spec fn hit_of(diff: int) -> int {
    if diff > i32::MAX { i32::MAX as int } else { diff }
}

/// Everything in the game but the log is as it was.
pub open spec fn same_but_log(a: Game, b: Game) -> bool {
    &&& b.dungeon_level == a.dungeon_level
    &&& b.map == a.map
    &&& b.fov_recompute == a.fov_recompute
    &&& b.inventory == a.inventory
}

pub open spec fn monster_death_text(name: Seq<char>, xp: int) -> Seq<char> {
    name + " is dead! You gain "@ + decimal(xp) + " experience points."@
}

pub open spec fn attack_text(a: Seq<char>, t: Seq<char>, damage: int) -> Seq<char> {
    a + " attacks "@ + t + " for "@ + decimal(damage) + " hit points."@
}

pub open spec fn no_effect_text(a: Seq<char>, t: Seq<char>) -> Seq<char> {
    a + " attacks "@ + t + " but it has no effect!"@
}

/// The message that the death transition of `kind` logs for `o`.
pub open spec fn death_message(kind: DeathCallback, o: Object) -> (Seq<char>, Color) {
    match kind {
        DeathCallback::Player => ("You died!"@, Color::Red),
        DeathCallback::Monster => (
            monster_death_text(o.name@, o.fighter->Some_0.xp as int),
            Color::Orange,
        ),
    }
}

/// `new` is `old` after the death transition of `kind`.
pub open spec fn corpse_of(old: Object, new: Object, kind: DeathCallback) -> bool {
    &&& new.glyph == '%'
    &&& new.color == Color::DarkRed
    &&& !new.alive
    &&& new.x == old.x && new.y == old.y
    &&& new.always_visible == old.always_visible
    &&& new.level == old.level
    &&& new.item == old.item
    &&& new.equipment == old.equipment
    &&& match kind {
        DeathCallback::Player => {
            &&& new.name == old.name
            &&& new.blocks == old.blocks
            &&& new.fighter == old.fighter
            &&& new.ai == old.ai
        },
        DeathCallback::Monster => {
            &&& new.name@ == "remains of "@ + old.name@
            &&& !new.blocks
            &&& new.fighter is None
            &&& new.ai is None
        },
    }
}

/// `new` is `old` after the death transition of `kind`, and `g2` is `g1`
/// with its message.
pub open spec fn died_as(old: Object, new: Object, kind: DeathCallback, g1: Game, g2: Game) -> bool {
    &&& corpse_of(old, new, kind)
    &&& same_but_log(g1, g2)
    &&& g2.log@ == log_add(g1.log@, death_message(kind, old))
}

/// The game ended: the player becomes a corpse.
pub fn player_death(player: &mut Object, game: &mut Game)
    ensures
        died_as(*old(player), *final(player), DeathCallback::Player, *old(game), *final(game)),
{
    game.log.add(String::from_str("You died!"), Color::Red);
    player.glyph = '%';
    player.color = Color::DarkRed;
    player.alive = false;
}

/// A monster becomes inert remains: no longer blocking, fighting or acting.
pub fn monster_death(monster: &mut Object, game: &mut Game)
    requires
        old(monster).fighter is Some,
    ensures
        died_as(*old(monster), *final(monster), DeathCallback::Monster, *old(game), *final(game)),
{
    let xp = match &monster.fighter {
        Some(f) => f.xp,
        None => 0,
    };
    let text = monster.name.clone().concat(" is dead! You gain ").concat(
        decimal_text(xp).as_str(),
    ).concat(" experience points.");
    game.log.add(text, Color::Orange);
    monster.glyph = '%';
    monster.color = Color::DarkRed;
    monster.blocks = false;
    monster.fighter = None;
    monster.ai = None;
    monster.alive = false;
    monster.name = String::from_str("remains of ").concat(monster.name.as_str());
}

impl DeathCallback {
    /// Runs the death transition of this kind on `object`.
    pub fn callback(&self, object: &mut Object, game: &mut Game)
        requires
            old(object).fighter is Some,
        ensures
            died_as(*old(object), *final(object), *self, *old(game), *final(game)),
    {
        match self {
            DeathCallback::Monster => monster_death(object, game),
            DeathCallback::Player => player_death(object, game),
        }
    }
}

/// The object as it stands right after a hit of `damage`, before any death
/// transition.
pub open spec fn after_hit(o: Object, damage: int) -> Object {
    match o.fighter {
        Some(f) => Object {
            fighter: Some(Fighter { hp: damaged_hp(f.hp as int, damage) as i32, ..f }),
            ..o
        },
        None => o,
    }
}

/// Whether a hit of `damage` on `o` brings on its death transition: it is
/// alive, has a death kind, and its HP falls to zero or below.
pub open spec fn hit_kills(o: Object, damage: int) -> bool {
    match o.fighter {
        Some(f) => o.alive && f.death is Some && damaged_hp(f.hp as int, damage) <= 0,
        None => false,
    }
}

/// What a melee attack of `a` on `t` makes of them and of the game.
pub open spec fn attack_outcome(a: Object, t: Object, g: Game, a2: Object, t2: Object, g2: Game) -> bool {
    let diff = spec_full_power(a, g.inventory@) - spec_full_defense(t, g.inventory@);
    let hit = hit_of(diff);
    if diff <= 0 {
        &&& a2 == a
        &&& t2 == t
        &&& same_but_log(g, g2)
        &&& g2.log@ == log_add(
            g.log@,
            (no_effect_text(a.name@, t.name@), Color::White),
        )
    } else {
        let g1 = log_add(
            g.log@,
            (attack_text(a.name@, t.name@, hit), Color::White),
        );
        &&& if hit_kills(t, hit) {
            let kind = t.fighter->Some_0.death->Some_0;
            &&& corpse_of(after_hit(t, hit), t2, kind)
            &&& same_but_log(g, g2)
            &&& g2.log@ == log_add(
                g1,
                death_message(kind, after_hit(t, hit)),
            )
            &&& if a.is_player_spec() && a.fighter is Some {
                a2 == (Object {
                    fighter: Some(Fighter {
                        xp: credited_xp(
                            a.fighter->Some_0.xp as int,
                            t.fighter->Some_0.xp as int,
                        ) as i32,
                        ..a.fighter->Some_0
                    }),
                    ..a
                })
            } else {
                a2 == a
            }
        } else {
            &&& t2 == after_hit(t, hit)
            &&& a2 == a
            &&& same_but_log(g, g2)
            &&& g2.log@ == g1
        }
    }
}

/// Death fires once: after its death transition an object is no longer
/// alive, so no later hit, whatever its size, brings on another.
pub proof fn lemma_death_fires_once(before: Object, after: Object, kind: DeathCallback, damage: int)
    requires
        corpse_of(before, after, kind),
    ensures
        !hit_kills(after, damage),
        !after_hit(after, damage).alive,
{
}

/// An attack changes neither side's equipment.
pub proof fn lemma_attack_keeps_equipment(a: Object, t: Object, g: Game, a2: Object, t2: Object, g2: Game)
    requires
        attack_outcome(a, t, g, a2, t2, g2),
    ensures
        a2.equipment == a.equipment,
        t2.equipment == t.equipment,
{
}

impl Object {
    /// Applies `damage` to the fighter; on its death transition returns the
    /// XP it was worth.
    pub fn take_damage(&mut self, damage: i32, game: &mut Game) -> (r: Option<i32>)
        ensures
            if hit_kills(*old(self), damage as int) {
                &&& r == Some(old(self).fighter->Some_0.xp)
                &&& died_as(
                    after_hit(*old(self), damage as int),
                    *final(self),
                    old(self).fighter->Some_0.death->Some_0,
                    *old(game),
                    *final(game),
                )
            } else {
                &&& r is None
                &&& *final(self) == after_hit(*old(self), damage as int)
                &&& *final(game) == *old(game)
            },
    {
        let death = match &mut self.fighter {
            Some(f) => {
                if damage > 0 {
                    let hp: i64 = f.hp as i64 - damage as i64;
                    f.hp = if hp < i32::MIN as i64 { i32::MIN } else { hp as i32 };
                }
                if f.hp <= 0 && self.alive {
                    match f.death {
                        Some(d) => Some((d, f.xp)),
                        None => None,
                    }
                } else {
                    None
                }
            },
            None => None,
        };
        match death {
            Some((d, xp)) => {
                d.callback(self, game);
                Some(xp)
            },
            None => None,
        }
    }

    /// Melee attack: the hit is the attacker's full power less the target's
    /// full defense. A hit that is not positive only says so in the log.
    /// When the player's attack kills the target, the player gains its XP.
    pub fn attack(&mut self, target: &mut Object, game: &mut Game)
        requires
            old(game).inventory@.len() <= INVENTORY_CAPACITY,
        ensures
            attack_outcome(*old(self), *old(target), *old(game), *final(self), *final(target), *final(game)),
    {
        let diff: i64 = self.full_power(game) - target.full_defense(game);
        if diff > 0 {
            let damage: i32 = if diff > i32::MAX as i64 { i32::MAX } else { diff as i32 };
            let text = self.name.clone().concat(" attacks ").concat(target.name.as_str()).concat(
                " for ",
            ).concat(decimal_text(damage).as_str()).concat(" hit points.");
            game.log.add(text, Color::White);
            match target.take_damage(damage, game) {
                Some(xp) => {
                    if self.is_player() {
                        match &mut self.fighter {
                            Some(f) => {
                                let sum: i64 = f.xp as i64 + xp as i64;
                                f.xp = if sum > i32::MAX as i64 {
                                    i32::MAX
                                } else if sum < i32::MIN as i64 {
                                    i32::MIN
                                } else {
                                    sum as i32
                                };
                            },
                            None => {},
                        }
                    }
                },
                None => {},
            }
        } else {
            let text = self.name.clone().concat(" attacks ").concat(target.name.as_str()).concat(
                " but it has no effect!",
            );
            game.log.add(text, Color::White);
        }
    }
}

/// Mutably borrows two distinct elements of `items`.
pub fn mut_two<T>(first_index: usize, second_index: usize, items: &mut [T]) -> (r: (&mut T, &mut T))
    requires
        first_index != second_index,
        first_index < old(items)@.len(),
        second_index < old(items)@.len(),
    ensures
        *r.0 == old(items)@[first_index as int],
        *r.1 == old(items)@[second_index as int],
        final(items)@ == old(items)@.update(first_index as int, *final(r.0)).update(
            second_index as int,
            *final(r.1),
        ),
{
    let split_at_index = if first_index < second_index {
        second_index
    } else {
        first_index
    };
    let (first_slice, second_slice) = items.split_at_mut(split_at_index);
    if first_index < second_index {
        (&mut first_slice[first_index], &mut second_slice[0])
    } else {
        (&mut second_slice[0], &mut first_slice[second_index])
    }
}

} // verus!
