//! One turn of play: the player's command, then the monsters' answer.

use vstd::prelude::*;
use crate::ai::{FovGrid, moved_by, move_by, run_monster_turns, world_turn};
use crate::combat::{attack_outcome, mut_two};
use crate::ai::same_equipment;
use crate::combat::lemma_attack_keeps_equipment;
use crate::game::{Game, is_equipped_item, none_equipped, one_per_slot};
use crate::inventory::{item_effect, lemma_item_effect_keeps_equipment};
use crate::log::log_add;
use crate::object::Color;
use crate::inventory::{as_dropped, as_picked_up, drop_item, pick_item_up, use_item, use_outcome};
use crate::progression::descent_outcome;
use crate::object::{Object, PLAYER, UseResult};
use crate::spells::Target;
use rand::StdRng;

verus! {

/// What the player asks for in a turn.
#[derive(Clone, Copy, Debug, PartialEq, Eq, Structural)]
pub enum Command {
    /// Step by (dx, dy), or attack what stands there.
    Move { dx: i32, dy: i32 },
    /// Let the monsters come.
    Wait,
    /// Pick up an item where the player stands.
    PickUp,
    /// Use an inventory item, with what a targeting prompt gave.
    UseItem { inventory_id: usize, target: Option<Target> },
    /// Drop an inventory item.
    Drop { inventory_id: usize },
    /// Take the stairs down, if the player stands on them.
    Descend,
    /// Leave the game.
    Exit,
    /// No input.
    Nothing,
}

/// How the player's command ended.
#[derive(Clone, Copy, Debug, PartialEq, Eq, Structural)]
pub enum PlayerAction {
    /// The command used the player's turn: the monsters act.
    TookTurn,
    DidntTakeTurn,
    Exit,
}

/// The first fighter standing at (x, y), if any.
pub open spec fn fighter_at(objects: Seq<Object>, x: int, y: int, i: int) -> bool {
    &&& 0 <= i < objects.len()
    &&& objects[i].fighter is Some
    &&& objects[i].x == x && objects[i].y == y
    &&& forall|j: int| 0 <= j < i ==> !((#[trigger] objects[j]).fighter is Some && objects[j].x == x && objects[j].y == y)
}

pub open spec fn no_fighter_at(objects: Seq<Object>, x: int, y: int) -> bool {
    forall|j: int| 0 <= j < objects.len() ==> !((#[trigger] objects[j]).fighter is Some && objects[j].x == x && objects[j].y == y)
}

fn first_fighter_at(objects: &Vec<Object>, x: i64, y: i64) -> (r: Option<usize>)
    ensures
        match r {
            Some(t) => fighter_at(objects@, x as int, y as int, t as int),
            None => no_fighter_at(objects@, x as int, y as int),
        },
{
    let mut i: usize = 0;
    while i < objects.len()
        invariant
            i <= objects@.len(),
            forall|j: int| 0 <= j < i ==> !((#[trigger] objects@[j]).fighter is Some && objects@[j].x == x && objects@[j].y == y),
        decreases objects@.len() - i,
    {
        if objects[i].fighter.is_some() && objects[i].x as i64 == x && objects[i].y as i64 == y {
            return Some(i);
        }
        i += 1;
    }
    None
}

/// What a step of the player by (dx, dy) makes of the objects and the game:
/// an attack on the first fighter standing there, or else a move (when the
/// cell is free) that asks for the view to be recomputed.
pub open spec fn move_or_attack_outcome(o: Seq<Object>, g: Game, dx: int, dy: int, o2: Seq<Object>, g2: Game) -> bool {
    let p = o[PLAYER as int];
    let x = p.x + dx;
    let y = p.y + dy;
    &&& g2.inventory == g.inventory
    &&& g2.map == g.map
    &&& g2.dungeon_level == g.dungeon_level
    &&& o2.len() == o.len()
    &&& if no_fighter_at(o, x, y) {
        &&& o2 == moved_by(g.map@, o, PLAYER as int, dx, dy)
        &&& g2.fov_recompute
        &&& g2.log@ == g.log@
    } else {
        exists|t: int| {
            &&& fighter_at(o, x, y, t)
            &&& t != PLAYER
            &&& attack_outcome(p, o[t], g, o2[PLAYER as int], o2[t], g2)
            &&& forall|j: int| 0 <= j < o.len() && j != t && j != PLAYER ==> #[trigger] o2[j] == o[j]
        }
    }
}

/// Attacks the first fighter at the player's position plus (dx, dy), or
/// else steps there when it is free.
pub fn player_move_or_attack(dx: i32, dy: i32, objects: &mut Vec<Object>, game: &mut Game)
    requires
        !(dx == 0 && dy == 0),
        old(objects)@.len() > PLAYER,
        old(game).wf(),
    ensures
        final(game).wf(),
        move_or_attack_outcome(old(objects)@, *old(game), dx as int, dy as int, final(objects)@, *final(game)),
{
    // the cell the player moves to or attacks
    let x: i64 = objects[PLAYER].x as i64 + dx as i64;
    let y: i64 = objects[PLAYER].y as i64 + dy as i64;

    // look for something to attack there
    let target_id = first_fighter_at(objects, x, y);
    match target_id {
        Some(target_id) => {
            let (player, target) = mut_two(PLAYER, target_id, objects.as_mut_slice());
            player.attack(target, game);
        },
        None => {
            move_by(PLAYER, dx, dy, objects, &game.map);
            game.fov_recompute = true;
        },
    }
}

pub open spec fn on_stairs_spec(objects: Seq<Object>) -> bool {
    exists|j: int|
        0 <= j < objects.len() && (#[trigger] objects[j]).name@ == "stairs"@ && objects[j].x == objects[PLAYER as int].x
            && objects[j].y == objects[PLAYER as int].y
}

/// Whether the player stands on the stairs (any object named "stairs"
/// at the player's cell).
pub fn on_stairs(objects: &Vec<Object>) -> (r: bool)
    requires
        objects@.len() > PLAYER,
    ensures
        r == on_stairs_spec(objects@),
{
    let (px, py) = objects[PLAYER].pos();
    let stairs = String::from_str("stairs");
    let mut i: usize = 0;
    while i < objects.len()
        invariant
            objects@.len() > PLAYER,
            px == objects@[PLAYER as int].x && py == objects@[PLAYER as int].y,
            stairs@ == "stairs"@,
            i <= objects@.len(),
            forall|j: int| 0 <= j < i ==> !((#[trigger] objects@[j]).name@ == "stairs"@ && objects@[j].x == px && objects@[j].y == py),
        decreases objects@.len() - i,
    {
        if objects[i].x == px && objects[i].y == py && objects[i].name == stairs {
            return true;
        }
        i += 1;
    }
    false
}

/// The first item other than the player lying where the player stands.
pub fn item_here(objects: &Vec<Object>) -> (r: Option<usize>)
    requires
        objects@.len() > PLAYER,
    ensures
        match r {
            Some(i) => {
                &&& i < objects@.len()
                &&& i != PLAYER
                &&& objects@[i as int].item is Some
                &&& objects@[i as int].x == objects@[PLAYER as int].x
                &&& objects@[i as int].y == objects@[PLAYER as int].y
            },
            None => forall|j: int|
                0 <= j < objects@.len() && j != PLAYER ==> !((#[trigger] objects@[j]).item is Some && objects@[j].x
                    == objects@[PLAYER as int].x && objects@[j].y == objects@[PLAYER as int].y),
        },
{
    let (px, py) = objects[PLAYER].pos();
    let mut i: usize = 0;
    while i < objects.len()
        invariant
            objects@.len() > PLAYER,
            px == objects@[PLAYER as int].x && py == objects@[PLAYER as int].y,
            i <= objects@.len(),
            forall|j: int| 0 <= j < i && j != PLAYER ==> !((#[trigger] objects@[j]).item is Some && objects@[j].x == px && objects@[j].y == py),
        decreases objects@.len() - i,
    {
        if i != PLAYER && objects[i].x == px && objects[i].y == py && objects[i].item.is_some() {
            return Some(i);
        }
        i += 1;
    }
    None
}

/// The state a game keeps from turn to turn: the player is there, the map
/// has its size, the inventory is within capacity with at most one item
/// equipped per slot, and nothing outside the inventory is equipped.
pub open spec fn world_ok(objects: Seq<Object>, game: Game) -> bool {
    &&& objects.len() > PLAYER
    &&& game.wf()
    &&& one_per_slot(game.inventory@)
    &&& none_equipped(objects)
}

proof fn lemma_move_or_attack_keeps_equipment(o: Seq<Object>, g: Game, dx: int, dy: int, o2: Seq<Object>, g2: Game)
    requires
        move_or_attack_outcome(o, g, dx, dy, o2, g2),
        o.len() > PLAYER,
    ensures
        same_equipment(o, o2),
{
    let p = o[PLAYER as int];
    if !no_fighter_at(o, p.x + dx, p.y + dy) {
        let t = choose|t: int| {
            &&& fighter_at(o, p.x + dx, p.y + dy, t)
            &&& t != PLAYER
            &&& attack_outcome(p, o[t], g, o2[PLAYER as int], o2[t], g2)
            &&& forall|j: int| 0 <= j < o.len() && j != t && j != PLAYER ==> #[trigger] o2[j] == o[j]
        };
        lemma_attack_keeps_equipment(p, o[t], g, o2[PLAYER as int], o2[t], g2);
        assert forall|j: int| 0 <= j < o.len() implies (#[trigger] o2[j]).equipment == o[j].equipment by {
            if j != t && j != PLAYER {
                assert(o2[j] == o[j]);
            }
        }
    }
}

proof fn lemma_same_equipment_keeps_none_equipped(o: Seq<Object>, o2: Seq<Object>)
    requires
        same_equipment(o, o2),
        none_equipped(o),
    ensures
        none_equipped(o2),
{
    assert forall|j: int| 0 <= j < o2.len() implies !is_equipped_item(#[trigger] o2[j]) by {
        assert(o2[j].equipment == o[j].equipment);
        assert(!is_equipped_item(o[j]));
    }
}

/// Whether a command uses the player's turn before it is carried out: a
/// move or a wait always does, a drop of an item that is there does, a use
/// does unless it is cancelled (decided as it is carried out), and nothing
/// else does.
pub open spec fn takes_turn(cmd: Command, inventory_len: int) -> bool {
    match cmd {
        Command::Move { .. } => true,
        Command::Wait => true,
        Command::Drop { inventory_id } => inventory_id < inventory_len,
        _ => false,
    }
}

/// What the player's command makes of the objects and the game, and how
/// it ends (`r`); `fov` holds the cells the player sees.
pub open spec fn command_outcome(
    cmd: Command,
    o: Seq<Object>,
    g: Game,
    fov: Seq<Vec<bool>>,
    r: PlayerAction,
    o2: Seq<Object>,
    g2: Game,
) -> bool {
    &&& cmd is Exit ==> r == PlayerAction::Exit && o2 == o && g2 == g
    &&& !(cmd is Exit) && !o[PLAYER as int].alive ==> r == PlayerAction::DidntTakeTurn && o2 == o && g2 == g
    &&& (cmd is Wait || cmd is Nothing) ==> o2 == o && g2 == g
    &&& !(cmd is Exit) && !(cmd is UseItem) && o[PLAYER as int].alive ==> r == if takes_turn(cmd, g.inventory@.len() as int) {
        PlayerAction::TookTurn
    } else {
        PlayerAction::DidntTakeTurn
    }
    &&& o[PLAYER as int].alive ==> match cmd {
        Command::Move { dx, dy } => !(dx == 0 && dy == 0) ==> move_or_attack_outcome(
            o,
            g,
            dx as int,
            dy as int,
            o2,
            g2,
        ),
        Command::Drop { inventory_id } => inventory_id < g.inventory@.len() ==> {
            &&& g2.inventory@ == g.inventory@.remove(inventory_id as int)
            &&& o2 == o.push(
                as_dropped(
                    g.inventory@[inventory_id as int],
                    o[PLAYER as int].x,
                    o[PLAYER as int].y,
                ),
            )
        },
        Command::PickUp => {
            let p = o[PLAYER as int];
            let inv = g.inventory@;
            if forall|j: int|
                0 <= j < o.len() && j != PLAYER ==> !((#[trigger] o[j]).item is Some
                    && o[j].x == p.x && o[j].y == p.y) {
                o2 == o && g2.inventory@ == inv
            } else if inv.len() >= crate::game::INVENTORY_CAPACITY {
                o2 == o && g2.inventory@ == inv
            } else {
                exists|i: int| {
                    &&& 0 <= i < o.len()
                    &&& i != PLAYER
                    &&& o[i].item is Some
                    &&& o[i].x == p.x && o[i].y == p.y
                    &&& o2 == o.update(i, o.last()).drop_last()
                    &&& g2.inventory@ == inv.push(as_picked_up(inv, o[i]))
                }
            }
        },
        Command::Descend => if on_stairs_spec(o) && g.dungeon_level < i32::MAX {
            descent_outcome(o, g, o2, g2)
        } else {
            o2 == o && g2 == g
        },
        Command::UseItem { inventory_id, target } => if inventory_id < g.inventory@.len() {
            exists|res: Option<UseResult>| {
                &&& use_outcome(inventory_id as int, o, g, fov, target, o2, g2, res)
                &&& r == if res is Some && res != Some(UseResult::Cancelled) {
                    PlayerAction::TookTurn
                } else {
                    PlayerAction::DidntTakeTurn
                }
            }
        } else {
            o2 == o && g2 == g && r == PlayerAction::DidntTakeTurn
        },
        _ => true,
    }
    &&& match cmd {
        Command::UseItem { inventory_id, .. } => r == PlayerAction::TookTurn
            ==> inventory_id < g.inventory@.len() && g.inventory@[inventory_id as int].item is Some,
        _ => true,
    }
}

/// Carries out the player's command; `fov` holds the cells the player
/// sees. A dead player can only leave.
pub fn handle_command(
    cmd: Command,
    objects: &mut Vec<Object>,
    game: &mut Game,
    rng: &mut StdRng,
    fov: &FovGrid,
) -> (r: PlayerAction)
    requires
        old(objects)@.len() > PLAYER,
        old(game).wf(),
    ensures
        final(objects)@.len() > PLAYER,
        final(game).wf(),
        one_per_slot(old(game).inventory@) && !(cmd is PickUp) ==> one_per_slot(final(game).inventory@),
        world_ok(old(objects)@, *old(game)) ==> world_ok(final(objects)@, *final(game)),
        command_outcome(cmd, old(objects)@, *old(game), fov@, r, final(objects)@, *final(game)),
{
    match cmd {
        Command::Exit => {
            return PlayerAction::Exit;
        },
        _ => {},
    }
    if !objects[PLAYER].alive {
        return PlayerAction::DidntTakeTurn;
    }
    match cmd {
        Command::Move { dx, dy } => {
            if !(dx == 0 && dy == 0) {
                let ghost o0 = objects@;
                let ghost g0 = *game;
                player_move_or_attack(dx, dy, objects, game);
                proof {
                    lemma_move_or_attack_keeps_equipment(o0, g0, dx as int, dy as int, objects@, *game);
                    if none_equipped(o0) {
                        lemma_same_equipment_keeps_none_equipped(o0, objects@);
                    }
                }
            }
            PlayerAction::TookTurn
        },
        Command::Wait => PlayerAction::TookTurn,
        Command::PickUp => {
            match item_here(objects) {
                Some(item_id) => {
                    let ghost o0 = objects@;
                    pick_item_up(item_id, objects, game);
                    proof {
                        if none_equipped(o0) {
                            assert(!is_equipped_item(o0[item_id as int]));
                            assert forall|j: int| 0 <= j < objects@.len() implies !is_equipped_item(#[trigger] objects@[j]) by {
                                if j == item_id {
                                    assert(!is_equipped_item(o0[o0.len() - 1]));
                                } else {
                                    assert(objects@[j] == o0[j]);
                                }
                            }
                        }
                    }
                },
                None => {},
            }
            PlayerAction::DidntTakeTurn
        },
        Command::UseItem { inventory_id, target } => {
            if inventory_id >= game.inventory.len() {
                return PlayerAction::DidntTakeTurn;
            }
            let ghost o0 = objects@;
            let ghost g0 = *game;
            let result = use_item(inventory_id, objects, game, fov, target);
            proof {
                match g0.inventory@[inventory_id as int].item {
                    Some(item) => {
                        let (g_mid, res) = choose|g_mid: Game, res: UseResult| {
                            &&& result == Some(res)
                            &&& item_effect(item, inventory_id as int, o0, g0, fov@, target, objects@, g_mid, res)
                            &&& game.inventory@ == if res == UseResult::UsedUp {
                                g_mid.inventory@.remove(inventory_id as int)
                            } else {
                                g_mid.inventory@
                            }
                            &&& game.fov_recompute == g_mid.fov_recompute
                            &&& game.log@ == if res == UseResult::Cancelled {
                                log_add(g_mid.log@, ("Cancelled"@, Color::White))
                            } else {
                                g_mid.log@
                            }
                        };
                        lemma_item_effect_keeps_equipment(item, inventory_id as int, o0, g0, fov@, target, objects@, g_mid, res);
                    },
                    None => {},
                }
                if none_equipped(o0) && objects@.len() == o0.len() {
                    assert forall|j: int| 0 <= j < objects@.len() implies !is_equipped_item(#[trigger] objects@[j]) by {
                        assert(!is_equipped_item(o0[j]));
                    }
                }
            }
            match result {
                Some(UseResult::Cancelled) => PlayerAction::DidntTakeTurn,
                Some(_) => PlayerAction::TookTurn,
                None => PlayerAction::DidntTakeTurn,
            }
        },
        Command::Drop { inventory_id } => {
            if inventory_id >= game.inventory.len() {
                return PlayerAction::DidntTakeTurn;
            }
            let ghost o0 = objects@;
            drop_item(inventory_id, objects, game);
            proof {
                if none_equipped(o0) {
                    assert forall|j: int| 0 <= j < objects@.len() implies !is_equipped_item(#[trigger] objects@[j]) by {
                        if j < o0.len() {
                            assert(objects@[j] == o0[j]);
                        }
                    }
                }
            }
            PlayerAction::TookTurn
        },
        Command::Descend => {
            if on_stairs(objects) && game.dungeon_level < i32::MAX {
                game.next_level(objects, rng);
                PlayerAction::DidntTakeTurn
            } else {
                PlayerAction::DidntTakeTurn
            }
        },
        Command::Exit => PlayerAction::Exit,
        Command::Nothing => PlayerAction::DidntTakeTurn,
    }
}

/// One turn: the player's command, then, when it used the turn and the
/// player still lives, one move of every monster.
pub fn play_turn(
    cmd: Command,
    objects: &mut Vec<Object>,
    game: &mut Game,
    rng: &mut StdRng,
    fov: &FovGrid,
) -> (r: PlayerAction)
    requires
        old(objects)@.len() > PLAYER,
        old(game).wf(),
    ensures
        final(objects)@.len() > PLAYER,
        final(game).wf(),
        cmd is Exit ==> r == PlayerAction::Exit && final(objects)@ == old(objects)@ && *final(game) == *old(game),
        !(cmd is Exit) && !old(objects)@[PLAYER as int].alive ==> r == PlayerAction::DidntTakeTurn && final(objects)@ == old(objects)@ && *final(game) == *old(game),
        one_per_slot(old(game).inventory@) && !(cmd is PickUp) ==> one_per_slot(final(game).inventory@),
        world_ok(old(objects)@, *old(game)) ==> world_ok(final(objects)@, *final(game)),
        exists|o_mid: Seq<Object>, g_mid: Game| {
            &&& command_outcome(cmd, old(objects)@, *old(game), fov@, r, o_mid, g_mid)
            &&& if r == PlayerAction::TookTurn && o_mid[PLAYER as int].alive {
                world_turn(fov@, o_mid, g_mid, final(objects)@, *final(game))
            } else {
                final(objects)@ == o_mid && *final(game) == g_mid
            }
        },
{
    let action = handle_command(cmd, objects, game, rng, fov);
    let ghost o_mid = objects@;
    let ghost g_mid = *game;
    let ghost ok = world_ok(objects@, *game);
    assert(world_ok(old(objects)@, *old(game)) ==> ok);
    if action == PlayerAction::TookTurn && objects[PLAYER].alive {
        let ghost o0 = objects@;
        let ghost g0 = *game;
        run_monster_turns(objects, game, rng, fov);
        proof {
            if none_equipped(o0) {
                lemma_same_equipment_keeps_none_equipped(o0, objects@);
            }
            assert(game.inventory == g0.inventory);
            assert(game.inventory@ == g0.inventory@);
            assert(ok ==> world_ok(objects@, *game));
        }
    }
    action
}

} // verus!
