//! Movement and monster behaviour.

use vstd::prelude::*;
use crate::combat::{attack_outcome, mut_two, same_but_log};
use crate::game::Game;
use crate::log::log_add;
use crate::map::{Tile, TileMap, in_map, map_wf, tile_at};
use crate::object::{Color, MonsterAI, MonsterAIType, Object, PLAYER, basic_ai, sq_dist};
use crate::rng::gen_range;
use rand::StdRng;

verus! {

/// Which cells the player sees: `fov[x][y]`.
pub type FovGrid = Vec<Vec<bool>>;

pub open spec fn spec_in_fov(fov: Seq<Vec<bool>>, x: int, y: int) -> bool {
    0 <= x < fov.len() && 0 <= y < fov[x]@.len() && fov[x]@[y]
}

/// Whether the player sees cell (x, y); cells outside the grid are unseen.
pub fn in_fov(fov: &FovGrid, x: i32, y: i32) -> (r: bool)
    ensures
        r == spec_in_fov(fov@, x as int, y as int),
{
    if x < 0 || y < 0 || x as usize >= fov.len() {
        return false;
    }
    let column = &fov[x as usize];
    if y as usize >= column.len() {
        return false;
    }
    column[y as usize]
}

/// Marks every cell the player sees as explored.
pub fn explore(map: &mut TileMap, fov: &FovGrid)
    requires
        map_wf(old(map)@),
    ensures
        map_wf(final(map)@),
        forall|x: int, y: int|
            in_map(x, y) ==> #[trigger] tile_at(final(map)@, x, y) == (Tile {
                explored: tile_at(old(map)@, x, y).explored || spec_in_fov(fov@, x, y),
                ..tile_at(old(map)@, x, y)
            }),
{
    let ghost orig = map@;
    let mut x: usize = 0;
    while x < crate::map::MAP_WIDTH as usize
        invariant
            x <= crate::map::MAP_WIDTH,
            map_wf(map@),
            map_wf(orig),
            forall|i: int, j: int|
                in_map(i, j) ==> #[trigger] tile_at(map@, i, j) == if i < x {
                    Tile { explored: tile_at(orig, i, j).explored || spec_in_fov(fov@, i, j), ..tile_at(orig, i, j) }
                } else {
                    tile_at(orig, i, j)
                },
        decreases crate::map::MAP_WIDTH - x,
    {
        let mut y: usize = 0;
        while y < crate::map::MAP_HEIGHT as usize
            invariant
                x < crate::map::MAP_WIDTH,
                y <= crate::map::MAP_HEIGHT,
                map_wf(map@),
                map_wf(orig),
                forall|i: int, j: int|
                    in_map(i, j) ==> #[trigger] tile_at(map@, i, j) == if i < x || (i == x && j < y) {
                        Tile { explored: tile_at(orig, i, j).explored || spec_in_fov(fov@, i, j), ..tile_at(orig, i, j) }
                    } else {
                        tile_at(orig, i, j)
                    },
            decreases crate::map::MAP_HEIGHT - y,
        {
            if in_fov(fov, x as i32, y as i32) {
                crate::map::mark_explored(map, x, y);
            }
            y += 1;
        }
        x += 1;
    }
}

/// The names of the objects at (x, y) when the player sees that cell, in
/// collection order.
pub fn names_under(objects: &Vec<Object>, fov: &FovGrid, x: i32, y: i32) -> (r: Vec<String>)
    ensures
        r@.len() <= objects@.len(),
        !spec_in_fov(fov@, x as int, y as int) ==> r@.len() == 0,
        spec_in_fov(fov@, x as int, y as int) ==> r@.map_values(|s: String| s@) == names_at(objects@, x as int, y as int, objects@.len() as int),
{
    let mut r: Vec<String> = Vec::new();
    if !in_fov(fov, x, y) {
        return r;
    }
    let mut i: usize = 0;
    while i < objects.len()
        invariant
            i <= objects@.len(),
            r@.len() <= i,
            r@.map_values(|s: String| s@) == names_at(objects@, x as int, y as int, i as int),
        decreases objects@.len() - i,
    {
        let ghost before = r@;
        if objects[i].x == x && objects[i].y == y {
            r.push(objects[i].name.clone());
            assert(r@.map_values(|s: String| s@) =~= before.map_values(|s: String| s@).push(objects@[i as int].name@));
        }
        i += 1;
    }
    r
}

/// The names of the objects among the first `n` that stand at (x, y).
pub open spec fn names_at(objects: Seq<Object>, x: int, y: int, n: int) -> Seq<Seq<char>>
    decreases n,
{
    if n <= 0 {
        Seq::empty()
    } else if objects[n - 1].x == x && objects[n - 1].y == y {
        names_at(objects, x, y, n - 1).push(objects[n - 1].name@)
    } else {
        names_at(objects, x, y, n - 1)
    }
}

/// A cell is blocked when it is off the map, solid, or holds a blocking
/// object.
pub open spec fn spec_blocked(map: Seq<Vec<Tile>>, objects: Seq<Object>, x: int, y: int) -> bool {
    ||| !in_map(x, y)
    ||| tile_at(map, x, y).blocked
    ||| exists|i: int| 0 <= i < objects.len() && #[trigger] objects[i].blocks && objects[i].x == x && objects[i].y == y
}

pub fn is_blocked(x: i32, y: i32, map: &TileMap, objects: &Vec<Object>) -> (r: bool)
    requires
        map_wf(map@),
    ensures
        r == spec_blocked(map@, objects@, x as int, y as int),
{
    if x < 0 || y < 0 || x >= crate::map::MAP_WIDTH || y >= crate::map::MAP_HEIGHT {
        return true;
    }
    if map[x as usize][y as usize].blocked {
        return true;
    }
    let mut i: usize = 0;
    while i < objects.len()
        invariant
            i <= objects@.len(),
            forall|j: int| 0 <= j < i ==> !(#[trigger] objects@[j].blocks && objects@[j].x == x && objects@[j].y == y),
        decreases objects@.len() - i,
    {
        if objects[i].blocks && objects[i].x == x && objects[i].y == y {
            return true;
        }
        i += 1;
    }
    false
}

/// The objects after object `id` tries to step by (dx, dy): it moves unless
/// the destination is blocked.
pub open spec fn moved_by(map: Seq<Vec<Tile>>, objects: Seq<Object>, id: int, dx: int, dy: int) -> Seq<Object> {
    let o = objects[id];
    if spec_blocked(map, objects, o.x + dx, o.y + dy) {
        objects
    } else {
        objects.update(id, Object { x: (o.x + dx) as i32, y: (o.y + dy) as i32, ..o })
    }
}

/// Move by the given amount, if the destination is not blocked.
pub fn move_by(id: usize, dx: i32, dy: i32, objects: &mut Vec<Object>, map: &TileMap)
    requires
        id < old(objects)@.len(),
        map_wf(map@),
    ensures
        final(objects)@ == moved_by(map@, old(objects)@, id as int, dx as int, dy as int),
{
    let x: i64 = objects[id].x as i64 + dx as i64;
    let y: i64 = objects[id].y as i64 + dy as i64;
    if x < 0 || y < 0 || x >= crate::map::MAP_WIDTH as i64 || y >= crate::map::MAP_HEIGHT as i64 {
        return;
    }
    if !is_blocked(x as i32, y as i32, map, objects) {
        objects[id].set_pos(x as i32, y as i32);
    }
}

/// One component of the unit vector along (a, b), rounded half away from
/// zero: a's sign when |a| / sqrt(a² + b²) ≥ 1/2, that is 3a² ≥ b²; else 0.
pub open spec fn unit_step(a: int, b: int) -> int {
    if a != 0 && 3 * a * a >= b * b {
        if a > 0 { 1 } else { -1 }
    } else {
        0
    }
}

fn unit_step_exec(a: i64, b: i64) -> (r: i32)
    requires
        -0x1_0000_0000 <= a <= 0x1_0000_0000,
        -0x1_0000_0000 <= b <= 0x1_0000_0000,
    ensures
        r == unit_step(a as int, b as int),
{
    assert(0 <= a * a <= 0x1_0000_0000_0000_0000) by (nonlinear_arith)
        requires
            -0x1_0000_0000 <= a <= 0x1_0000_0000,
    ;
    assert(0 <= b * b <= 0x1_0000_0000_0000_0000) by (nonlinear_arith)
        requires
            -0x1_0000_0000 <= b <= 0x1_0000_0000,
    ;
    let a2: i128 = a as i128 * a as i128;
    let b2: i128 = b as i128 * b as i128;
    assert(3 * a * a == 3 * a2) by (nonlinear_arith)
        requires
            a2 == a * a,
    ;
    if a != 0 && 3 * a2 >= b2 {
        if a > 0 { 1 } else { -1 }
    } else {
        0
    }
}

/// The objects after object `id` steps one grid unit toward (tx, ty).
pub open spec fn moved_toward(map: Seq<Vec<Tile>>, objects: Seq<Object>, id: int, tx: int, ty: int) -> Seq<Object> {
    let dx = tx - objects[id].x;
    let dy = ty - objects[id].y;
    moved_by(map, objects, id, unit_step(dx, dy), unit_step(dy, dx))
}

/// Step one grid unit along the rounded unit vector toward (target_x,
/// target_y), unless the destination is blocked.
pub fn move_towards(id: usize, target_x: i32, target_y: i32, objects: &mut Vec<Object>, map: &TileMap)
    requires
        id < old(objects)@.len(),
        map_wf(map@),
    ensures
        final(objects)@ == moved_toward(map@, old(objects)@, id as int, target_x as int, target_y as int),
{
    let dx: i64 = target_x as i64 - objects[id].x as i64;
    let dy: i64 = target_y as i64 - objects[id].y as i64;
    let sx = unit_step_exec(dx, dy);
    let sy = unit_step_exec(dy, dx);
    move_by(id, sx, sy, objects, map);
}

/// Both sequences have the same length and every object keeps its
/// equipment.
pub open spec fn same_equipment(o: Seq<Object>, o2: Seq<Object>) -> bool {
    &&& o2.len() == o.len()
    &&& forall|j: int| 0 <= j < o.len() ==> (#[trigger] o2[j]).equipment == o[j].equipment
}

/// The behaviour after one turn: a confused monster counts down its turns,
/// and once none are left gets back the behaviour it had (or `Basic`).
pub open spec fn ai_after_turn(ai: MonsterAI) -> MonsterAI {
    match ai.ai_type {
        MonsterAIType::Basic => ai,
        MonsterAIType::Confused { num_turns } => if num_turns > 0 {
            MonsterAI { old_ai: ai.old_ai, ai_type: MonsterAIType::Confused { num_turns: (num_turns - 1) as i32 } }
        } else {
            match ai.old_ai {
                Some(prior) => *prior,
                None => basic_ai(),
            }
        },
    }
}

/// The behaviour after `k` turns.
pub open spec fn ai_after_turns(ai: MonsterAI, k: nat) -> MonsterAI
    decreases k,
{
    if k == 0 {
        ai
    } else {
        ai_after_turns(ai_after_turn(ai), (k - 1) as nat)
    }
}

pub open spec fn no_longer_confused_text(name: Seq<char>) -> Seq<char> {
    "The "@ + name + " is no longer confused!"@
}

/// What a basic monster's turn does, for the monster `id` that the player
/// sees or not (`visible`).
pub open spec fn basic_turn(id: int, visible: bool, map: Seq<Vec<Tile>>, o: Seq<Object>, g: Game, o2: Seq<Object>, g2: Game) -> bool {
    let m = o[id];
    let p = o[PLAYER as int];
    if !visible {
        o2 == o && g2 == g
    } else if sq_dist(m.x as int, m.y as int, p.x as int, p.y as int) >= 4 {
        o2 == moved_toward(map, o, id, p.x as int, p.y as int) && g2 == g
    } else if p.fighter is Some && p.fighter->Some_0.hp > 0 {
        &&& o2.len() == o.len()
        &&& attack_outcome(m, p, g, o2[id], o2[PLAYER as int], g2)
        &&& forall|j: int| 0 <= j < o.len() && j != id && j != PLAYER ==> o2[j] == #[trigger] o[j]
    } else {
        o2 == o && g2 == g
    }
}

/// What one turn of the monster `id`, run by its behaviour `ai`, makes of
/// the objects and the game; `r` is the behaviour returned to replace
/// `ai`, and `ai2` what `ai` became. A basic monster acts as `basic_turn`
/// says; a confused one staggers by at most one cell per axis and counts
/// down, or, with no turns left, only says it is no longer confused.
pub open spec fn turn_outcome(
    ai: MonsterAI,
    id: int,
    fov: Seq<Vec<bool>>,
    o: Seq<Object>,
    g: Game,
    o2: Seq<Object>,
    g2: Game,
    r: Option<MonsterAI>,
    ai2: MonsterAI,
) -> bool {
    &&& (match r {
        Some(next) => next,
        None => ai2,
    }) == ai_after_turn(ai)
    &&& o2.len() == o.len()
    &&& same_but_log(g, g2)
    &&& o2[id].ai == o[id].ai
    &&& match ai.ai_type {
        MonsterAIType::Basic => r is None && basic_turn(
            id,
            spec_in_fov(fov, o[id].x as int, o[id].y as int),
            g.map@,
            o,
            g,
            o2,
            g2,
        ),
        MonsterAIType::Confused { num_turns } => if num_turns > 0 {
            &&& r is None
            &&& g2 == g
            &&& exists|dx: int, dy: int| -1 <= dx <= 1 && -1 <= dy <= 1 && o2 == moved_by(g.map@, o, id, dx, dy)
        } else {
            &&& r is Some
            &&& o2 == o
            &&& g2.log@ == log_add(g.log@, (no_longer_confused_text(o[id].name@), Color::Red))
        },
    }
}

impl MonsterAI {
    /// One turn of the monster `monster_id`, whose behaviour this is. Returns
    /// the behaviour that replaces this one, if it is to be replaced.
    pub fn take_turn(
        &mut self,
        monster_id: usize,
        objects: &mut Vec<Object>,
        game: &mut Game,
        rng: &mut StdRng,
        fov: &FovGrid,
    ) -> (r: Option<MonsterAI>)
        requires
            monster_id < old(objects)@.len(),
            monster_id != PLAYER,
            old(objects)@.len() > PLAYER,
            old(game).wf(),
        ensures
            (match r {
                Some(next) => next,
                None => *final(self),
            }) == ai_after_turn(*old(self)),
            final(objects)@.len() == old(objects)@.len(),
            same_equipment(old(objects)@, final(objects)@),
            same_but_log(*old(game), *final(game)),
            final(objects)@[monster_id as int].ai == old(objects)@[monster_id as int].ai,
            forall|j: int|
                0 <= j < old(objects)@.len() && j != monster_id && j != PLAYER
                    ==> #[trigger] final(objects)@[j] == old(objects)@[j],
            turn_outcome(
                *old(self),
                monster_id as int,
                fov@,
                old(objects)@,
                *old(game),
                final(objects)@,
                *final(game),
                r,
                *final(self),
            ),
    {
        match self.ai_type {
            MonsterAIType::Basic => self.monster_basic_ai(monster_id, objects, game, fov),
            MonsterAIType::Confused { .. } => self.monster_confused_ai(monster_id, objects, game, rng),
        }
    }

    /// If the player sees the monster: step toward the player when two or
    /// more cells away, else attack the player while the player lives.
    pub fn monster_basic_ai(
        &mut self,
        monster_id: usize,
        objects: &mut Vec<Object>,
        game: &mut Game,
        fov: &FovGrid,
    ) -> (r: Option<MonsterAI>)
        requires
            monster_id < old(objects)@.len(),
            monster_id != PLAYER,
            old(objects)@.len() > PLAYER,
            old(game).wf(),
        ensures
            r is None,
            *final(self) == *old(self),
            final(objects)@.len() == old(objects)@.len(),
            same_equipment(old(objects)@, final(objects)@),
            same_but_log(*old(game), *final(game)),
            final(objects)@[monster_id as int].ai == old(objects)@[monster_id as int].ai,
            forall|j: int|
                0 <= j < old(objects)@.len() && j != monster_id && j != PLAYER
                    ==> #[trigger] final(objects)@[j] == old(objects)@[j],
            basic_turn(
                monster_id as int,
                spec_in_fov(fov@, old(objects)@[monster_id as int].x as int, old(objects)@[monster_id as int].y as int),
                old(game).map@,
                old(objects)@,
                *old(game),
                final(objects)@,
                *final(game),
            ),
    {
        let (monster_x, monster_y) = objects[monster_id].pos();
        if in_fov(fov, monster_x, monster_y) {
            let d2 = objects[monster_id].dist_sq_to(&objects[PLAYER]);
            if d2 >= 4 {
                let (player_x, player_y) = objects[PLAYER].pos();
                move_towards(monster_id, player_x, player_y, objects, &game.map);
            } else {
                let player_alive = match &objects[PLAYER].fighter {
                    Some(f) => f.hp > 0,
                    None => false,
                };
                if player_alive {
                    let ghost before = objects@;
                    let ghost g0 = *game;
                    let (monster, player) = mut_two(monster_id, PLAYER, objects.as_mut_slice());
                    monster.attack(player, game);
                    proof {
                        crate::combat::lemma_attack_keeps_equipment(
                            before[monster_id as int],
                            before[PLAYER as int],
                            g0,
                            objects@[monster_id as int],
                            objects@[PLAYER as int],
                            *game,
                        );
                    }
                }
            }
        }
        None
    }

    /// A confused monster staggers one step in a random direction (the zero
    /// step included) and counts down; with no turns left it gets its
    /// previous behaviour back, or `Basic` when it had none.
    pub fn monster_confused_ai(
        &mut self,
        monster_id: usize,
        objects: &mut Vec<Object>,
        game: &mut Game,
        rng: &mut StdRng,
    ) -> (r: Option<MonsterAI>)
        requires
            old(self).ai_type is Confused,
            monster_id < old(objects)@.len(),
            old(game).wf(),
        ensures
            (match r {
                Some(next) => next,
                None => *final(self),
            }) == ai_after_turn(*old(self)),
            same_but_log(*old(game), *final(game)),
            final(objects)@.len() == old(objects)@.len(),
            same_equipment(old(objects)@, final(objects)@),
            old(self).ai_type->num_turns > 0 ==> {
                &&& r is None
                &&& *final(game) == *old(game)
                &&& exists|dx: int, dy: int|
                    -1 <= dx <= 1 && -1 <= dy <= 1 && final(objects)@ == moved_by(
                        old(game).map@,
                        old(objects)@,
                        monster_id as int,
                        dx,
                        dy,
                    )
            },
            old(self).ai_type->num_turns <= 0 ==> {
                &&& r is Some
                &&& final(objects)@ == old(objects)@
                &&& final(game).log@ == log_add(
                    old(game).log@,
                    (no_longer_confused_text(old(objects)@[monster_id as int].name@), Color::Red),
                )
            },
            forall|j: int|
                0 <= j < old(objects)@.len() && j != monster_id
                    ==> #[trigger] final(objects)@[j] == old(objects)@[j],
            final(objects)@[monster_id as int].ai == old(objects)@[monster_id as int].ai,
    {
        let num_turns = match self.ai_type {
            MonsterAIType::Confused { num_turns } => num_turns,
            MonsterAIType::Basic => 0,
        };
        if num_turns > 0 {
            let dx = gen_range(rng, -1, 2);
            let dy = gen_range(rng, -1, 2);
            move_by(monster_id, dx, dy, objects, &game.map);
            self.ai_type = MonsterAIType::Confused { num_turns: num_turns - 1 };
            None
        } else {
            let text = String::from_str("The ").concat(objects[monster_id].name.as_str()).concat(
                " is no longer confused!",
            );
            game.log.add(text, Color::Red);
            match self.old_ai.take() {
                Some(prior) => Some(*prior),
                None => Some(MonsterAI { old_ai: None, ai_type: MonsterAIType::Basic }),
            }
        }
    }
}

/// The behaviour slot of an object after one turn.
pub open spec fn ai_slot_after_turn(slot: Option<MonsterAI>) -> Option<MonsterAI> {
    match slot {
        Some(ai) => Some(ai_after_turn(ai)),
        None => None,
    }
}

/// Step `id` of a world turn: the player and objects without a behaviour
/// are passed over; any other object has its behaviour taken out, takes
/// its turn, and gets back the behaviour that follows.
pub open spec fn monster_step(id: int, fov: Seq<Vec<bool>>, o: Seq<Object>, g: Game, o2: Seq<Object>, g2: Game) -> bool {
    if id == PLAYER || o[id].ai is None {
        o2 == o && g2 == g
    } else {
        let taken = o.update(id, Object { ai: None, ..o[id] });
        exists|mid: Seq<Object>, r: Option<MonsterAI>, ai2: MonsterAI| {
            &&& turn_outcome(o[id].ai->Some_0, id, fov, taken, g, mid, g2, r, ai2)
            &&& o2 == mid.update(id, Object {
                ai: Some(match r {
                    Some(next) => next,
                    None => ai2,
                }),
                ..mid[id]
            })
        }
    }
}

/// `states` runs through a world turn: from each state to the next, the
/// object at that index takes its step.
pub open spec fn turn_chain(fov: Seq<Vec<bool>>, states: Seq<(Seq<Object>, Game)>) -> bool {
    forall|k: int|
        0 <= k < states.len() - 1 ==> monster_step(k, fov, (#[trigger] states[k]).0, states[k].1, states[k + 1].0, states[k + 1].1)
}

/// A whole world turn from (o, g) to (o2, g2): one step per object, in
/// index order.
pub open spec fn world_turn(fov: Seq<Vec<bool>>, o: Seq<Object>, g: Game, o2: Seq<Object>, g2: Game) -> bool {
    exists|states: Seq<(Seq<Object>, Game)>| {
        &&& states.len() == o.len() + 1
        &&& states[0] == (o, g)
        &&& states.last() == (o2, g2)
        &&& turn_chain(fov, states)
    }
}

/// One world turn: every object but the player that has a behaviour acts
/// once, in index order.
pub fn run_monster_turns(objects: &mut Vec<Object>, game: &mut Game, rng: &mut StdRng, fov: &FovGrid)
    requires
        old(objects)@.len() > PLAYER,
        old(game).wf(),
    ensures
        final(objects)@.len() == old(objects)@.len(),
        same_but_log(*old(game), *final(game)),
        forall|j: int|
            0 <= j < old(objects)@.len() && j != PLAYER ==> (#[trigger] final(objects)@[j]).ai
                == ai_slot_after_turn(old(objects)@[j].ai),
        forall|j: int|
            0 <= j < old(objects)@.len() && j != PLAYER && old(objects)@[j].ai is None
                ==> #[trigger] final(objects)@[j] == old(objects)@[j],
        same_equipment(old(objects)@, final(objects)@),
        world_turn(fov@, old(objects)@, *old(game), final(objects)@, *final(game)),
{
    let ghost orig = objects@;
    let ghost orig_game = *game;
    let ghost mut states: Seq<(Seq<Object>, Game)> = seq![(objects@, *game)];
    let mut id: usize = 0;
    while id < objects.len()
        invariant
            objects@.len() == orig.len(),
            orig.len() > PLAYER,
            id <= orig.len(),
            orig_game.wf(),
            same_but_log(orig_game, *game),
            forall|j: int|
                0 <= j < id && j != PLAYER ==> (#[trigger] objects@[j]).ai == ai_slot_after_turn(orig[j].ai),
            forall|j: int| id <= j < orig.len() && j != PLAYER ==> (#[trigger] objects@[j]).ai == orig[j].ai,
            forall|j: int| 0 <= j < orig.len() && j != PLAYER && orig[j].ai is None ==> #[trigger] objects@[j] == orig[j],
            same_equipment(orig, objects@),
            states.len() == id + 1,
            states[0] == (orig, orig_game),
            states.last() == (objects@, *game),
            turn_chain(fov@, states),
        decreases orig.len() - id,
    {
        let ghost o0 = objects@;
        let ghost g0 = *game;
        if id != PLAYER {
            let taken = objects[id].ai.take();
            match taken {
                Some(mut ai) => {
                    let ghost before = objects@;
                    let ghost ai0 = ai;
                    assert(before =~= o0.update(id as int, Object { ai: None, ..o0[id as int] }));
                    let new_ai = ai.take_turn(id, objects, game, rng, fov);
                    let ghost mid = objects@;
                    assert(forall|j: int| 0 <= j < orig.len() && j != id && j != PLAYER ==> #[trigger] objects@[j] == before[j]);
                    objects[id].ai = match new_ai {
                        Some(next) => Some(next),
                        None => Some(ai),
                    };
                    assert(objects@ =~= mid.update(id as int, Object {
                        ai: Some(match new_ai {
                            Some(next) => next,
                            None => ai,
                        }),
                        ..mid[id as int]
                    }));
                    assert(monster_step(id as int, fov@, o0, g0, objects@, *game));
                },
                None => {
                    assert(objects@ =~= o0);
                },
            }
        }
        proof {
            let old_states = states;
            states = states.push((objects@, *game));
            assert(monster_step(id as int, fov@, o0, g0, objects@, *game));
            assert forall|k: int| 0 <= k < states.len() - 1 implies monster_step(
                k,
                fov@,
                (#[trigger] states[k]).0,
                states[k].1,
                states[k + 1].0,
                states[k + 1].1,
            ) by {
                if k < id {
                    assert(states[k] == old_states[k] && states[k + 1] == old_states[k + 1]);
                } else {
                    assert(states[k] == (o0, g0));
                }
            }
        }
        id += 1;
    }
}

/// A behaviour confused for `n` turns stays confused for its first `n`
/// turns, counting down, and on the next turn is exactly the behaviour it
/// wrapped, or `Basic` when it wrapped none.
pub proof fn lemma_confusion_restores(old_ai: Option<Box<MonsterAI>>, n: i32, k: nat)
    requires
        n >= 0,
        k <= n,
    ensures
        ai_after_turns(MonsterAI { old_ai, ai_type: MonsterAIType::Confused { num_turns: n } }, k)
            == (MonsterAI { old_ai, ai_type: MonsterAIType::Confused { num_turns: (n - k) as i32 } }),
        ai_after_turns(
            MonsterAI { old_ai, ai_type: MonsterAIType::Confused { num_turns: n } },
            (n + 1) as nat,
        ) == match old_ai {
            Some(prior) => *prior,
            None => basic_ai(),
        },
    decreases n,
{
    let c = MonsterAI { old_ai, ai_type: MonsterAIType::Confused { num_turns: n } };
    let restored = match old_ai {
        Some(prior) => *prior,
        None => basic_ai(),
    };
    if n == 0 {
        assert(ai_after_turn(c) == restored);
        assert(ai_after_turns(restored, 0) == restored);
    } else {
        let c1 = MonsterAI { old_ai, ai_type: MonsterAIType::Confused { num_turns: (n - 1) as i32 } };
        assert(ai_after_turn(c) == c1);
        if k > 0 {
            lemma_confusion_restores(old_ai, (n - 1) as i32, (k - 1) as nat);
            assert(ai_after_turns(c, k) == ai_after_turns(c1, (k - 1) as nat));
        }
        lemma_confusion_restores(old_ai, (n - 1) as i32, 0);
        assert(ai_after_turns(c, (n + 1) as nat) == ai_after_turns(c1, n as nat));
    }
}

} // verus!
