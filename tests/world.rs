use rand::{SeedableRng, StdRng};
use roguelike::ai::{in_fov, is_blocked, move_towards, names_under, run_monster_turns, FovGrid};
use roguelike::dungeon::{from_dungeon_level, make_map, new_item, new_monster, place_objects};
use roguelike::game::Game;
use roguelike::geometry::Rect;
use roguelike::log::MessageLog;
use roguelike::map::{create_h_tunnel, create_room, create_v_tunnel, new_map, TileMap};
use roguelike::object::{Color, DeathCallback, Fighter, Item, MonsterAI, MonsterAIType, Object};
use roguelike::progression::{level_up, needs_level_up, StatChoice};
use roguelike::turn::{handle_command, play_turn, Command, PlayerAction};

fn rng(seed: usize) -> StdRng {
    SeedableRng::from_seed(&[seed, 7, 11][..])
}

fn empty_game() -> Game {
    Game { dungeon_level: 1, map: new_map(), fov_recompute: false, log: MessageLog::new(), inventory: vec![] }
}

fn player_at(x: i32, y: i32) -> Object {
    let mut p = Object::new(x, y, '@', "player", Color::White, true);
    p.alive = true;
    p.level = 1;
    p.fighter = Some(Fighter { base_max_hp: 100, hp: 100, base_defense: 1, base_power: 2, xp: 0, death: Some(DeathCallback::Player) });
    p
}

fn open_area(map: &mut TileMap) {
    create_room(Rect::new(0, 0, 30, 30), map);
}

fn all_visible() -> FovGrid {
    vec![vec![true; 43]; 80]
}

fn centre(r: &Rect) -> (i32, i32) {
    r.center()
}

fn floor(map: &TileMap, x: i32, y: i32) -> bool {
    !map[x as usize][y as usize].blocked && !map[x as usize][y as usize].block_sight
}

fn reachable(map: &TileMap, from: (i32, i32), to: (i32, i32)) -> bool {
    let mut seen = vec![vec![false; 43]; 80];
    let mut stack = vec![from];
    while let Some((x, y)) = stack.pop() {
        if (x, y) == to {
            return true;
        }
        if x < 0 || y < 0 || x >= 80 || y >= 43 || seen[x as usize][y as usize] || !floor(map, x, y) {
            continue;
        }
        seen[x as usize][y as usize] = true;
        stack.extend([(x + 1, y), (x - 1, y), (x, y + 1), (x, y - 1)]);
    }
    false
}

#[test]
fn generated_levels_keep_their_guarantees() {
    for seed in 0..12 {
        let mut objects = vec![player_at(0, 0)];
        let (map, rooms) = make_map(&mut objects, 3, &mut rng(seed));
        assert!(!rooms.is_empty() && rooms.len() <= 30);
        for (i, a) in rooms.iter().enumerate() {
            let (w, h) = (a.x2 - a.x1, a.y2 - a.y1);
            assert!((6..=10).contains(&w) && (6..=10).contains(&h));
            for x in a.x1 + 1..a.x2 {
                for y in a.y1 + 1..a.y2 {
                    assert!(floor(&map, x, y));
                }
            }
            for b in rooms.iter().skip(i + 1) {
                assert!(!a.intersect(b));
            }
            assert!(reachable(&map, centre(&rooms[0]), centre(a)));
        }
        assert_eq!(objects[0].pos(), centre(&rooms[0]));
        let stairs = objects.last().unwrap();
        assert_eq!(stairs.name, "stairs");
        assert!(stairs.always_visible);
        assert_eq!(stairs.pos(), centre(rooms.last().unwrap()));
        for o in &objects[1..objects.len() - 1] {
            assert!(o.pos() != objects[0].pos());
            assert!(rooms.iter().any(|r| r.x1 < o.x && o.x < r.x2 && r.y1 < o.y && o.y < r.y2));
        }
    }
}

#[test]
fn regenerating_drops_everything_but_the_player() {
    let mut objects = vec![player_at(0, 0), player_at(1, 1), player_at(2, 2)];
    objects[1].name = "orc".to_string();
    objects[2].name = "orc".to_string();
    let first = make_map(&mut objects, 1, &mut rng(3));
    assert!(objects.iter().skip(1).all(|o| o.name != "player"));
    assert_eq!(objects[0].name, "player");
    assert!(!first.1.is_empty());
}

#[test]
fn room_population_follows_the_tables() {
    let mut map = new_map();
    let room = Rect::new(10, 10, 8, 8);
    create_room(room, &mut map);
    for seed in 0..20 {
        let mut objects = vec![player_at(0, 0)];
        place_objects(room, &map, &mut objects, 1, &mut rng(seed));
        // level 1: at most 2 monsters and 1 item, orcs and healing potions only
        assert!(objects.len() <= 4);
        for o in &objects[1..] {
            assert!(o.name == "orc" || o.name == "healing potion");
            assert!(room.x1 < o.x && o.x < room.x2 && room.y1 < o.y && o.y < room.y2);
        }
    }
}

#[test]
fn spawn_tables() {
    let table = [(2u32, 1i32), (3, 4), (5, 6)];
    assert_eq!(from_dungeon_level(&table, 0), 0);
    assert_eq!(from_dungeon_level(&table, 1), 2);
    assert_eq!(from_dungeon_level(&table, 5), 3);
    assert_eq!(from_dungeon_level(&table, 9), 5);
    assert_eq!(from_dungeon_level(&[], 9), 0);
}

#[test]
fn spawn_templates() {
    let troll = new_monster(1, 3, 4);
    assert_eq!(troll.name, "troll");
    assert_eq!(troll.fighter, Some(Fighter { hp: 30, base_max_hp: 30, base_defense: 2, base_power: 8, xp: 100, death: Some(DeathCallback::Monster) }));
    let orc = new_monster(0, 3, 4);
    assert_eq!(orc.fighter.unwrap().xp, 35);
    let shield = new_item(5, 1, 1);
    assert_eq!(shield.item, Some(Item::Shield));
    assert_eq!(shield.equipment.unwrap().defense_bonus, 1);
    assert_eq!(new_item(2, 1, 1).name, "scroll of fireball");
}

#[test]
fn rectangles() {
    let a = Rect::new(2, 3, 6, 7);
    assert_eq!((a.x2, a.y2), (8, 10));
    assert_eq!(a.center(), (5, 6));
    assert!(a.intersect(&Rect::new(8, 10, 6, 6)));
    assert!(!a.intersect(&Rect::new(9, 10, 6, 6)));
    assert_eq!(Rect::new(-5, -5, 2, 2).center(), (-4, -4));
}

#[test]
fn tunnels_carve_both_ends() {
    let mut map = new_map();
    create_h_tunnel(20, 10, 5, &mut map);
    create_v_tunnel(30, 25, 10, &mut map);
    assert!(floor(&map, 10, 5) && floor(&map, 20, 5) && !floor(&map, 21, 5));
    assert!(floor(&map, 10, 25) && floor(&map, 10, 30) && !floor(&map, 10, 24));
}

#[test]
fn blocking_and_movement() {
    let mut map = new_map();
    open_area(&mut map);
    let mut objects = vec![player_at(10, 10), player_at(5, 5)];
    objects[1].name = "orc".to_string();
    assert!(is_blocked(0, 0, &map, &objects));
    assert!(is_blocked(10, 10, &map, &objects));
    assert!(is_blocked(-1, 3, &map, &objects));
    assert!(!is_blocked(11, 10, &map, &objects));
    // toward (10, 10) from (5, 5): a diagonal step
    move_towards(1, 10, 10, &mut objects, &map);
    assert_eq!(objects[1].pos(), (6, 6));
    // nearly horizontal: 3·1 < 5² so no vertical step
    objects[1].set_pos(5, 9);
    move_towards(1, 10, 10, &mut objects, &map);
    assert_eq!(objects[1].pos(), (6, 9));
    // into a wall: no move
    objects[1].set_pos(1, 1);
    move_towards(1, -5, 1, &mut objects, &map);
    assert_eq!(objects[1].pos(), (1, 1));
    assert_eq!(objects[1].dist_sq_to(&objects[0]), 81 + 81);
}

#[test]
fn visibility_lookup_and_names() {
    let mut fov = all_visible();
    fov[3][4] = false;
    assert!(in_fov(&fov, 2, 2));
    assert!(!in_fov(&fov, 3, 4));
    assert!(!in_fov(&fov, 80, 0));
    let mut a = player_at(2, 2);
    a.name = "orc".to_string();
    let objects = vec![player_at(1, 1), a, Object::new(2, 2, '!', "healing potion", Color::Violet, false)];
    assert_eq!(names_under(&objects, &fov, 2, 2), vec!["orc".to_string(), "healing potion".to_string()]);
    assert!(names_under(&objects, &fov, 3, 4).is_empty());
}

fn orc(x: i32, y: i32) -> Object {
    let mut o = new_monster(0, x, y);
    o.ai = Some(MonsterAI { old_ai: None, ai_type: MonsterAIType::Basic });
    o
}

#[test]
fn seen_monster_walks_then_attacks() {
    let mut game = empty_game();
    open_area(&mut game.map);
    let mut objects = vec![player_at(10, 10), orc(13, 10)];
    run_monster_turns(&mut objects, &mut game, &mut rng(1), &all_visible());
    assert_eq!(objects[1].pos(), (12, 10));
    run_monster_turns(&mut objects, &mut game, &mut rng(1), &all_visible());
    assert_eq!(objects[1].pos(), (11, 10));
    run_monster_turns(&mut objects, &mut game, &mut rng(1), &all_visible());
    // orc power 4 against player defense 1
    assert_eq!(objects[0].fighter.as_ref().unwrap().hp, 97);
    assert_eq!(game.log.messages().last().unwrap().0, "orc attacks player for 3 hit points.");
}

#[test]
fn unseen_monster_waits() {
    let mut game = empty_game();
    open_area(&mut game.map);
    let mut objects = vec![player_at(10, 10), orc(13, 10)];
    let fov = vec![vec![false; 43]; 80];
    run_monster_turns(&mut objects, &mut game, &mut rng(1), &fov);
    assert_eq!(objects[1].pos(), (13, 10));
}

#[test]
fn confusion_lasts_exactly_its_turns() {
    let mut game = empty_game();
    open_area(&mut game.map);
    let mut objects = vec![player_at(2, 2), orc(20, 20)];
    let prior = MonsterAI { old_ai: None, ai_type: MonsterAIType::Basic };
    objects[1].ai = Some(MonsterAI { old_ai: Some(Box::new(prior.clone())), ai_type: MonsterAIType::Confused { num_turns: 3 } });
    let fov = vec![vec![false; 43]; 80];
    let mut r = rng(5);
    for left in [2, 1, 0] {
        run_monster_turns(&mut objects, &mut game, &mut r, &fov);
        assert_eq!(objects[1].ai.as_ref().unwrap().ai_type, MonsterAIType::Confused { num_turns: left });
        let (x, y) = objects[1].pos();
        assert!((17..=23).contains(&x) && (17..=23).contains(&y));
    }
    run_monster_turns(&mut objects, &mut game, &mut r, &fov);
    assert_eq!(objects[1].ai, Some(prior));
    assert_eq!(game.log.messages().last().unwrap().0, "The orc is no longer confused!");
}

#[test]
fn confusion_without_prior_restores_basic() {
    let mut game = empty_game();
    open_area(&mut game.map);
    let mut objects = vec![player_at(2, 2), orc(20, 20)];
    objects[1].ai = Some(MonsterAI { old_ai: None, ai_type: MonsterAIType::Confused { num_turns: 0 } });
    run_monster_turns(&mut objects, &mut game, &mut rng(2), &all_visible());
    assert_eq!(objects[1].ai, Some(MonsterAI { old_ai: None, ai_type: MonsterAIType::Basic }));
}

#[test]
fn level_up_spends_the_threshold() {
    let mut game = empty_game();
    let mut objects = vec![player_at(1, 1)];
    objects[0].fighter.as_mut().unwrap().xp = 349;
    assert!(!needs_level_up(&objects));
    level_up(&mut objects, &mut game, StatChoice::Strength);
    assert_eq!(objects[0].level, 1);
    objects[0].fighter.as_mut().unwrap().xp = 400;
    assert!(needs_level_up(&objects));
    level_up(&mut objects, &mut game, StatChoice::Constitution);
    let f = objects[0].fighter.unwrap();
    assert_eq!(objects[0].level, 2);
    assert_eq!(f.xp, 50);
    assert_eq!((f.base_max_hp, f.hp), (120, 120));
    assert_eq!(game.log.messages().last().unwrap().0, "Your battle skills grow stronger! You reached level 2!");
    // the next threshold is 500
    assert!(!needs_level_up(&objects));
    objects[0].fighter.as_mut().unwrap().xp = 500;
    level_up(&mut objects, &mut game, StatChoice::Agility);
    assert_eq!(objects[0].fighter.unwrap().xp, 0);
    assert_eq!(objects[0].fighter.unwrap().base_defense, 2);
}

#[test]
fn new_game_and_descent() {
    let mut r = rng(4);
    let (mut game, mut objects) = Game::new(&mut r);
    assert_eq!(game.dungeon_level, 1);
    assert!(game.check_wf());
    assert_eq!(game.inventory[0].name, "dagger");
    assert_eq!(objects[0].full_power(&game), 4);
    assert_eq!(game.log.messages()[0].0, "Welcome stranger! Prepare to perish in the Tombs of the Ancient Kings.");
    objects[0].fighter.as_mut().unwrap().hp = 10;
    let stairs = objects.last().unwrap().pos();
    objects[0].set_pos(stairs.0, stairs.1);
    let a = handle_command(Command::Descend, &mut objects, &mut game, &mut r, &all_visible());
    assert_eq!(a, PlayerAction::DidntTakeTurn);
    assert_eq!(game.dungeon_level, 2);
    assert_eq!(objects[0].fighter.unwrap().hp, 60);
    assert!(objects.iter().filter(|o| o.name == "player").count() == 1);
}

#[test]
fn commands_and_turns() {
    let mut game = empty_game();
    open_area(&mut game.map);
    let mut objects = vec![player_at(10, 10), orc(20, 20)];
    let mut r = rng(9);
    let fov = all_visible();
    assert_eq!(play_turn(Command::Move { dx: 1, dy: 0 }, &mut objects, &mut game, &mut r, &fov), PlayerAction::TookTurn);
    assert_eq!(objects[0].pos(), (11, 10));
    assert!(game.fov_recompute);
    assert_eq!(objects[1].pos(), (19, 19));
    assert_eq!(play_turn(Command::PickUp, &mut objects, &mut game, &mut r, &fov), PlayerAction::DidntTakeTurn);
    assert_eq!(objects[1].pos(), (19, 19));
    assert_eq!(play_turn(Command::Exit, &mut objects, &mut game, &mut r, &fov), PlayerAction::Exit);
    objects[0].alive = false;
    assert_eq!(play_turn(Command::Wait, &mut objects, &mut game, &mut r, &fov), PlayerAction::DidntTakeTurn);
    assert_eq!(objects[1].pos(), (19, 19));
}

#[test]
fn room_sizes_and_spawns_vary_with_the_draws() {
    let mut widths = std::collections::BTreeSet::new();
    for seed in 0..6 {
        let mut objects = vec![player_at(0, 0)];
        let (_, rooms) = make_map(&mut objects, 1, &mut rng(seed));
        for r in &rooms {
            widths.insert(r.x2 - r.x1);
        }
    }
    assert!(widths.len() > 1);

    // deep levels draw trolls and every kind of item now and then
    let mut map = new_map();
    let room = Rect::new(10, 10, 10, 10);
    create_room(room, &mut map);
    let mut names = std::collections::BTreeSet::new();
    for seed in 0..200 {
        let mut objects = vec![player_at(0, 0)];
        place_objects(room, &map, &mut objects, 8, &mut rng(seed));
        for o in &objects[1..] {
            names.insert(o.name.clone());
        }
    }
    assert!(names.contains("troll") && names.contains("orc"));
    assert!(names.contains("shield") && names.contains("scroll of fireball"));
}

#[test]
fn corridors_bend_both_ways() {
    let mut corners = (false, false);
    for seed in 0..20 {
        let mut objects = vec![player_at(0, 0)];
        let (map, rooms) = make_map(&mut objects, 1, &mut rng(seed));
        for w in rooms.windows(2) {
            let (px, py) = w[0].center();
            let (nx, ny) = w[1].center();
            if px == nx || py == ny {
                continue;
            }
            // horizontal first turns at (nx, py); vertical first at (px, ny)
            let at_h = floor(&map, nx, py) && (px.min(nx)..=px.max(nx)).all(|x| floor(&map, x, py));
            let at_v = floor(&map, px, ny) && (py.min(ny)..=py.max(ny)).all(|y| floor(&map, px, y));
            corners.0 |= at_h;
            corners.1 |= at_v;
            assert!(at_h || at_v);
        }
    }
    assert!(corners.0 && corners.1);
}

#[test]
fn generated_levels_are_rock_or_carved_floor() {
    for seed in 0..6 {
        let mut objects = vec![player_at(0, 0)];
        let (map, rooms) = make_map(&mut objects, 5, &mut rng(seed));
        for x in 0..80 {
            for y in 0..43 {
                let t = map[x as usize][y as usize];
                assert!(!t.explored);
                assert_eq!(t.blocked, t.block_sight);
                if !t.blocked {
                    assert!(rooms.iter().any(|r| r.x1 < x && x < r.x2 && r.y1 < y && y < r.y2)
                        || rooms.windows(2).any(|w| {
                            let (px, py) = w[0].center();
                            let (nx, ny) = w[1].center();
                            let on_h = |row: i32| y == row && px.min(nx) <= x && x <= px.max(nx);
                            let on_v = |col: i32| x == col && py.min(ny) <= y && y <= py.max(ny);
                            on_h(py) || on_v(nx) || on_v(px) || on_h(ny)
                        }));
                }
            }
        }
        let player = objects[0].pos();
        let n = objects.len();
        assert!(objects[1..n - 1].iter().all(|o| o.pos() != player && o.name != "stairs"));
    }
}

#[test]
fn monsters_come_before_items() {
    let mut map = new_map();
    let room = Rect::new(10, 10, 10, 10);
    create_room(room, &mut map);
    for seed in 0..40 {
        let mut objects = vec![player_at(0, 0)];
        place_objects(room, &map, &mut objects, 6, &mut rng(seed));
        let kinds: Vec<bool> = objects[1..].iter().map(|o| o.fighter.is_some()).collect();
        let monsters = kinds.iter().take_while(|m| **m).count();
        assert!(kinds[monsters..].iter().all(|m| !*m));
        assert!(monsters <= 5 && kinds.len() - monsters <= 2);
        // at level 6 no shield has weight yet
        assert!(objects.iter().all(|o| o.name != "shield"));
    }
}

#[test]
fn monsters_act_only_when_the_turn_is_taken() {
    let mut game = empty_game();
    open_area(&mut game.map);
    let mut objects = vec![player_at(10, 10), orc(20, 20)];
    let mut r = rng(9);
    let fov = all_visible();
    assert_eq!(play_turn(Command::Nothing, &mut objects, &mut game, &mut r, &fov), PlayerAction::DidntTakeTurn);
    assert_eq!(objects[1].pos(), (20, 20));
    assert_eq!(play_turn(Command::Wait, &mut objects, &mut game, &mut r, &fov), PlayerAction::TookTurn);
    assert_eq!(objects[1].pos(), (19, 19));
}
