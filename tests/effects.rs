use roguelike::ai::FovGrid;
use roguelike::game::{get_equipped_in_slot, Game};
use roguelike::inventory::{drop_item, pick_item_up, use_item};
use roguelike::log::MessageLog;
use roguelike::map::new_map;
use roguelike::object::{
    Color, DeathCallback, Equipment, EquipmentSlot, Fighter, Item, MonsterAI, MonsterAIType, Object,
    UseResult,
};
use roguelike::spells::{
    cast_confuse, cast_fireball, cast_heal, cast_lightning, closest_monster, equip_or_dequip,
    monster_at, tile_target_ok, Target,
};

fn empty_game() -> Game {
    Game { dungeon_level: 1, map: new_map(), fov_recompute: false, log: MessageLog::new(), inventory: vec![] }
}

fn all_visible() -> FovGrid {
    vec![vec![true; 43]; 80]
}

fn player_at(x: i32, y: i32, hp: i32) -> Object {
    let mut p = Object::new(x, y, '@', "player", Color::White, true);
    p.alive = true;
    p.level = 1;
    p.fighter = Some(Fighter { base_max_hp: 100, hp, base_defense: 1, base_power: 2, xp: 0, death: Some(DeathCallback::Player) });
    p
}

fn monster(name: &str, x: i32, y: i32, hp: i32, xp: i32) -> Object {
    let mut m = Object::new(x, y, 'T', name, Color::DarkerGreen, true);
    m.alive = true;
    m.fighter = Some(Fighter { base_max_hp: hp, hp, base_defense: 2, base_power: 8, xp, death: Some(DeathCallback::Monster) });
    m.ai = Some(MonsterAI { old_ai: None, ai_type: MonsterAIType::Basic });
    m
}

fn item(name: &str, kind: Item) -> Object {
    let mut o = Object::new(0, 0, '!', name, Color::Violet, false);
    o.item = Some(kind);
    o
}

fn gear(name: &str, slot: EquipmentSlot, power: i32, defense: i32, on: bool) -> Object {
    let mut o = Object::new(0, 0, '/', name, Color::Sky, false);
    o.item = Some(if slot == EquipmentSlot::RightHand { Item::Sword } else { Item::Shield });
    o.equipment = Some(Equipment { slot, is_equipped: on, power_bonus: power, defense_bonus: defense, max_hp_bonus: 0 });
    o
}

#[test]
fn heal_from_forty_to_eighty() {
    let mut game = empty_game();
    game.inventory.push(item("healing potion", Item::Heal));
    let mut objects = vec![player_at(5, 5, 40)];
    let r = use_item(0, &mut objects, &mut game, &all_visible(), None);
    assert_eq!(r, Some(UseResult::UsedUp));
    assert_eq!(objects[0].fighter.as_ref().unwrap().hp, 80);
    assert!(game.inventory.is_empty());
}

#[test]
fn heal_at_full_health_is_cancelled() {
    let mut game = empty_game();
    let mut objects = vec![player_at(5, 5, 100)];
    assert_eq!(cast_heal(&mut objects, &mut game), UseResult::Cancelled);
    assert_eq!(objects[0].fighter.as_ref().unwrap().hp, 100);
    game.inventory.push(item("healing potion", Item::Heal));
    assert_eq!(use_item(0, &mut objects, &mut game, &all_visible(), None), Some(UseResult::Cancelled));
    assert_eq!(game.inventory.len(), 1);
    assert_eq!(game.log.messages().last().unwrap().0, "Cancelled");
}

#[test]
fn fireball_burns_player_and_troll() {
    let mut game = empty_game();
    let mut objects = vec![player_at(10, 10, 100), monster("troll", 11, 10, 30, 100)];
    let r = cast_fireball(&mut objects, &mut game, Some(Target::Tile { x: 10, y: 10 }));
    assert_eq!(r, UseResult::UsedUp);
    assert_eq!(objects[0].fighter.as_ref().unwrap().hp, 75);
    assert_eq!(objects[1].fighter.as_ref().unwrap().hp, 5);
    assert_eq!(objects[0].fighter.as_ref().unwrap().xp, 0);
    assert_eq!(game.log.messages()[1].0, "The fireball explodes, burning everything within 3 tiles!");
}

#[test]
fn fireball_kill_credits_player_only_for_troll() {
    let mut game = empty_game();
    let mut objects = vec![
        player_at(10, 10, 100),
        monster("troll", 12, 10, 20, 100),
        monster("orc", 14, 10, 30, 35),
        monster("orc", 15, 10, 20, 35),
    ];
    let r = cast_fireball(&mut objects, &mut game, Some(Target::Tile { x: 11, y: 10 }));
    assert_eq!(r, UseResult::UsedUp);
    assert!(!objects[1].alive);
    assert_eq!(objects[1].name, "remains of troll");
    // the orc stands 3 cells away from the burst: reached, burned, alive
    assert_eq!(objects[2].fighter.as_ref().unwrap().hp, 5);
    // the second orc, 4 cells away, is out of reach
    assert_eq!(objects[3].fighter.as_ref().unwrap().hp, 20);
    assert_eq!(objects[0].fighter.as_ref().unwrap().hp, 75);
    assert_eq!(objects[0].fighter.as_ref().unwrap().xp, 100);
}

#[test]
fn fireball_without_target_is_cancelled() {
    let mut game = empty_game();
    let mut objects = vec![player_at(10, 10, 100), monster("troll", 11, 10, 30, 100)];
    assert_eq!(cast_fireball(&mut objects, &mut game, None), UseResult::Cancelled);
    assert_eq!(objects[1].fighter.as_ref().unwrap().hp, 30);
}

#[test]
fn lightning_strikes_the_closest_visible_enemy() {
    let mut game = empty_game();
    let mut objects = vec![
        player_at(10, 10, 100),
        monster("troll", 14, 10, 30, 100),
        monster("orc", 12, 11, 20, 35),
    ];
    assert_eq!(closest_monster(5, &objects, &all_visible()), Some(2));
    let r = cast_lightning(&mut objects, &mut game, &all_visible());
    assert_eq!(r, UseResult::UsedUp);
    assert!(!objects[2].alive);
    assert_eq!(objects[0].fighter.as_ref().unwrap().xp, 35);
    assert_eq!(objects[1].fighter.as_ref().unwrap().hp, 30);
    assert_eq!(
        game.log.messages()[0].0,
        "A lightning bolt strikes the orc with a loud thunder! The damage is 40 hit points."
    );
}

#[test]
fn lightning_ties_go_to_the_first() {
    let objects = vec![player_at(10, 10, 100), monster("a", 12, 10, 30, 1), monster("b", 8, 10, 30, 1)];
    assert_eq!(closest_monster(5, &objects, &all_visible()), Some(1));
}

#[test]
fn lightning_with_no_enemy_in_range_is_cancelled() {
    let mut game = empty_game();
    let mut objects = vec![player_at(10, 10, 100), monster("troll", 16, 10, 30, 100)];
    assert_eq!(cast_lightning(&mut objects, &mut game, &all_visible()), UseResult::Cancelled);
    let mut fov = all_visible();
    fov[12][10] = false;
    let mut objects = vec![player_at(10, 10, 100), monster("troll", 12, 10, 30, 100)];
    assert_eq!(cast_lightning(&mut objects, &mut game, &fov), UseResult::Cancelled);
    assert_eq!(game.log.messages().last().unwrap().0, "No enemy is close enough to strike.");
}

#[test]
fn confusion_wraps_the_previous_behaviour() {
    let mut game = empty_game();
    let mut objects = vec![player_at(10, 10, 100), monster("orc", 13, 10, 20, 35)];
    let r = cast_confuse(&mut objects, &mut game, &all_visible(), Some(Target::Monster { id: 1 }));
    assert_eq!(r, UseResult::UsedUp);
    let ai = objects[1].ai.clone().unwrap();
    assert_eq!(ai.ai_type, MonsterAIType::Confused { num_turns: 10 });
    assert_eq!(*ai.old_ai.unwrap(), MonsterAI { old_ai: None, ai_type: MonsterAIType::Basic });
}

#[test]
fn confusion_out_of_range_is_cancelled() {
    let mut game = empty_game();
    let mut objects = vec![player_at(10, 10, 100), monster("orc", 19, 10, 20, 35)];
    let r = cast_confuse(&mut objects, &mut game, &all_visible(), Some(Target::Monster { id: 1 }));
    assert_eq!(r, UseResult::Cancelled);
    assert_eq!(r, cast_confuse(&mut objects, &mut game, &all_visible(), Some(Target::Monster { id: 0 })));
    assert_eq!(objects[1].ai.as_ref().unwrap().ai_type, MonsterAIType::Basic);
}

#[test]
fn targeting_rules() {
    let objects = vec![player_at(10, 10, 100), monster("orc", 13, 14, 20, 35)];
    let fov = all_visible();
    assert!(tile_target_ok(&objects, &fov, 13, 14, Some(5)));
    assert!(!tile_target_ok(&objects, &fov, 13, 15, Some(5)));
    assert!(tile_target_ok(&objects, &fov, 40, 40, None));
    assert!(!tile_target_ok(&objects, &fov, -1, 4, None));
    assert_eq!(monster_at(&objects, 13, 14), Some(1));
    assert_eq!(monster_at(&objects, 10, 10), None);
}

#[test]
fn equipping_keeps_one_item_per_slot() {
    let mut game = empty_game();
    game.inventory.push(gear("dagger", EquipmentSlot::RightHand, 2, 0, true));
    game.inventory.push(gear("sword", EquipmentSlot::RightHand, 3, 0, false));
    game.inventory.push(gear("shield", EquipmentSlot::LeftHand, 0, 1, false));
    let player = player_at(1, 1, 100);
    assert_eq!(player.full_power(&game), 4);
    assert_eq!(equip_or_dequip(1, &mut game), UseResult::UsedAndKept);
    assert!(!game.inventory[0].equipment.unwrap().is_equipped);
    assert!(game.inventory[1].equipment.unwrap().is_equipped);
    assert_eq!(player.full_power(&game), 5);
    assert_eq!(equip_or_dequip(2, &mut game), UseResult::UsedAndKept);
    assert_eq!(player.full_defense(&game), 2);
    assert_eq!(get_equipped_in_slot(EquipmentSlot::LeftHand, &game.inventory), Some(2));
    assert_eq!(equip_or_dequip(1, &mut game), UseResult::UsedAndKept);
    assert_eq!(get_equipped_in_slot(EquipmentSlot::RightHand, &game.inventory), None);
    assert_eq!(player.full_power(&game), 2);
    assert_eq!(player.full_max_hp(&game), 100);
    assert_eq!(game.log.messages().last().unwrap().0, "Dequipped sword from right hand.");
    game.inventory.push(item("healing potion", Item::Heal));
    assert_eq!(equip_or_dequip(3, &mut game), UseResult::Cancelled);
}

#[test]
fn bonuses_count_for_the_player_only() {
    let mut game = empty_game();
    game.inventory.push(gear("sword", EquipmentSlot::RightHand, 3, 0, true));
    let orc = monster("orc", 3, 3, 20, 35);
    assert_eq!(orc.full_power(&game), 8);
    assert!(orc.get_all_equipped(&game).is_empty());
    assert_eq!(player_at(1, 1, 10).get_all_equipped(&game).len(), 1);
}

#[test]
fn pick_up_equips_into_a_free_slot() {
    let mut game = empty_game();
    let mut sword = gear("sword", EquipmentSlot::RightHand, 3, 0, false);
    sword.x = 5;
    sword.y = 5;
    let mut objects = vec![player_at(5, 5, 100), sword];
    pick_item_up(1, &mut objects, &mut game);
    assert_eq!(objects.len(), 1);
    assert_eq!(game.inventory.len(), 1);
    assert!(game.inventory[0].equipment.unwrap().is_equipped);
    let mut second = gear("sword", EquipmentSlot::RightHand, 3, 0, false);
    second.x = 5;
    second.y = 5;
    objects.push(second);
    pick_item_up(1, &mut objects, &mut game);
    assert!(!game.inventory[1].equipment.unwrap().is_equipped);
}

#[test]
fn pick_up_with_full_inventory_leaves_the_item() {
    let mut game = empty_game();
    for _ in 0..26 {
        game.inventory.push(item("healing potion", Item::Heal));
    }
    let mut objects = vec![player_at(5, 5, 100), item("scroll of fireball", Item::Fireball)];
    pick_item_up(1, &mut objects, &mut game);
    assert_eq!(objects.len(), 2);
    assert_eq!(game.inventory.len(), 26);
    assert_eq!(
        game.log.messages().last().unwrap().0,
        "Your inventory is full, cannot pick up scroll of fireball."
    );
}

#[test]
fn drop_takes_off_and_places_at_player() {
    let mut game = empty_game();
    game.inventory.push(gear("sword", EquipmentSlot::RightHand, 3, 0, true));
    let mut objects = vec![player_at(7, 9, 100)];
    drop_item(0, &mut objects, &mut game);
    assert!(game.inventory.is_empty());
    assert_eq!(objects.len(), 2);
    assert_eq!(objects[1].pos(), (7, 9));
    assert!(!objects[1].equipment.unwrap().is_equipped);
}

#[test]
fn an_object_without_item_cannot_be_used() {
    let mut game = empty_game();
    game.inventory.push(Object::new(0, 0, '?', "rock", Color::White, false));
    let mut objects = vec![player_at(5, 5, 100)];
    assert_eq!(use_item(0, &mut objects, &mut game, &all_visible(), None), None);
    assert_eq!(game.log.messages().last().unwrap().0, "The rock cannot be used.");
}

#[test]
fn lightning_range_is_inclusive_and_no_further() {
    let objects = vec![player_at(10, 10, 100), monster("orc", 15, 11, 20, 35)];
    // squared distance 26: beyond a range of 5
    assert_eq!(closest_monster(5, &objects, &all_visible()), None);
    let objects = vec![player_at(10, 10, 100), monster("orc", 15, 10, 20, 35)];
    // squared distance 25: exactly at range 5
    assert_eq!(closest_monster(5, &objects, &all_visible()), Some(1));
    let mut game = empty_game();
    let mut objects = vec![player_at(10, 10, 100), monster("orc", 13, 14, 20, 35)];
    assert_eq!(cast_lightning(&mut objects, &mut game, &all_visible()), UseResult::UsedUp);
}

#[test]
fn dropping_says_so_in_the_log() {
    let mut game = empty_game();
    game.inventory.push(gear("sword", EquipmentSlot::RightHand, 3, 0, true));
    let mut objects = vec![player_at(7, 9, 100)];
    drop_item(0, &mut objects, &mut game);
    let texts: Vec<String> = game.log.messages().iter().map(|m| m.0.clone()).collect();
    assert_eq!(texts, vec!["Dequipped sword from right hand.", "You dropped a sword."]);
}
