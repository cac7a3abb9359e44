use roguelike::game::Game;
use roguelike::log::MessageLog;
use roguelike::map::new_map;
use roguelike::object::{Color, DeathCallback, Fighter, MonsterAI, MonsterAIType, Object};

fn empty_game() -> Game {
    Game {
        dungeon_level: 1,
        map: new_map(),
        fov_recompute: false,
        log: MessageLog::new(),
        inventory: vec![],
    }
}

fn player_with(power: i32, hp: i32) -> Object {
    let mut p = Object::new(5, 5, '@', "player", Color::White, true);
    p.alive = true;
    p.level = 1;
    p.fighter = Some(Fighter {
        base_max_hp: 100,
        hp,
        base_defense: 1,
        base_power: power,
        xp: 0,
        death: Some(DeathCallback::Player),
    });
    p
}

fn orc_at(x: i32, y: i32) -> Object {
    let mut orc = Object::new(x, y, 'o', "orc", Color::DesaturatedGreen, true);
    orc.alive = true;
    orc.fighter = Some(Fighter {
        base_max_hp: 20,
        hp: 20,
        base_defense: 0,
        base_power: 4,
        xp: 35,
        death: Some(DeathCallback::Monster),
    });
    orc.ai = Some(MonsterAI { old_ai: None, ai_type: MonsterAIType::Basic });
    orc
}

fn last_message(game: &Game) -> String {
    game.log.messages().last().unwrap().0.clone()
}

#[test]
fn player_power_six_hits_orc_for_six() {
    let mut game = empty_game();
    let mut player = player_with(6, 100);
    let mut orc = orc_at(6, 5);
    player.attack(&mut orc, &mut game);
    assert_eq!(orc.fighter.as_ref().unwrap().hp, 14);
    assert!(orc.alive);
    assert_eq!(orc.name, "orc");
    assert_eq!(player.fighter.as_ref().unwrap().xp, 0);
    assert_eq!(last_message(&game), "player attacks orc for 6 hit points.");
}

#[test]
fn attack_without_effect_changes_nothing() {
    let mut game = empty_game();
    let mut player = player_with(2, 100);
    let mut orc = orc_at(6, 5);
    orc.fighter.as_mut().unwrap().base_defense = 2;
    let before = orc.clone();
    player.attack(&mut orc, &mut game);
    assert_eq!(orc, before);
    assert_eq!(game.log.messages().len(), 1);
    assert_eq!(last_message(&game), "player attacks orc but it has no effect!");
}

#[test]
fn killing_blow_credits_player_and_leaves_remains() {
    let mut game = empty_game();
    let mut player = player_with(25, 100);
    let mut orc = orc_at(6, 5);
    player.attack(&mut orc, &mut game);
    assert_eq!(player.fighter.as_ref().unwrap().xp, 35);
    assert!(!orc.alive);
    assert!(!orc.blocks);
    assert!(orc.fighter.is_none());
    assert!(orc.ai.is_none());
    assert_eq!(orc.glyph, '%');
    assert_eq!(orc.color, Color::DarkRed);
    assert_eq!(orc.name, "remains of orc");
    assert_eq!(last_message(&game), "orc is dead! You gain 35 experience points.");
}

#[test]
fn monster_killing_monster_credits_nobody() {
    let mut game = empty_game();
    let mut a = orc_at(1, 1);
    a.fighter.as_mut().unwrap().base_power = 50;
    let mut b = orc_at(1, 2);
    a.attack(&mut b, &mut game);
    assert!(!b.alive);
    assert_eq!(a.fighter.as_ref().unwrap().xp, 35);
}

#[test]
fn monster_death_fires_once() {
    let mut game = empty_game();
    let mut orc = orc_at(3, 3);
    assert_eq!(orc.take_damage(30, &mut game), Some(35));
    let logged = game.log.messages().len();
    assert_eq!(orc.take_damage(30, &mut game), None);
    assert_eq!(game.log.messages().len(), logged);
    assert_eq!(orc.name, "remains of orc");
}

#[test]
fn player_death_fires_once() {
    let mut game = empty_game();
    let mut player = player_with(2, 10);
    assert_eq!(player.take_damage(15, &mut game), Some(0));
    assert!(!player.alive);
    assert_eq!(player.glyph, '%');
    assert_eq!(last_message(&game), "You died!");
    assert_eq!(player.take_damage(15, &mut game), None);
    assert_eq!(player.fighter.as_ref().unwrap().hp, -20);
    assert_eq!(game.log.messages().len(), 1);
}

#[test]
fn non_positive_damage_does_not_hurt() {
    let mut game = empty_game();
    let mut orc = orc_at(3, 3);
    assert_eq!(orc.take_damage(0, &mut game), None);
    assert_eq!(orc.take_damage(-5, &mut game), None);
    assert_eq!(orc.fighter.as_ref().unwrap().hp, 20);
}

#[test]
fn heal_never_exceeds_maximum() {
    let mut f = Fighter { base_max_hp: 100, hp: 90, base_defense: 0, base_power: 0, xp: 0, death: None };
    f.heal(40);
    assert_eq!(f.hp, 100);
    f.hp = 30;
    f.heal(40);
    assert_eq!(f.hp, 70);
}

#[test]
fn message_log_keeps_last_six() {
    let mut log = MessageLog::new();
    for i in 0..8 {
        log.add(format!("m{}", i), Color::White);
    }
    let texts: Vec<String> = log.messages().iter().map(|m| m.0.clone()).collect();
    assert_eq!(texts, vec!["m2", "m3", "m4", "m5", "m6", "m7"]);
}

#[test]
fn two_distinct_borrows() {
    let mut v = vec![1, 2, 3, 4];
    {
        let (a, b) = roguelike::combat::mut_two(3, 1, &mut v);
        *a = 40;
        *b = 20;
    }
    assert_eq!(v, vec![1, 20, 3, 40]);
}
