//! The entity record and its optional components.

use vstd::prelude::*;

verus! {

/// Index of the player in the world's object collection.
pub const PLAYER: usize = 0;

/// The colours the simulation hands to the renderer.
#[derive(Clone, Copy, Debug, PartialEq, Eq, Structural)]
pub enum Color {
    White,
    Red,
    Green,
    Yellow,
    Orange,
    LightGreen,
    LightYellow,
    LightViolet,
    LightBlue,
    LightCyan,
    DarkRed,
    DesaturatedGreen,
    DarkerGreen,
    Violet,
    Sky,
    DarkerOrange,
}

#[derive(Clone, Copy, Debug, PartialEq, Eq, Structural)]
pub enum DeathCallback {
    Monster,
    Player,
}

#[derive(Clone, Copy, Debug, PartialEq, Eq, Structural)]
pub struct Fighter {
    pub base_max_hp: i32,
    pub hp: i32,
    pub base_defense: i32,
    pub base_power: i32,
    pub xp: i32,
    pub death: Option<DeathCallback>,
}

#[derive(Clone, Copy, Debug, PartialEq, Eq, Structural)]
pub enum MonsterAIType {
    Basic,
    Confused { num_turns: i32 },
}

/// A monster's behaviour; a confused one keeps the behaviour it replaced.
#[derive(Debug, PartialEq, Eq)]
pub struct MonsterAI {
    pub old_ai: Option<Box<MonsterAI>>,
    pub ai_type: MonsterAIType,
}

impl Clone for MonsterAI {
    fn clone(&self) -> (r: Self)
        ensures
            r == *self,
        decreases self,
    {
        let old_ai = match &self.old_ai {
            Some(inner) => Some(Box::new((**inner).clone())),
            None => None,
        };
        MonsterAI { old_ai, ai_type: self.ai_type }
    }
}

#[derive(Clone, Copy, Debug, PartialEq, Eq, Structural)]
pub enum Item {
    Heal,
    Lightning,
    Fireball,
    Confuse,
    Sword,
    Shield,
}

#[derive(Clone, Copy, Debug, PartialEq, Eq, Structural)]
pub enum EquipmentSlot {
    RightHand,
    LeftHand,
}

#[derive(Clone, Copy, Debug, PartialEq, Eq, Structural)]
pub struct Equipment {
    pub slot: EquipmentSlot,
    pub is_equipped: bool,
    pub power_bonus: i32,
    pub defense_bonus: i32,
    pub max_hp_bonus: i32,
}

/// What using an item came to.
#[derive(Clone, Copy, Debug, PartialEq, Eq, Structural)]
pub enum UseResult {
    UsedUp,
    UsedAndKept,
    Cancelled,
}

/// Anything in the dungeon: the player, monsters, items, stairs.
#[derive(Debug, PartialEq, Eq)]
pub struct Object {
    pub x: i32,
    pub y: i32,
    pub glyph: char,
    pub name: String,
    pub color: Color,
    pub blocks: bool,
    pub alive: bool,
    pub always_visible: bool,
    pub level: i32,
    pub fighter: Option<Fighter>,
    pub ai: Option<MonsterAI>,
    pub item: Option<Item>,
    pub equipment: Option<Equipment>,
}

impl Clone for Object {
    fn clone(&self) -> (r: Self)
        ensures
            r == *self,
    {
        Object {
            x: self.x,
            y: self.y,
            glyph: self.glyph,
            name: self.name.clone(),
            color: self.color,
            blocks: self.blocks,
            alive: self.alive,
            always_visible: self.always_visible,
            level: self.level,
            fighter: self.fighter,
            ai: match &self.ai {
                Some(ai) => Some(ai.clone()),
                None => None,
            },
            item: self.item,
            equipment: self.equipment,
        }
    }
}

pub open spec fn sq_dist(ax: int, ay: int, bx: int, by: int) -> int {
    (bx - ax) * (bx - ax) + (by - ay) * (by - ay)
}

pub open spec fn basic_ai() -> MonsterAI {
    MonsterAI { old_ai: None, ai_type: MonsterAIType::Basic }
}

/// Heal by `amount` without going over `max`; a result below `i32::MIN` is
/// held there.
pub open spec fn healed_hp(hp: int, amount: int, max: int) -> int {
    if hp + amount > max {
        max
    } else if hp + amount < i32::MIN {
        i32::MIN as int
    } else {
        hp + amount
    }
}

impl Object {
    pub open spec fn is_player_spec(&self) -> bool {
        self.name@ == "player"@
    }

    /// A bare object: not alive, level 0, no components.
    pub fn new(x: i32, y: i32, glyph: char, name: &str, color: Color, blocks: bool) -> (r: Object)
        ensures
            r.x == x,
            r.y == y,
            r.glyph == glyph,
            r.name@ == name@,
            r.color == color,
            r.blocks == blocks,
            !r.alive,
            !r.always_visible,
            r.level == 0,
            r.fighter is None,
            r.ai is None,
            r.item is None,
            r.equipment is None,
    {
        Object {
            x,
            y,
            glyph,
            name: name.to_owned(),
            color,
            blocks,
            alive: false,
            always_visible: false,
            level: 0,
            fighter: None,
            ai: None,
            item: None,
            equipment: None,
        }
    }

    /// The player is the object named "player".
    pub fn is_player(&self) -> (r: bool)
        ensures
            r == self.is_player_spec(),
    {
        let player = String::from_str("player");
        self.name == player
    }

    pub fn pos(&self) -> (r: (i32, i32))
        ensures
            r == (self.x, self.y),
    {
        (self.x, self.y)
    }

    pub fn set_pos(&mut self, x: i32, y: i32)
        ensures
            *final(self) == (Object { x, y, ..*old(self) }),
    {
        self.x = x;
        self.y = y;
    }

    /// Squared Euclidean distance to another object.
    pub fn dist_sq_to(&self, other: &Object) -> (r: i128)
        ensures
            r == sq_dist(self.x as int, self.y as int, other.x as int, other.y as int),
    {
        self.dist_sq(other.x, other.y)
    }

    /// Squared Euclidean distance to the cell (x, y).
    pub fn dist_sq(&self, x: i32, y: i32) -> (r: i128)
        ensures
            r == sq_dist(self.x as int, self.y as int, x as int, y as int),
    {
        let dx: i128 = x as i128 - self.x as i128;
        let dy: i128 = y as i128 - self.y as i128;
        assert(0 <= dx * dx <= 0x1_0000_0000_0000_0000) by (nonlinear_arith)
            requires
                -0x1_0000_0000 <= dx <= 0x1_0000_0000,
        ;
        assert(0 <= dy * dy <= 0x1_0000_0000_0000_0000) by (nonlinear_arith)
            requires
                -0x1_0000_0000 <= dy <= 0x1_0000_0000,
        ;
        dx * dx + dy * dy
    }
}

impl Fighter {
    /// Heal by `amount`, never above `base_max_hp`.
    pub fn heal(&mut self, amount: i32)
        ensures
            *final(self) == (Fighter {
                hp: healed_hp(old(self).hp as int, amount as int, old(self).base_max_hp as int)
                    as i32,
                ..*old(self)
            }),
    {
        let sum: i64 = self.hp as i64 + amount as i64;
        if sum > self.base_max_hp as i64 {
            self.hp = self.base_max_hp;
        } else if sum < i32::MIN as i64 {
            self.hp = i32::MIN;
        } else {
            self.hp = sum as i32;
        }
    }
}

} // verus!
