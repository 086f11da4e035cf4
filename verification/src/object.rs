//! Entities of the simulation and the global tunables.
//!
//! All coordinates and radii are fixed-point integers in thousandths of a
//! pixel (`COORD_SCALE` sub-units per pixel).

use vstd::prelude::*;

verus! {

/// Fixed-point sub-units per pixel.
pub const COORD_SCALE: i64 = 1000;

/// Half-width of the player's (and an enemy's) square hitbox, sub-units.
pub const PLAYER_RADIUS: i64 = 20_000;

/// Radius of a bullet's circular hitbox, sub-units.
pub const BULLET_RADIUS: i64 = 10_000;

/// An explosion past this radius is culled, sub-units.
pub const MAXIMUM_EXPLODE_RADIUS: i64 = 40_000;

/// Radius growth of a live explosion per tick, sub-units.
pub const EXPLODE_STEP: i64 = 2_000;

/// Player speed per tick, sub-units.
pub const PLAYER_SPEED: i64 = 5_000;

/// Bullet speed per tick, sub-units.
pub const BULLET_SPEED: i64 = 10_000;

/// Largest number of bullets the player can hold.
pub const MAXIMUM_BULLET: usize = 5;

/// Ticks between bullet regenerations.
pub const BULLET_REGEN_TICKS: usize = 30;

/// Score for a kill; a chain kill is worth `KILLING_POINT` times the chain.
pub const KILLING_POINT: u64 = 100;

/// Reward granted once when the wave clears with the player alive.
pub const WAVE_CLEAR_BONUS: u64 = 100_000;

/// Per-tick rewards are clamped to this ceiling (a machine limit: it keeps
/// the trainer's fixed-point update free of overflow).
pub const REWARD_LIMIT: u64 = 1_000_000_000_000;

/// Every stored entity coordinate stays within this magnitude, sub-units.
pub const POS_LIMIT: i64 = 1_200_000_000;

/// Field dimensions in pixels accepted by the engine.
pub const DIM_MIN_PX: u32 = 40;
pub const DIM_MAX_PX: u32 = 10_000;

/// Magnitude cap for a raw schedule coordinate, milli-units.
pub const RAW_LIMIT: i64 = 2_000_000;

/// Cap for a schedule tick-offset.
pub const DT_LIMIT: usize = 1_000_000_000;

/// Cap for the number of schedule entries.
pub const SCHEDULE_CAP: usize = 1_000_000;

/// A point of the plane, sub-units.
#[derive(Clone, Copy, PartialEq, Eq, Structural, Debug)]
pub struct Position {
    pub x: i64,
    pub y: i64,
}

/// A per-tick displacement, sub-units.
#[derive(Clone, Copy, PartialEq, Eq, Structural, Debug)]
pub struct Vector {
    pub x: i64,
    pub y: i64,
}

/// Lifecycle state of an entity.
#[derive(Clone, Copy, PartialEq, Eq, Structural, Debug)]
pub enum State {
    Existing,
    Nil,
    Exploded,
}

#[derive(Clone, Copy)]
pub struct Player {
    pub pos: Position,
    pub vector: Vector,
    pub state: State,
    pub remain_bullet: usize,
    pub bullet_timer: usize,
}

#[derive(Clone, Copy)]
pub struct Enemy {
    pub pos: Position,
    pub vector: Vector,
    pub state: State,
}

#[derive(Clone, Copy)]
pub struct Explosion {
    pub pos: Position,
    pub radius: i64,
    pub chain: u64,
}

#[derive(Clone, Copy)]
pub struct Bullet {
    pub pos: Position,
    pub vector: Vector,
    pub state: State,
}

/// A cardinal shot direction.
#[derive(Clone, Copy, PartialEq, Eq, Structural, Debug)]
pub enum Direction {
    Left,
    Right,
    Up,
    Down,
}

/// A movement direction, cardinal or diagonal.
#[derive(Clone, Copy, PartialEq, Eq, Structural, Debug)]
pub enum ExtendDirection {
    Left,
    Right,
    Up,
    Down,
    LeftUp,
    RightUp,
    LeftDown,
    RightDown,
}

/// One of the 13 discrete actions the trainer can take.
#[derive(Clone, Copy, PartialEq, Eq, Structural, Debug)]
pub enum Command {
    Move(ExtendDirection),
    Shot(Direction),
    Stay,
}

/// The 13 commands in their declared order; `Stay` is last.
pub open spec fn spec_command_list() -> Seq<Command> {
    seq![
        Command::Move(ExtendDirection::Left),
        Command::Move(ExtendDirection::Right),
        Command::Move(ExtendDirection::Up),
        Command::Move(ExtendDirection::Down),
        Command::Move(ExtendDirection::LeftUp),
        Command::Move(ExtendDirection::RightUp),
        Command::Move(ExtendDirection::LeftDown),
        Command::Move(ExtendDirection::RightDown),
        Command::Shot(Direction::Left),
        Command::Shot(Direction::Right),
        Command::Shot(Direction::Up),
        Command::Shot(Direction::Down),
        Command::Stay,
    ]
}

/// Position of a command in the declared order.
pub open spec fn spec_command_index(c: Command) -> int {
    match c {
        Command::Move(ExtendDirection::Left) => 0,
        Command::Move(ExtendDirection::Right) => 1,
        Command::Move(ExtendDirection::Up) => 2,
        Command::Move(ExtendDirection::Down) => 3,
        Command::Move(ExtendDirection::LeftUp) => 4,
        Command::Move(ExtendDirection::RightUp) => 5,
        Command::Move(ExtendDirection::LeftDown) => 6,
        Command::Move(ExtendDirection::RightDown) => 7,
        Command::Shot(Direction::Left) => 8,
        Command::Shot(Direction::Right) => 9,
        Command::Shot(Direction::Up) => 10,
        Command::Shot(Direction::Down) => 11,
        Command::Stay => 12,
    }
}

/// The declared order and the index function agree.
pub proof fn lemma_command_order()
    ensures
        spec_command_list().len() == 13,
        forall|c: Command| 0 <= #[trigger] spec_command_index(c) < 13,
        forall|c: Command| spec_command_list()[spec_command_index(c)] == c,
        forall|i: int| 0 <= i < 13 ==> spec_command_index(spec_command_list()[i]) == i,
{
    assert forall|c: Command| spec_command_list()[spec_command_index(c)] == c by {
        match c {
            Command::Move(d) => {
                match d {
                    ExtendDirection::Left => {},
                    ExtendDirection::Right => {},
                    ExtendDirection::Up => {},
                    ExtendDirection::Down => {},
                    ExtendDirection::LeftUp => {},
                    ExtendDirection::RightUp => {},
                    ExtendDirection::LeftDown => {},
                    ExtendDirection::RightDown => {},
                }
            },
            Command::Shot(d) => {
                match d {
                    Direction::Left => {},
                    Direction::Right => {},
                    Direction::Up => {},
                    Direction::Down => {},
                }
            },
            Command::Stay => {},
        }
    }
}

impl Command {
    /// All 13 commands, in the declared order.
    pub fn iterator() -> (r: Vec<Command>)
        ensures
            r@ == spec_command_list(),
    {
        let mut v: Vec<Command> = Vec::new();
        v.push(Command::Move(ExtendDirection::Left));
        v.push(Command::Move(ExtendDirection::Right));
        v.push(Command::Move(ExtendDirection::Up));
        v.push(Command::Move(ExtendDirection::Down));
        v.push(Command::Move(ExtendDirection::LeftUp));
        v.push(Command::Move(ExtendDirection::RightUp));
        v.push(Command::Move(ExtendDirection::LeftDown));
        v.push(Command::Move(ExtendDirection::RightDown));
        v.push(Command::Shot(Direction::Left));
        v.push(Command::Shot(Direction::Right));
        v.push(Command::Shot(Direction::Up));
        v.push(Command::Shot(Direction::Down));
        v.push(Command::Stay);
        proof {
            assert(v@ =~= spec_command_list());
        }
        v
    }

    /// Index of this command in the declared order.
    pub fn index(self) -> (r: usize)
        ensures
            r as int == spec_command_index(self),
            r < 13,
    {
        match self {
            Command::Move(ExtendDirection::Left) => 0,
            Command::Move(ExtendDirection::Right) => 1,
            Command::Move(ExtendDirection::Up) => 2,
            Command::Move(ExtendDirection::Down) => 3,
            Command::Move(ExtendDirection::LeftUp) => 4,
            Command::Move(ExtendDirection::RightUp) => 5,
            Command::Move(ExtendDirection::LeftDown) => 6,
            Command::Move(ExtendDirection::RightDown) => 7,
            Command::Shot(Direction::Left) => 8,
            Command::Shot(Direction::Right) => 9,
            Command::Shot(Direction::Up) => 10,
            Command::Shot(Direction::Down) => 11,
            Command::Stay => 12,
        }
    }
}

/// One discrete Euler step: where a mover stands after a tick.
pub open spec fn spec_advance(pos: Position, vector: Vector) -> Position {
    Position { x: (pos.x + vector.x) as i64, y: (pos.y + vector.y) as i64 }
}

/// Advances a position by one tick's displacement. Shared by the player,
/// enemies and bullets; each entity layers its own extra per-tick logic.
pub fn advance(pos: Position, vector: Vector) -> (r: Position)
    requires
        -POS_LIMIT - PLAYER_RADIUS <= pos.x <= POS_LIMIT + PLAYER_RADIUS,
        -POS_LIMIT - PLAYER_RADIUS <= pos.y <= POS_LIMIT + PLAYER_RADIUS,
        -BULLET_SPEED <= vector.x <= BULLET_SPEED,
        -BULLET_SPEED <= vector.y <= BULLET_SPEED,
    ensures
        r == spec_advance(pos, vector),
        r.x == pos.x + vector.x,
        r.y == pos.y + vector.y,
{
    Position { x: pos.x + vector.x, y: pos.y + vector.y }
}

} // verus!
