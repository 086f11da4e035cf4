//! The simulation engine: it exclusively owns all entity collections and
//! advances them one tick at a time in a fixed order.

use vstd::prelude::*;
use crate::object::{
    Bullet, Command, Direction, Enemy, ExtendDirection, Explosion, Player, Position, State,
    Vector, BULLET_SPEED, COORD_SCALE, DIM_MAX_PX, DIM_MIN_PX, MAXIMUM_BULLET, PLAYER_RADIUS,
    PLAYER_SPEED, POS_LIMIT, SCHEDULE_CAP, WAVE_CLEAR_BONUS,
};
use crate::schedule::{AppearLocation, Schedule, spec_entry_ok};
use crate::model::{
    bullets_ok, chains_ok, enemies_ok, entries_ok, explosions_ok, player_ok, sat64,
    spec_bullet_phase, spec_cap_reward, spec_expl_phase, spec_move_bullets, spec_move_enemies,
    spec_tick,
};
use crate::object::REWARD_LIMIT;

verus! {

/// Field dimensions in sub-units stay within this bound.
pub const DIM_LIMIT: i64 = 10_000_000;

/// The playing field and everything on it.
///
/// The public fields double as the render snapshot: a front end reads the
/// player and the entity lists between ticks and never writes them.
pub struct Field {
    /// Field width and height, sub-units.
    pub width: i64,
    pub height: i64,
    pub player: Player,
    pub bullet_list: Vec<Bullet>,
    pub enemy_list: Vec<Enemy>,
    pub explosion_list: Vec<Explosion>,
    /// Pending spawn entries, soonest-due last (a stack).
    pub appear_location_list: Vec<AppearLocation>,
    /// Ticks since the last consumed wave.
    pub appearance_counter: usize,
    pub score: u64,
    /// Reward earned by the latest tick, points.
    pub reward: u64,
    /// The player has been touched by an enemy (loss condition).
    pub game_over: bool,
    /// The schedule is exhausted and no enemy remains (non-failure end).
    pub game_end: bool,
    /// How many enemies have been killed this episode.
    pub killed: Ghost<nat>,
    /// The episode's schedule length: kills, live enemies and pending
    /// entries never exceed it.
    pub budget: Ghost<nat>,
}

impl Field {
    /// Well-formedness: every quantity the engine stores stays within the
    /// ranges its arithmetic needs, bullets never outlive their lifecycle
    /// state, and spawn bookkeeping is consistent.
    pub open spec fn wf(&self) -> bool {
        &&& 2 * PLAYER_RADIUS <= self.width <= DIM_LIMIT
        &&& 2 * PLAYER_RADIUS <= self.height <= DIM_LIMIT
        &&& player_ok(self.player)
        &&& enemies_ok(self.enemy_list@)
        &&& bullets_ok(self.bullet_list@)
        &&& explosions_ok(self.explosion_list@)
        &&& chains_ok(self.explosion_list@, self.killed@)
        &&& entries_ok(self.appear_location_list@)
        &&& self.appear_location_list@.len() > 0
            ==> self.appearance_counter <= self.appear_location_list@.last().dt
        &&& self.killed@ + self.enemy_list@.len() + self.appear_location_list@.len()
            <= self.budget@
        &&& self.budget@ <= SCHEDULE_CAP
    }

    /// The player as it stands at an episode start.
    pub open spec fn spec_initial_player() -> Player {
        Player {
            pos: Position { x: 70_000, y: 70_000 },
            vector: Vector { x: 0, y: 0 },
            remain_bullet: MAXIMUM_BULLET,
            state: State::Existing,
            bullet_timer: 0,
        }
    }

    /// A freshly reset field: initial player, empty entity lists, the whole
    /// schedule pending (reversed into a stack), and zeroed bookkeeping.
    pub open spec fn spec_fresh(
        self,
        width: int,
        height: int,
        entries: Seq<AppearLocation>,
    ) -> bool {
        &&& self.width == width
        &&& self.height == height
        &&& self.player == Self::spec_initial_player()
        &&& self.bullet_list@ =~= Seq::<Bullet>::empty()
        &&& self.enemy_list@ =~= Seq::<Enemy>::empty()
        &&& self.explosion_list@ =~= Seq::<Explosion>::empty()
        &&& self.appear_location_list@ == entries.reverse()
        &&& self.appearance_counter == 0
        &&& self.score == 0
        &&& self.reward == 0
        &&& !self.game_over
        &&& !self.game_end
        &&& self.killed@ == 0
        &&& self.budget@ == entries.len()
    }

    /// Builds a field of `width_px` by `height_px` pixels around the given
    /// spawn schedule.
    pub fn new(width_px: u32, height_px: u32, schedule: &Schedule) -> (r: Field)
        requires
            DIM_MIN_PX <= width_px <= DIM_MAX_PX,
            DIM_MIN_PX <= height_px <= DIM_MAX_PX,
        ensures
            r.wf(),
            r.spec_fresh(
                width_px as int * COORD_SCALE,
                height_px as int * COORD_SCALE,
                schedule@,
            ),
    {
        let width = (width_px as i64) * COORD_SCALE;
        let height = (height_px as i64) * COORD_SCALE;
        let mut r = Field {
            width,
            height,
            player: Self::initial_player(),
            bullet_list: Vec::new(),
            enemy_list: Vec::new(),
            explosion_list: Vec::new(),
            appear_location_list: Vec::new(),
            appearance_counter: 0,
            score: 0,
            reward: 0,
            game_over: false,
            game_end: false,
            killed: Ghost(0),
            budget: Ghost(schedule@.len()),
        };
        r.appear_location_list = reversed_entries(schedule);
        r
    }

    /// Rewinds the field to a fresh episode over the given schedule; the
    /// dimensions stay as they are.
    pub fn reset(&mut self, schedule: &Schedule)
        requires
            old(self).wf(),
        ensures
            final(self).wf(),
            final(self).spec_fresh(old(self).width as int, old(self).height as int, schedule@),
    {
        self.player = Self::initial_player();
        self.bullet_list.clear();
        self.enemy_list.clear();
        self.explosion_list.clear();
        self.appear_location_list = reversed_entries(schedule);
        self.appearance_counter = 0;
        self.score = 0;
        self.reward = 0;
        self.game_over = false;
        self.game_end = false;
        self.killed = Ghost(0);
        self.budget = Ghost(schedule@.len());
    }

    fn initial_player() -> (p: Player)
        ensures
            p == Self::spec_initial_player(),
    {
        Player {
            pos: Position { x: 70_000, y: 70_000 },
            vector: Vector { x: 0, y: 0 },
            remain_bullet: MAXIMUM_BULLET,
            state: State::Existing,
            bullet_timer: 0,
        }
    }

    /// All simulation state other than the player and the bullet list is
    /// the same in `a` and `b`.
    pub open spec fn same_but_player_bullets(a: Field, b: Field) -> bool {
        &&& a.width == b.width
        &&& a.height == b.height
        &&& a.enemy_list@ == b.enemy_list@
        &&& a.explosion_list@ == b.explosion_list@
        &&& a.appear_location_list@ == b.appear_location_list@
        &&& a.appearance_counter == b.appearance_counter
        &&& a.score == b.score
        &&& a.reward == b.reward
        &&& a.game_over == b.game_over
        &&& a.game_end == b.game_end
        &&& a.killed == b.killed
        &&& a.budget == b.budget
    }

    /// Applies one discrete command: set a movement velocity, fire a shot,
    /// or do nothing.
    pub fn exec_player_cmd(&mut self, cmd: Command)
        requires
            old(self).wf(),
        ensures
            final(self).wf(),
            match cmd {
                Command::Shot(dir) => {
                    &&& final(self).player == spec_shot_player(old(self).player)
                    &&& final(self).bullet_list@ == spec_shot_bullets(
                        old(self).player,
                        old(self).bullet_list@,
                        dir,
                    )
                    &&& Self::same_but_player_bullets(*final(self), *old(self))
                },
                Command::Move(dir) => {
                    &&& final(self).player == (Player {
                        vector: spec_move_vector(dir),
                        ..old(self).player
                    })
                    &&& final(self).bullet_list@ == old(self).bullet_list@
                    &&& Self::same_but_player_bullets(*final(self), *old(self))
                },
                Command::Stay => {
                    &&& final(self).player == old(self).player
                    &&& final(self).bullet_list@ == old(self).bullet_list@
                    &&& Self::same_but_player_bullets(*final(self), *old(self))
                },
            },
    {
        match cmd {
            Command::Shot(dir) => self.shot(dir),
            Command::Move(dir) => self.player_move(dir),
            Command::Stay => (),
        }
    }

    /// Fires a bullet in a cardinal direction: one bullet is spent and a
    /// new bullet appears one player-radius away from the player, moving at
    /// `BULLET_SPEED`; with no bullet left nothing happens.
    pub fn shot(&mut self, dir: Direction)
        requires
            old(self).wf(),
        ensures
            final(self).wf(),
            final(self).player == spec_shot_player(old(self).player),
            final(self).bullet_list@ == spec_shot_bullets(
                old(self).player,
                old(self).bullet_list@,
                dir,
            ),
            Self::same_but_player_bullets(*final(self), *old(self)),
    {
        if self.player.remain_bullet == 0 {
            return;
        }
        self.player.remain_bullet = self.player.remain_bullet - 1;
        let p = self.player.pos;
        let bullet = match dir {
            Direction::Left => Bullet {
                pos: Position { x: p.x - PLAYER_RADIUS, y: p.y },
                vector: Vector { x: -BULLET_SPEED, y: 0 },
                state: State::Existing,
            },
            Direction::Right => Bullet {
                pos: Position { x: p.x + PLAYER_RADIUS, y: p.y },
                vector: Vector { x: BULLET_SPEED, y: 0 },
                state: State::Existing,
            },
            Direction::Up => Bullet {
                pos: Position { x: p.x, y: p.y + PLAYER_RADIUS },
                vector: Vector { x: 0, y: BULLET_SPEED },
                state: State::Existing,
            },
            Direction::Down => Bullet {
                pos: Position { x: p.x, y: p.y - PLAYER_RADIUS },
                vector: Vector { x: 0, y: -BULLET_SPEED },
                state: State::Existing,
            },
        };
        self.bullet_list.push(bullet);
    }

    /// Points the player's velocity in one of the eight directions at
    /// `PLAYER_SPEED` per axis.
    pub fn player_move(&mut self, dir: ExtendDirection)
        requires
            old(self).wf(),
        ensures
            final(self).wf(),
            final(self).player == (Player { vector: spec_move_vector(dir), ..old(self).player }),
            final(self).bullet_list@ == old(self).bullet_list@,
            Self::same_but_player_bullets(*final(self), *old(self)),
    {
        let v = match dir {
            ExtendDirection::Left => Vector { x: -PLAYER_SPEED, y: 0 },
            ExtendDirection::Right => Vector { x: PLAYER_SPEED, y: 0 },
            ExtendDirection::Up => Vector { x: 0, y: PLAYER_SPEED },
            ExtendDirection::Down => Vector { x: 0, y: -PLAYER_SPEED },
            ExtendDirection::LeftUp => Vector { x: -PLAYER_SPEED, y: PLAYER_SPEED },
            ExtendDirection::RightUp => Vector { x: PLAYER_SPEED, y: PLAYER_SPEED },
            ExtendDirection::LeftDown => Vector { x: -PLAYER_SPEED, y: -PLAYER_SPEED },
            ExtendDirection::RightDown => Vector { x: PLAYER_SPEED, y: -PLAYER_SPEED },
        };
        self.player.vector = v;
    }
}

/// Where a shot leaves the player: one bullet fewer, unless none is left.
pub open spec fn spec_shot_player(p: Player) -> Player {
    if p.remain_bullet == 0 {
        p
    } else {
        Player { remain_bullet: (p.remain_bullet - 1) as usize, ..p }
    }
}

/// The bullet a shot adds: it starts one player-radius from the player
/// along the shot axis and flies at `BULLET_SPEED`.
pub open spec fn spec_new_bullet(p: Position, dir: Direction) -> Bullet {
    match dir {
        Direction::Left => Bullet {
            pos: Position { x: (p.x - PLAYER_RADIUS) as i64, y: p.y },
            vector: Vector { x: (-BULLET_SPEED) as i64, y: 0 },
            state: State::Existing,
        },
        Direction::Right => Bullet {
            pos: Position { x: (p.x + PLAYER_RADIUS) as i64, y: p.y },
            vector: Vector { x: BULLET_SPEED, y: 0 },
            state: State::Existing,
        },
        Direction::Up => Bullet {
            pos: Position { x: p.x, y: (p.y + PLAYER_RADIUS) as i64 },
            vector: Vector { x: 0, y: BULLET_SPEED },
            state: State::Existing,
        },
        Direction::Down => Bullet {
            pos: Position { x: p.x, y: (p.y - PLAYER_RADIUS) as i64 },
            vector: Vector { x: 0, y: (-BULLET_SPEED) as i64 },
            state: State::Existing,
        },
    }
}

/// What a shot leaves in the bullet list.
pub open spec fn spec_shot_bullets(p: Player, bs: Seq<Bullet>, dir: Direction) -> Seq<Bullet> {
    if p.remain_bullet == 0 {
        bs
    } else {
        bs.push(spec_new_bullet(p.pos, dir))
    }
}

/// The velocity a movement command sets.
pub open spec fn spec_move_vector(dir: ExtendDirection) -> Vector {
    match dir {
        ExtendDirection::Left => Vector { x: (-PLAYER_SPEED) as i64, y: 0 },
        ExtendDirection::Right => Vector { x: PLAYER_SPEED, y: 0 },
        ExtendDirection::Up => Vector { x: 0, y: PLAYER_SPEED },
        ExtendDirection::Down => Vector { x: 0, y: (-PLAYER_SPEED) as i64 },
        ExtendDirection::LeftUp => Vector { x: (-PLAYER_SPEED) as i64, y: PLAYER_SPEED },
        ExtendDirection::RightUp => Vector { x: PLAYER_SPEED, y: PLAYER_SPEED },
        ExtendDirection::LeftDown => Vector { x: (-PLAYER_SPEED) as i64, y: (-PLAYER_SPEED) as i64 },
        ExtendDirection::RightDown => Vector { x: PLAYER_SPEED, y: (-PLAYER_SPEED) as i64 },
    }
}

/// The schedule's entries reversed into a stack, soonest-due last.
fn reversed_entries(schedule: &Schedule) -> (r: Vec<AppearLocation>)
    ensures
        r@ == schedule@.reverse(),
        entries_ok(r@),
        crate::schedule::spec_entries_ok(schedule@),
{
    let entries = schedule.entries();
    let n = entries.len();
    let mut r: Vec<AppearLocation> = Vec::new();
    let mut i: usize = 0;
    while i < n
        invariant
            n == entries@.len(),
            entries@ == schedule@,
            crate::schedule::spec_entries_ok(schedule@),
            0 <= i <= n,
            r@.len() == i,
            forall|j: int| 0 <= j < i ==> r@[j] == entries@[n - 1 - j],
        decreases n - i,
    {
        r.push(entries[n - 1 - i]);
        i += 1;
    }
    proof {
        assert(r@ =~= schedule@.reverse());
        assert forall|j: int| 0 <= j < r@.len() implies spec_entry_ok(#[trigger] r@[j]) by {
            assert(r@[j] == schedule@[n - 1 - j]);
        }
    }
    r
}

impl Field {
    /// Step 7: consume the due wave, convert and spawn its enemies, and
    /// flag the terminal state when schedule and field are both empty.
    fn spawn_step(&mut self)
        requires
            entries_ok(old(self).appear_location_list@),
            old(self).appear_location_list@.len() > 0
                ==> old(self).appearance_counter <= old(self).appear_location_list@.last().dt,
            0 < old(self).width <= DIM_LIMIT,
            0 < old(self).height <= DIM_LIMIT,
            -POS_LIMIT <= old(self).player.pos.x <= POS_LIMIT,
            -POS_LIMIT <= old(self).player.pos.y <= POS_LIMIT,
        ensures
            ({
                let sp = crate::model::spec_spawn_phase(
                    old(self).appear_location_list@,
                    old(self).appearance_counter,
                    old(self).player.pos,
                    old(self).width as int,
                    old(self).height as int,
                );
                &&& final(self).appear_location_list@ == sp.remaining
                &&& final(self).appearance_counter == sp.counter
                &&& final(self).enemy_list@ == old(self).enemy_list@ + sp.spawned
            }),
            final(self).game_end == (old(self).game_end || (old(self).appear_location_list@.len()
                == 0 && old(self).enemy_list@.len() == 0)),
            final(self).enemy_list@.len() + final(self).appear_location_list@.len()
                <= old(self).enemy_list@.len() + old(self).appear_location_list@.len(),
            final(self).appear_location_list@.len() > 0
                ==> final(self).appearance_counter
                    < final(self).appear_location_list@.last().dt,
            entries_ok(final(self).appear_location_list@),
            forall|j: int| old(self).enemy_list@.len() <= j < final(self).enemy_list@.len()
                ==> {
                    let e = #[trigger] final(self).enemy_list@[j];
                    &&& -1_000_000_000 <= e.pos.x <= 1_000_000_000
                    &&& -1_000_000_000 <= e.pos.y <= 1_000_000_000
                    &&& e.vector == (Vector { x: 0i64, y: 0i64 })
                    &&& e.state == State::Existing
                },
            final(self).player == old(self).player,
            final(self).bullet_list@ == old(self).bullet_list@,
            final(self).explosion_list@ == old(self).explosion_list@,
            final(self).score == old(self).score,
            final(self).reward == old(self).reward,
            final(self).game_over == old(self).game_over,
            final(self).width == old(self).width,
            final(self).height == old(self).height,
            final(self).killed == old(self).killed,
            final(self).budget == old(self).budget,
    {
        let w = self.width;
        let h = self.height;
        let ppos = self.player.pos;
        let n = self.appear_location_list.len();
        if n == 0 {
            if self.enemy_list.len() == 0 {
                self.game_end = true;
            }
            proof {
                assert(self.enemy_list@ =~= old(self).enemy_list@ + Seq::<Enemy>::empty());
            }
            return;
        }
        let due = self.appear_location_list[n - 1];
        if due.dt != self.appearance_counter {
            proof {
                assert(self.enemy_list@ =~= old(self).enemy_list@ + Seq::<Enemy>::empty());
            }
            return;
        }
        // consume the due entry, then drain its wave (offsets exactly zero)
        let ghost sp = crate::model::spec_spawn_phase(
            old(self).appear_location_list@,
            old(self).appearance_counter,
            old(self).player.pos,
            old(self).width as int,
            old(self).height as int,
        );
        let first = match self.appear_location_list.pop() {
            Some(loc) => loc,
            None => { proof { assert(false); } due },
        };
        crate::sweeps::spawn_at(&mut self.enemy_list, first, ppos, w, h);
        let ghost base_list = self.appear_location_list@;
        let ghost base_enemies = self.enemy_list@;
        loop
            invariant_except_break
                entries_ok(self.appear_location_list@),
                0 < w <= DIM_LIMIT,
                0 < h <= DIM_LIMIT,
                w == old(self).width,
                h == old(self).height,
                self.width == w,
                self.height == h,
                ppos == old(self).player.pos,
                -POS_LIMIT <= ppos.x <= POS_LIMIT,
                -POS_LIMIT <= ppos.y <= POS_LIMIT,
                ({
                    let wv0 = crate::model::spec_wave(base_list, ppos, w as int, h as int);
                    let wv = crate::model::spec_wave(
                        self.appear_location_list@,
                        ppos,
                        w as int,
                        h as int,
                    );
                    &&& wv0.remaining == wv.remaining
                    &&& base_enemies + wv0.spawned =~= self.enemy_list@ + wv.spawned
                }),
                self.enemy_list@.len() + self.appear_location_list@.len()
                    <= base_enemies.len() + base_list.len(),
                base_enemies.len() <= self.enemy_list@.len(),
                forall|j: int| 0 <= j < base_enemies.len()
                    ==> #[trigger] self.enemy_list@[j] == base_enemies[j],
                forall|j: int| base_enemies.len() <= j < self.enemy_list@.len()
                    ==> {
                        let e = #[trigger] self.enemy_list@[j];
                        &&& -1_000_000_000 <= e.pos.x <= 1_000_000_000
                        &&& -1_000_000_000 <= e.pos.y <= 1_000_000_000
                        &&& e.vector == (Vector { x: 0i64, y: 0i64 })
                        &&& e.state == State::Existing
                    },
                self.player == old(self).player,
                self.bullet_list@ == old(self).bullet_list@,
                self.explosion_list@ == old(self).explosion_list@,
                self.score == old(self).score,
                self.reward == old(self).reward,
                self.game_over == old(self).game_over,
                self.game_end == old(self).game_end,
                self.killed == old(self).killed,
                self.budget == old(self).budget,
            ensures
                self.appearance_counter == 0,
                self.width == old(self).width,
                self.height == old(self).height,
                ({
                    let wv0 = crate::model::spec_wave(base_list, ppos, w as int, h as int);
                    &&& self.appear_location_list@ == wv0.remaining
                    &&& self.enemy_list@ =~= base_enemies + wv0.spawned
                }),
                self.enemy_list@.len() + self.appear_location_list@.len()
                    <= base_enemies.len() + base_list.len(),
                self.appear_location_list@.len() > 0
                    ==> self.appear_location_list@.last().dt != 0,
                entries_ok(self.appear_location_list@),
                base_enemies.len() <= self.enemy_list@.len(),
                forall|j: int| 0 <= j < base_enemies.len()
                    ==> #[trigger] self.enemy_list@[j] == base_enemies[j],
                forall|j: int| base_enemies.len() <= j < self.enemy_list@.len()
                    ==> {
                        let e = #[trigger] self.enemy_list@[j];
                        &&& -1_000_000_000 <= e.pos.x <= 1_000_000_000
                        &&& -1_000_000_000 <= e.pos.y <= 1_000_000_000
                        &&& e.vector == (Vector { x: 0i64, y: 0i64 })
                        &&& e.state == State::Existing
                    },
                self.player == old(self).player,
                self.bullet_list@ == old(self).bullet_list@,
                self.explosion_list@ == old(self).explosion_list@,
                self.score == old(self).score,
                self.reward == old(self).reward,
                self.game_over == old(self).game_over,
                self.game_end == old(self).game_end,
                self.killed == old(self).killed,
                self.budget == old(self).budget,
            decreases self.appear_location_list@.len(),
        {
            let m = self.appear_location_list.len();
            if m == 0 {
                self.appearance_counter = 0;
                break;
            }
            let nxt = self.appear_location_list[m - 1];
            if nxt.dt != 0 {
                self.appearance_counter = 0;
                break;
            }
            let loc = match self.appear_location_list.pop() {
                Some(loc) => loc,
                None => { proof { assert(false); } nxt },
            };
            crate::sweeps::spawn_at(&mut self.enemy_list, loc, ppos, w, h);
        }
        proof {
            let wv0 = crate::model::spec_wave(base_list, ppos, w as int, h as int);
            assert(self.enemy_list@ =~= old(self).enemy_list@ + sp.spawned);
        }
    }
}

impl Field {
    /// Advances the simulation one full tick in the fixed order: motion,
    /// bullet regeneration, the three collision rules, explosion expansion,
    /// bounds extrusion, culling, spawn scheduling, re-aiming and the spawn
    /// counter. The outcome is exactly the model's [`spec_tick`]; the score
    /// register folds the tick's award in (holding at the `u64` ceiling)
    /// and the reward register holds the award clamped to `REWARD_LIMIT`.
    pub fn update(&mut self)
        requires
            old(self).wf(),
        ensures
            final(self).wf(),
            ({
                let t = spec_tick(
                    old(self).player,
                    old(self).enemy_list@,
                    old(self).bullet_list@,
                    old(self).explosion_list@,
                    old(self).appear_location_list@,
                    old(self).appearance_counter,
                    old(self).width as int,
                    old(self).height as int,
                    old(self).game_end,
                );
                &&& final(self).player == t.player
                &&& final(self).enemy_list@ == t.enemies
                &&& final(self).bullet_list@ == t.bullets
                &&& final(self).explosion_list@ == t.explosions
                &&& final(self).appear_location_list@ == t.remaining
                &&& final(self).appearance_counter == t.counter
                &&& t.delta >= 0
                &&& final(self).score as int == sat64(old(self).score + t.delta)
                &&& final(self).reward == spec_cap_reward(t.delta)
                &&& final(self).game_end == t.game_end
                &&& final(self).game_over == (old(self).game_over
                    || t.player.state == State::Nil)
                &&& final(self).killed@ == old(self).killed@ + t.kills
            }),
            final(self).width == old(self).width,
            final(self).height == old(self).height,
            final(self).budget == old(self).budget,
            PLAYER_RADIUS <= final(self).player.pos.x <= final(self).width - PLAYER_RADIUS,
            PLAYER_RADIUS <= final(self).player.pos.y <= final(self).height - PLAYER_RADIUS,
    {
        let w = self.width;
        let h = self.height;
        let ghost f0 = *old(self);
        let ghost t = spec_tick(
            f0.player,
            f0.enemy_list@,
            f0.bullet_list@,
            f0.explosion_list@,
            f0.appear_location_list@,
            f0.appearance_counter,
            f0.width as int,
            f0.height as int,
            f0.game_end,
        );

        // steps 1 and 2: motion, player bullet regeneration
        self.player = crate::sweeps::player_tick(self.player);
        crate::sweeps::move_enemies(&mut self.enemy_list);
        crate::sweeps::move_bullets(&mut self.bullet_list);
        let ghost p1 = self.player;
        let ghost es1 = self.enemy_list@;
        let ghost bs1 = self.bullet_list@;
        proof {
            assert forall|j: int| 0 <= j < es1.len() implies {
                &&& -POS_LIMIT - COORD_SCALE <= (#[trigger] es1[j]).pos.x
                    <= POS_LIMIT + COORD_SCALE
                &&& -POS_LIMIT - COORD_SCALE <= es1[j].pos.y <= POS_LIMIT + COORD_SCALE
                &&& es1[j].state == State::Existing
            } by {
                assert(es1[j] == spec_move_enemies(f0.enemy_list@)[j]);
            }
            assert forall|j: int| 0 <= j < bs1.len() implies {
                &&& -POS_LIMIT - PLAYER_RADIUS - BULLET_SPEED <= (#[trigger] bs1[j]).pos.x
                    <= POS_LIMIT + PLAYER_RADIUS + BULLET_SPEED
                &&& -POS_LIMIT - PLAYER_RADIUS - BULLET_SPEED <= bs1[j].pos.y
                    <= POS_LIMIT + PLAYER_RADIUS + BULLET_SPEED
                &&& -BULLET_SPEED <= bs1[j].vector.x <= BULLET_SPEED
                &&& -BULLET_SPEED <= bs1[j].vector.y <= BULLET_SPEED
            } by {
                assert(bs1[j] == spec_move_bullets(f0.bullet_list@)[j]);
            }
            crate::model::lemma_count_all_existing(es1);
        }

        // step 3: player-vs-enemy, enemy-vs-explosion, enemy-vs-bullet
        let hit = crate::sweeps::player_hit(&self.enemy_list, &self.player);
        if hit {
            self.player.state = State::Nil;
        }
        let ghost k0 = f0.killed@;
        let r1 = crate::sweeps::explosion_sweep(
            &mut self.enemy_list,
            &self.explosion_list,
            Ghost(k0),
        );
        let mut born1 = r1.0;
        let d1 = r1.1;
        let ghost ep = spec_expl_phase(es1, f0.explosion_list@);
        let r2 = crate::sweeps::bullet_sweep(&mut self.enemy_list, &mut self.bullet_list);
        let mut born2 = r2.0;
        let d2 = r2.1;
        let ghost bp = spec_bullet_phase(ep.enemies, bs1);
        self.explosion_list.append(&mut born1);
        self.explosion_list.append(&mut born2);
        proof {
            assert(self.explosion_list@ =~= f0.explosion_list@ + ep.born + bp.born);
        }

        // step 4: expansion
        crate::sweeps::expand_explosions(&mut self.explosion_list);

        // step 5: extrusion
        self.player.pos = crate::geometry::extrude(self.player.pos, w, h);
        crate::sweeps::extrude_enemies(&mut self.enemy_list, w, h);
        proof {
            assert forall|j: int| 0 <= j < self.enemy_list@.len() implies {
                &&& -POS_LIMIT <= (#[trigger] self.enemy_list@[j]).pos.x <= POS_LIMIT
                &&& -POS_LIMIT <= self.enemy_list@[j].pos.y <= POS_LIMIT
                &&& -COORD_SCALE <= self.enemy_list@[j].vector.x <= COORD_SCALE
                &&& -COORD_SCALE <= self.enemy_list@[j].vector.y <= COORD_SCALE
            } by {
                assert(self.enemy_list@[j] == crate::model::spec_extrude_enemies(
                    bp.enemies,
                    w as int,
                    h as int,
                )[j]);
                assert(bp.enemies[j].pos == es1[j].pos && bp.enemies[j].vector
                    == es1[j].vector);
                assert(es1[j].vector == f0.enemy_list@[j].vector);
            }
        }

        // step 6: culling
        let culled_b = crate::sweeps::cull_bullets(&self.bullet_list, w, h);
        self.bullet_list = culled_b;
        let culled_e = crate::sweeps::cull_enemies(&self.enemy_list);
        self.enemy_list = culled_e;
        let ghost k2 = k0 + ep.kills + bp.kills;
        proof {
            assert forall|j: int| 0 <= j < self.explosion_list@.len() implies {
                &&& -POS_LIMIT - COORD_SCALE <= (#[trigger] self.explosion_list@[j]).pos.x
                    <= POS_LIMIT + COORD_SCALE
                &&& -POS_LIMIT - COORD_SCALE <= self.explosion_list@[j].pos.y
                    <= POS_LIMIT + COORD_SCALE
                &&& 0 <= self.explosion_list@[j].radius
                &&& 1 <= self.explosion_list@[j].chain <= k2
            } by {
                let pre = f0.explosion_list@ + ep.born + bp.born;
                assert(self.explosion_list@[j] == crate::model::spec_expand(pre)[j]);
                if j < f0.explosion_list@.len() {
                    assert(pre[j] == f0.explosion_list@[j]);
                } else if j < f0.explosion_list@.len() + ep.born.len() {
                    assert(pre[j] == ep.born[j - f0.explosion_list@.len()]);
                } else {
                    assert(pre[j] == bp.born[j - f0.explosion_list@.len() - ep.born.len()]);
                }
            }
        }
        let culled_x = crate::sweeps::cull_explosions(&self.explosion_list, Ghost(k2));
        self.explosion_list = culled_x;

        // step 7: spawn scheduling and the terminal flag
        let ghost es3 = self.enemy_list@;
        self.spawn_step();

        // step 8: re-aim all survivors at the player
        proof {
            assert forall|j: int| 0 <= j < self.enemy_list@.len() implies {
                &&& -POS_LIMIT <= (#[trigger] self.enemy_list@[j]).pos.x <= POS_LIMIT
                &&& -POS_LIMIT <= self.enemy_list@[j].pos.y <= POS_LIMIT
            } by {
                if j < es3.len() {
                    assert(self.enemy_list@[j] == es3[j]);
                }
            }
        }
        crate::sweeps::reaim_enemies(&mut self.enemy_list, self.player.pos);

        // step 9: advance the spawn counter
        if self.appearance_counter < usize::MAX {
            self.appearance_counter = self.appearance_counter + 1;
        }

        // scoring, reward and the loss flag
        let total = crate::sweeps::sat_add_u64(d1, d2);
        proof {
            assert(total as int == sat64(ep.delta + bp.delta));
        }
        self.score = crate::sweeps::sat_add_u64(self.score, total);
        self.reward = if total > REWARD_LIMIT {
            REWARD_LIMIT
        } else {
            total
        };
        self.game_over = self.game_over || self.player.state == State::Nil;
        self.killed = Ghost(k2);

        proof {
            assert(self.score as int == sat64(f0.score + t.delta));
            assert(self.enemy_list@ == t.enemies);
            assert(self.wf());
        }
    }
}

/// In every reachable state the player's bullet count stays within
/// `[0, MAXIMUM_BULLET]`: it holds of a fresh field and every engine
/// operation preserves well-formedness.
pub proof fn lemma_bullet_count_invariant(f: Field)
    requires
        f.wf(),
    ensures
        0 <= f.player.remain_bullet <= MAXIMUM_BULLET,
{
}

impl Field {
    /// The discretized lookup key of the current state: a pure function of
    /// player and enemy positions only. It never mutates simulation state.
    pub fn get_hash(&self) -> (r: u64)
        requires
            self.wf(),
        ensures
            r == crate::statekey::spec_state_key(self.player.pos, self.enemy_list@),
    {
        crate::statekey::state_key(self.player.pos, &self.enemy_list)
    }

    /// Applies one command, advances one tick, and hands back the new state
    /// key and the tick's reward. The wave-clear bonus is paid exactly once:
    /// on the tick the terminal flag first rises while the player is not
    /// already marked dead.
    pub fn next_state(&mut self, cmd: Command) -> (r: (u64, u64))
        requires
            old(self).wf(),
        ensures
            final(self).wf(),
            ({
                let player1 = match cmd {
                    Command::Shot(_) => spec_shot_player(old(self).player),
                    Command::Move(dir) => (Player {
                        vector: spec_move_vector(dir),
                        ..old(self).player
                    }),
                    Command::Stay => old(self).player,
                };
                let bullets1 = match cmd {
                    Command::Shot(dir) => spec_shot_bullets(
                        old(self).player,
                        old(self).bullet_list@,
                        dir,
                    ),
                    Command::Move(_) => old(self).bullet_list@,
                    Command::Stay => old(self).bullet_list@,
                };
                let t = spec_tick(
                    player1,
                    old(self).enemy_list@,
                    bullets1,
                    old(self).explosion_list@,
                    old(self).appear_location_list@,
                    old(self).appearance_counter,
                    old(self).width as int,
                    old(self).height as int,
                    old(self).game_end,
                );
                &&& final(self).player == t.player
                &&& final(self).enemy_list@ == t.enemies
                &&& final(self).bullet_list@ == t.bullets
                &&& final(self).explosion_list@ == t.explosions
                &&& final(self).appear_location_list@ == t.remaining
                &&& final(self).appearance_counter == t.counter
                &&& t.delta >= 0
                &&& final(self).score as int == sat64(old(self).score + t.delta)
                &&& final(self).game_end == t.game_end
                &&& final(self).game_over == (old(self).game_over
                    || t.player.state == State::Nil)
                &&& final(self).reward == (if t.game_end && !old(self).game_end
                    && !final(self).game_over {
                    spec_cap_reward(t.delta + WAVE_CLEAR_BONUS)
                } else {
                    spec_cap_reward(t.delta)
                })
                &&& r.0 == crate::statekey::spec_state_key(t.player.pos, t.enemies)
                &&& r.1 == final(self).reward
            }),
            final(self).width == old(self).width,
            final(self).height == old(self).height,
    {
        let was_end = self.game_end;
        self.exec_player_cmd(cmd);
        self.update();
        if self.game_end && !was_end && !self.game_over {
            let nr = self.reward + WAVE_CLEAR_BONUS;
            self.reward = if nr > REWARD_LIMIT {
                REWARD_LIMIT
            } else {
                nr
            };
        }
        let key = self.get_hash();
        (key, self.reward)
    }
}

} // verus!
