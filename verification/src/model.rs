//! The mathematical model of one simulation tick.
//!
//! Each phase of the engine's fixed per-tick order is a spec function here;
//! [`spec_tick`] composes them. The executable engine in `field` is proved
//! to return exactly this model's outcome.

use vstd::prelude::*;
use crate::object::{
    Bullet, Enemy, Explosion, Player, Position, State,
    BULLET_RADIUS, BULLET_REGEN_TICKS, BULLET_SPEED, COORD_SCALE, EXPLODE_STEP, KILLING_POINT,
    MAXIMUM_BULLET, MAXIMUM_EXPLODE_RADIUS, PLAYER_RADIUS, PLAYER_SPEED, POS_LIMIT, REWARD_LIMIT,
    spec_advance,
};
use crate::geometry::{abs1, div_trunc, spec_aim, spec_extrude, spec_overlap};
use crate::schedule::{AppearLocation, spec_entry_ok};

verus! {

// ------------------------------------------------ collection envelopes

pub open spec fn player_ok(p: Player) -> bool {
    &&& -POS_LIMIT <= p.pos.x <= POS_LIMIT
    &&& -POS_LIMIT <= p.pos.y <= POS_LIMIT
    &&& -PLAYER_SPEED <= p.vector.x <= PLAYER_SPEED
    &&& -PLAYER_SPEED <= p.vector.y <= PLAYER_SPEED
    &&& p.remain_bullet <= MAXIMUM_BULLET
    &&& p.bullet_timer <= BULLET_REGEN_TICKS
}

pub open spec fn enemies_ok(es: Seq<Enemy>) -> bool {
    forall|i: int| 0 <= i < es.len() ==> {
        &&& -POS_LIMIT <= (#[trigger] es[i]).pos.x <= POS_LIMIT
        &&& -POS_LIMIT <= es[i].pos.y <= POS_LIMIT
        &&& -COORD_SCALE <= es[i].vector.x <= COORD_SCALE
        &&& -COORD_SCALE <= es[i].vector.y <= COORD_SCALE
        &&& es[i].state == State::Existing
    }
}

pub open spec fn bullets_ok(bs: Seq<Bullet>) -> bool {
    forall|i: int| 0 <= i < bs.len() ==> {
        &&& -POS_LIMIT - PLAYER_RADIUS <= (#[trigger] bs[i]).pos.x <= POS_LIMIT + PLAYER_RADIUS
        &&& -POS_LIMIT - PLAYER_RADIUS <= bs[i].pos.y <= POS_LIMIT + PLAYER_RADIUS
        &&& -BULLET_SPEED <= bs[i].vector.x <= BULLET_SPEED
        &&& -BULLET_SPEED <= bs[i].vector.y <= BULLET_SPEED
        &&& bs[i].state == State::Existing
    }
}

pub open spec fn explosions_ok(xs: Seq<Explosion>) -> bool {
    forall|i: int| 0 <= i < xs.len() ==> {
        &&& -POS_LIMIT - COORD_SCALE <= (#[trigger] xs[i]).pos.x <= POS_LIMIT + COORD_SCALE
        &&& -POS_LIMIT - COORD_SCALE <= xs[i].pos.y <= POS_LIMIT + COORD_SCALE
        &&& 0 <= xs[i].radius <= MAXIMUM_EXPLODE_RADIUS
        &&& 1 <= xs[i].chain
    }
}

/// Every stored chain counter is covered by `k` kills.
pub open spec fn chains_ok(xs: Seq<Explosion>, k: nat) -> bool {
    forall|i: int| 0 <= i < xs.len() ==> (#[trigger] xs[i]).chain <= k
}

pub open spec fn entries_ok(es: Seq<AppearLocation>) -> bool {
    forall|i: int| 0 <= i < es.len() ==> spec_entry_ok(#[trigger] es[i])
}

// ---------------------------------------------------------------- motion

/// Step 1 for the player plus step 2 (bullet regeneration): move along the
/// velocity; when the regen timer hits zero, replenish one bullet (capped)
/// and rewind the timer, else count the timer down.
pub open spec fn spec_player_tick(p: Player) -> Player {
    let moved = Player { pos: spec_advance(p.pos, p.vector), ..p };
    if moved.bullet_timer == 0 {
        Player {
            remain_bullet: if moved.remain_bullet != MAXIMUM_BULLET {
                (moved.remain_bullet + 1) as usize
            } else {
                moved.remain_bullet
            },
            bullet_timer: BULLET_REGEN_TICKS,
            ..moved
        }
    } else {
        Player { bullet_timer: (moved.bullet_timer - 1) as usize, ..moved }
    }
}

pub open spec fn spec_move_enemies(es: Seq<Enemy>) -> Seq<Enemy> {
    es.map_values(|e: Enemy| Enemy { pos: spec_advance(e.pos, e.vector), ..e })
}

pub open spec fn spec_move_bullets(bs: Seq<Bullet>) -> Seq<Bullet> {
    bs.map_values(|b: Bullet| Bullet { pos: spec_advance(b.pos, b.vector), ..b })
}

// ---------------------------------------------------- player-vs-enemy rule

/// Whether an enemy's square hitbox overlaps the player's circular hitbox.
pub open spec fn spec_enemy_touches_player(e: Enemy, p: Player) -> bool {
    spec_overlap(e.pos, PLAYER_RADIUS as int, p.pos, PLAYER_RADIUS as int)
}

pub open spec fn spec_any_enemy_touches_player(es: Seq<Enemy>, p: Player) -> bool {
    exists|i: int| 0 <= i < es.len() && spec_enemy_touches_player(#[trigger] es[i], p)
}

// ------------------------------------------------- enemy-vs-explosion rule

/// The explosion spawned when explosion `x` kills an enemy at `e.pos`:
/// it starts at radius zero with the chain counter advanced by one.
pub open spec fn spec_child(e: Enemy, x: Explosion) -> Explosion {
    Explosion { pos: e.pos, radius: 0, chain: (x.chain + 1) as u64 }
}

pub ghost struct HitsOut {
    pub born: Seq<Explosion>,
    pub delta: int,
}

/// One enemy against every live explosion, in list order: each overlapping
/// source yields one new explosion and `KILLING_POINT` times the new chain.
pub open spec fn spec_expl_hits(e: Enemy, xs: Seq<Explosion>) -> HitsOut
    decreases xs.len(),
{
    if xs.len() == 0 {
        HitsOut { born: Seq::empty(), delta: 0 }
    } else {
        let prev = spec_expl_hits(e, xs.drop_last());
        let x = xs.last();
        if spec_overlap(e.pos, PLAYER_RADIUS as int, x.pos, x.radius as int) {
            HitsOut {
                born: prev.born.push(spec_child(e, x)),
                delta: prev.delta + KILLING_POINT * (x.chain + 1),
            }
        } else {
            prev
        }
    }
}

pub ghost struct ExplPhaseOut {
    pub enemies: Seq<Enemy>,
    pub born: Seq<Explosion>,
    pub delta: int,
    pub kills: nat,
}

/// The enemy-vs-explosion sweep, enemies in list order. An enemy overlapping
/// at least one explosion is marked dead; it still yields one new explosion
/// per overlapping source (a chain can branch), but an enemy that entered
/// the sweep already dead is skipped.
pub open spec fn spec_expl_phase(es: Seq<Enemy>, xs: Seq<Explosion>) -> ExplPhaseOut
    decreases es.len(),
{
    if es.len() == 0 {
        ExplPhaseOut { enemies: Seq::empty(), born: Seq::empty(), delta: 0, kills: 0 }
    } else {
        let prev = spec_expl_phase(es.drop_last(), xs);
        let e = es.last();
        let hits = spec_expl_hits(e, xs);
        if e.state == State::Existing && hits.born.len() > 0 {
            ExplPhaseOut {
                enemies: prev.enemies.push(Enemy { state: State::Nil, ..e }),
                born: prev.born + hits.born,
                delta: prev.delta + hits.delta,
                kills: prev.kills + 1,
            }
        } else {
            ExplPhaseOut {
                enemies: prev.enemies.push(e),
                born: prev.born,
                delta: prev.delta,
                kills: prev.kills,
            }
        }
    }
}

// ---------------------------------------------------- enemy-vs-bullet rule

/// Index of the first bullet at or after `j` that overlaps the enemy's
/// hitbox. Bullet lifecycle states are not consulted, as positions never
/// change within the sweep.
pub open spec fn spec_first_bullet_hit(e: Enemy, bs: Seq<Bullet>, j: int) -> Option<int>
    decreases bs.len() - j,
{
    if j < 0 || j >= bs.len() {
        None
    } else if spec_overlap(e.pos, PLAYER_RADIUS as int, bs[j].pos, BULLET_RADIUS as int) {
        Some(j)
    } else {
        spec_first_bullet_hit(e, bs, j + 1)
    }
}

pub ghost struct BulletPhaseOut {
    pub enemies: Seq<Enemy>,
    pub bullets: Seq<Bullet>,
    pub born: Seq<Explosion>,
    pub delta: int,
    pub kills: nat,
}

/// The enemy-vs-bullet sweep, enemies in list order. A surviving enemy dies
/// to the first overlapping bullet; both are marked dead, a chain-1
/// explosion appears at the enemy's position and `KILLING_POINT` is awarded.
/// An enemy already dead earlier in the tick is skipped entirely.
pub open spec fn spec_bullet_phase(es: Seq<Enemy>, bs: Seq<Bullet>) -> BulletPhaseOut
    decreases es.len(),
{
    if es.len() == 0 {
        BulletPhaseOut {
            enemies: Seq::empty(),
            bullets: bs,
            born: Seq::empty(),
            delta: 0,
            kills: 0,
        }
    } else {
        let prev = spec_bullet_phase(es.drop_last(), bs);
        let e = es.last();
        if e.state == State::Existing {
            match spec_first_bullet_hit(e, bs, 0) {
                Some(j) => BulletPhaseOut {
                    enemies: prev.enemies.push(Enemy { state: State::Nil, ..e }),
                    bullets: prev.bullets.update(
                        j,
                        Bullet { state: State::Nil, ..prev.bullets[j] },
                    ),
                    born: prev.born.push(Explosion { pos: e.pos, radius: 0, chain: 1 }),
                    delta: prev.delta + KILLING_POINT,
                    kills: prev.kills + 1,
                },
                None => BulletPhaseOut { enemies: prev.enemies.push(e), ..prev },
            }
        } else {
            BulletPhaseOut { enemies: prev.enemies.push(e), ..prev }
        }
    }
}

// ------------------------------------------------- expansion and culling

pub open spec fn spec_expand(xs: Seq<Explosion>) -> Seq<Explosion> {
    xs.map_values(|x: Explosion| Explosion { radius: (x.radius + EXPLODE_STEP) as i64, ..x })
}

pub open spec fn spec_extrude_enemies(es: Seq<Enemy>, w: int, h: int) -> Seq<Enemy> {
    es.map_values(|e: Enemy| Enemy { pos: spec_extrude(e.pos, w, h), ..e })
}

/// Part of a bullet's hitbox still lies on the field. Only a bullet whose
/// whole hitbox has left the field is culled; one straddling the edge
/// stays.
pub open spec fn spec_touches_field(p: Position, w: int, h: int) -> bool {
    &&& 0 <= p.x + BULLET_RADIUS
    &&& p.x - BULLET_RADIUS <= w
    &&& 0 <= p.y + BULLET_RADIUS
    &&& p.y - BULLET_RADIUS <= h
}

pub open spec fn spec_cull_bullets(bs: Seq<Bullet>, w: int, h: int) -> Seq<Bullet> {
    bs.filter(|b: Bullet| b.state == State::Existing && spec_touches_field(b.pos, w, h))
}

pub open spec fn spec_cull_enemies(es: Seq<Enemy>) -> Seq<Enemy> {
    es.filter(|e: Enemy| e.state == State::Existing)
}

pub open spec fn spec_cull_explosions(xs: Seq<Explosion>) -> Seq<Explosion> {
    xs.filter(|x: Explosion| x.radius <= MAXIMUM_EXPLODE_RADIUS)
}

/// How many enemies of the list are alive.
pub open spec fn count_existing(es: Seq<Enemy>) -> nat {
    spec_cull_enemies(es).len()
}

/// In a list of enemies that are all alive, the live count is the length.
pub proof fn lemma_count_all_existing(es: Seq<Enemy>)
    requires
        forall|i: int| 0 <= i < es.len() ==> (#[trigger] es[i]).state == State::Existing,
    ensures
        count_existing(es) == es.len(),
    decreases es.len(),
{
    broadcast use vstd::prelude::Seq::lemma_filter_push;
    reveal(Seq::filter);
    if es.len() > 0 {
        lemma_count_all_existing(es.drop_last());
        assert(es =~= es.drop_last().push(es.last()));
    }
}

/// Extrusion moves enemies without touching their lifecycle state, so it
/// keeps the count of live enemies.
pub proof fn lemma_count_extrude(es: Seq<Enemy>, w: int, h: int)
    ensures
        count_existing(spec_extrude_enemies(es, w, h)) == count_existing(es),
    decreases es.len(),
{
    broadcast use vstd::prelude::Seq::lemma_filter_push;
    reveal(Seq::filter);
    if es.len() > 0 {
        lemma_count_extrude(es.drop_last(), w, h);
        let prev = spec_extrude_enemies(es.drop_last(), w, h);
        let e = es.last();
        let x = Enemy { pos: spec_extrude(e.pos, w, h), ..e };
        assert(spec_extrude_enemies(es, w, h) =~= prev.push(x));
        assert(es =~= es.drop_last().push(e));
    } else {
        assert(spec_extrude_enemies(es, w, h) =~= es);
    }
}

// ----------------------------------------------------------------- spawn

/// A raw schedule position rescaled into sub-units: raw milli-units times
/// (field dimension over `PLAYER_RADIUS`), truncated toward zero.
pub open spec fn spec_spawn_pos(raw: Position, w: int, h: int) -> Position {
    Position {
        x: div_trunc(raw.x * w, PLAYER_RADIUS as int) as i64,
        y: div_trunc(raw.y * h, PLAYER_RADIUS as int) as i64,
    }
}

/// A spawn landing within a player-radius box of the player is suppressed.
pub open spec fn spec_suppressed(spawn: Position, ppos: Position) -> bool {
    abs1(ppos.x - spawn.x) < PLAYER_RADIUS && abs1(ppos.y - spawn.y) < PLAYER_RADIUS
}

pub open spec fn spec_spawn_enemy(loc: AppearLocation, w: int, h: int) -> Enemy {
    Enemy {
        pos: spec_spawn_pos(loc.pos, w, h),
        vector: crate::object::Vector { x: 0, y: 0 },
        state: State::Existing,
    }
}

/// What one consumed entry contributes: one enemy, or none if suppressed.
pub open spec fn spec_spawned_at(loc: AppearLocation, ppos: Position, w: int, h: int)
    -> Seq<Enemy> {
    if spec_suppressed(spec_spawn_pos(loc.pos, w, h), ppos) {
        Seq::empty()
    } else {
        seq![spec_spawn_enemy(loc, w, h)]
    }
}

pub ghost struct WaveOut {
    pub remaining: Seq<AppearLocation>,
    pub spawned: Seq<Enemy>,
}

/// Drains the simultaneous tail of a wave: entries are popped from the back
/// of the stored (reversed) list while their tick-offset is exactly zero.
pub open spec fn spec_wave(list: Seq<AppearLocation>, ppos: Position, w: int, h: int)
    -> WaveOut
    decreases list.len(),
{
    if list.len() == 0 || list.last().dt != 0 {
        WaveOut { remaining: list, spawned: Seq::empty() }
    } else {
        let loc = list.last();
        let rest = spec_wave(list.drop_last(), ppos, w, h);
        WaveOut {
            remaining: rest.remaining,
            spawned: spec_spawned_at(loc, ppos, w, h) + rest.spawned,
        }
    }
}

pub ghost struct SpawnPhaseOut {
    pub remaining: Seq<AppearLocation>,
    pub counter: usize,
    pub spawned: Seq<Enemy>,
}

/// Step 7: when the due entry's tick-offset equals the running counter, it
/// is consumed, the rest of its wave (offsets exactly zero) is drained, and
/// the counter rewinds to zero; otherwise nothing changes.
pub open spec fn spec_spawn_phase(
    list: Seq<AppearLocation>,
    counter: usize,
    ppos: Position,
    w: int,
    h: int,
) -> SpawnPhaseOut {
    if list.len() == 0 || list.last().dt != counter {
        SpawnPhaseOut { remaining: list, counter, spawned: Seq::empty() }
    } else {
        let loc = list.last();
        let rest = spec_wave(list.drop_last(), ppos, w, h);
        SpawnPhaseOut {
            remaining: rest.remaining,
            counter: 0,
            spawned: spec_spawned_at(loc, ppos, w, h) + rest.spawned,
        }
    }
}

// ---------------------------------------------------------------- re-aim

/// Step 8: every enemy's velocity becomes the Chebyshev-normalized unit
/// step toward the player.
pub open spec fn spec_reaim(es: Seq<Enemy>, ppos: Position) -> Seq<Enemy> {
    es.map_values(|e: Enemy| Enemy { vector: spec_aim(e.pos, ppos), ..e })
}

// ------------------------------------------------------------- saturation

/// A nonnegative mathematical total folded into a `u64` score register:
/// the register holds at the integer ceiling rather than wrapping.
pub open spec fn sat64(v: int) -> u64 {
    if v > u64::MAX {
        u64::MAX
    } else if v < 0 {
        0
    } else {
        v as u64
    }
}

/// The per-tick reward register is clamped at `REWARD_LIMIT`.
pub open spec fn spec_cap_reward(v: int) -> u64 {
    if v > REWARD_LIMIT {
        REWARD_LIMIT
    } else if v < 0 {
        0
    } else {
        v as u64
    }
}

// ------------------------------------------------------------- whole tick

pub ghost struct TickOut {
    pub player: Player,
    pub enemies: Seq<Enemy>,
    pub bullets: Seq<Bullet>,
    pub explosions: Seq<Explosion>,
    pub remaining: Seq<AppearLocation>,
    pub counter: usize,
    pub delta: int,
    pub kills: nat,
    pub game_end: bool,
}

/// One full tick in the engine's fixed order: motion and regen, the three
/// collision rules, expansion, extrusion, culling, spawning, re-aim, and
/// the counter advance. The counter advances every tick, holding at the
/// integer ceiling — unreachable while entries remain, since the counter
/// rewinds to zero at every consumed wave.
pub open spec fn spec_tick(
    player: Player,
    enemies: Seq<Enemy>,
    bullets: Seq<Bullet>,
    explosions: Seq<Explosion>,
    remaining: Seq<AppearLocation>,
    counter: usize,
    w: int,
    h: int,
    game_end: bool,
) -> TickOut {
    let p1 = spec_player_tick(player);
    let es1 = spec_move_enemies(enemies);
    let bs1 = spec_move_bullets(bullets);
    let pstate = if spec_any_enemy_touches_player(es1, p1) {
        State::Nil
    } else {
        p1.state
    };
    let ep = spec_expl_phase(es1, explosions);
    let bp = spec_bullet_phase(ep.enemies, bs1);
    let xs_exp = spec_expand(explosions + ep.born + bp.born);
    let p2 = Player { pos: spec_extrude(p1.pos, w, h), state: pstate, ..p1 };
    let es2 = spec_extrude_enemies(bp.enemies, w, h);
    let bs2 = spec_cull_bullets(bp.bullets, w, h);
    let es3 = spec_cull_enemies(es2);
    let xs2 = spec_cull_explosions(xs_exp);
    let sp = spec_spawn_phase(remaining, counter, p2.pos, w, h);
    let ge = game_end || (remaining.len() == 0 && es3.len() == 0);
    let es5 = spec_reaim(es3 + sp.spawned, p2.pos);
    let c2 = if sp.counter < usize::MAX {
        (sp.counter + 1) as usize
    } else {
        sp.counter
    };
    TickOut {
        player: p2,
        enemies: es5,
        bullets: bs2,
        explosions: xs2,
        remaining: sp.remaining,
        counter: c2,
        delta: ep.delta + bp.delta,
        kills: ep.kills + bp.kills,
        game_end: ge,
    }
}

} // verus!
