//! Executable phases of one tick, each proved equal to its model in
//! [`crate::model`].

use vstd::prelude::*;
use vstd::pervasive::VecAdditionalExecFns;
use crate::object::{
    Bullet, Enemy, Explosion, Player, Position, State,
    BULLET_RADIUS, BULLET_SPEED, COORD_SCALE, KILLING_POINT, MAXIMUM_BULLET,
    MAXIMUM_EXPLODE_RADIUS, EXPLODE_STEP, PLAYER_RADIUS, POS_LIMIT, RAW_LIMIT, SCHEDULE_CAP,
    advance,
};
use crate::geometry::{aim_step, extrude, overlap, div_trunc, OVERLAP_COORD_LIMIT};
use crate::field::DIM_LIMIT;
use crate::schedule::{AppearLocation, spec_entry_ok};
use crate::model::{
    count_existing, sat64, spec_any_enemy_touches_player, spec_bullet_phase, spec_cull_bullets,
    spec_cull_enemies, spec_cull_explosions, spec_enemy_touches_player, spec_expand,
    spec_expl_hits, spec_expl_phase, spec_extrude_enemies, spec_first_bullet_hit,
    spec_move_bullets, spec_move_enemies, spec_player_tick, spec_reaim, spec_spawn_pos,
    spec_spawned_at,
};

verus! {

/// Saturating addition into a `u64` register.
pub(crate) fn sat_add_u64(a: u64, b: u64) -> (r: u64)
    ensures
        r as int == sat64(a + b),
{
    if a <= u64::MAX - b {
        a + b
    } else {
        u64::MAX
    }
}

/// Step 1 and 2 for the player: motion, then bullet regeneration.
pub(crate) fn player_tick(p: Player) -> (r: Player)
    requires
        crate::model::player_ok(p),
    ensures
        r == spec_player_tick(p),
{
    let pos = advance(p.pos, p.vector);
    let mut r = Player { pos, ..p };
    if r.bullet_timer == 0 {
        if r.remain_bullet != MAXIMUM_BULLET {
            r.remain_bullet = r.remain_bullet + 1;
        }
        r.bullet_timer = crate::object::BULLET_REGEN_TICKS;
    } else {
        r.bullet_timer = r.bullet_timer - 1;
    }
    r
}

/// Step 1 for the enemies: one Euler step each.
pub(crate) fn move_enemies(es: &mut Vec<Enemy>)
    requires
        crate::model::enemies_ok(old(es)@),
    ensures
        final(es)@ == spec_move_enemies(old(es)@),
{
    let n = es.len();
    let mut i: usize = 0;
    while i < n
        invariant
            crate::model::enemies_ok(old(es)@),
            n == old(es)@.len(),
            es@.len() == n,
            0 <= i <= n,
            forall|j: int| 0 <= j < i ==> es@[j] == spec_move_enemies(old(es)@)[j],
            forall|j: int| i <= j < n ==> es@[j] == old(es)@[j],
        decreases n - i,
    {
        let e = es[i];
        let pos = advance(e.pos, e.vector);
        es.set(i, Enemy { pos, ..e });
        i += 1;
    }
    proof {
        assert(es@ =~= spec_move_enemies(old(es)@));
    }
}

/// Step 1 for the bullets.
pub(crate) fn move_bullets(bs: &mut Vec<Bullet>)
    requires
        crate::model::bullets_ok(old(bs)@),
    ensures
        final(bs)@ == spec_move_bullets(old(bs)@),
{
    let n = bs.len();
    let mut i: usize = 0;
    while i < n
        invariant
            crate::model::bullets_ok(old(bs)@),
            n == old(bs)@.len(),
            bs@.len() == n,
            0 <= i <= n,
            forall|j: int| 0 <= j < i ==> bs@[j] == spec_move_bullets(old(bs)@)[j],
            forall|j: int| i <= j < n ==> bs@[j] == old(bs)@[j],
        decreases n - i,
    {
        let b = bs[i];
        let pos = advance(b.pos, b.vector);
        bs.set(i, Bullet { pos, ..b });
        i += 1;
    }
    proof {
        assert(bs@ =~= spec_move_bullets(old(bs)@));
    }
}

/// Whether any enemy touches the player (the loss condition).
pub(crate) fn player_hit(es: &Vec<Enemy>, p: &Player) -> (b: bool)
    requires
        forall|i: int| 0 <= i < es@.len() ==> {
            &&& -OVERLAP_COORD_LIMIT <= (#[trigger] es@[i]).pos.x <= OVERLAP_COORD_LIMIT
            &&& -OVERLAP_COORD_LIMIT <= es@[i].pos.y <= OVERLAP_COORD_LIMIT
        },
        -OVERLAP_COORD_LIMIT <= p.pos.x <= OVERLAP_COORD_LIMIT,
        -OVERLAP_COORD_LIMIT <= p.pos.y <= OVERLAP_COORD_LIMIT,
    ensures
        b == spec_any_enemy_touches_player(es@, *p),
{
    let n = es.len();
    let mut i: usize = 0;
    while i < n
        invariant
            n == es@.len(),
            0 <= i <= n,
            forall|i: int| 0 <= i < es@.len() ==> {
                &&& -OVERLAP_COORD_LIMIT <= (#[trigger] es@[i]).pos.x <= OVERLAP_COORD_LIMIT
                &&& -OVERLAP_COORD_LIMIT <= es@[i].pos.y <= OVERLAP_COORD_LIMIT
            },
            -OVERLAP_COORD_LIMIT <= p.pos.x <= OVERLAP_COORD_LIMIT,
            -OVERLAP_COORD_LIMIT <= p.pos.y <= OVERLAP_COORD_LIMIT,
            forall|j: int| 0 <= j < i ==> !spec_enemy_touches_player(#[trigger] es@[j], *p),
        decreases n - i,
    {
        if overlap(es[i].pos, PLAYER_RADIUS, p.pos, PLAYER_RADIUS) {
            return true;
        }
        i += 1;
    }
    false
}

/// The enemy-vs-explosion sweep: kills, chain children and score delta.
/// `k` is a cover for every incoming chain counter.
pub(crate) fn explosion_sweep(es: &mut Vec<Enemy>, xs: &Vec<Explosion>, k: Ghost<nat>) -> (r: (
    Vec<Explosion>,
    u64,
))
    requires
        forall|i: int| 0 <= i < old(es)@.len() ==> {
            &&& -POS_LIMIT - COORD_SCALE <= (#[trigger] old(es)@[i]).pos.x
                <= POS_LIMIT + COORD_SCALE
            &&& -POS_LIMIT - COORD_SCALE <= old(es)@[i].pos.y <= POS_LIMIT + COORD_SCALE
        },
        crate::model::explosions_ok(xs@),
        crate::model::chains_ok(xs@, k@),
        k@ <= SCHEDULE_CAP,
    ensures
        ({
            let m = spec_expl_phase(old(es)@, xs@);
            &&& final(es)@ == m.enemies
            &&& final(es)@.len() == old(es)@.len()
            &&& (forall|j: int| 0 <= j < old(es)@.len() ==> {
                &&& (#[trigger] final(es)@[j]).pos == old(es)@[j].pos
                &&& final(es)@[j].vector == old(es)@[j].vector
            })
            &&& r.0@ == m.born
            &&& r.1 as int == sat64(m.delta)
            &&& m.delta >= 0
            &&& (r.0@.len() > 0 ==> m.kills >= 1)
            &&& count_existing(m.enemies) + m.kills == count_existing(old(es)@)
            &&& forall|i: int| 0 <= i < r.0@.len() ==> {
                &&& (#[trigger] r.0@[i]).radius == 0
                &&& 1 <= r.0@[i].chain <= k@ + 1
                &&& -POS_LIMIT - COORD_SCALE <= r.0@[i].pos.x <= POS_LIMIT + COORD_SCALE
                &&& -POS_LIMIT - COORD_SCALE <= r.0@[i].pos.y <= POS_LIMIT + COORD_SCALE
            }
        }),
{
    let n = es.len();
    let xn = xs.len();
    let mut born: Vec<Explosion> = Vec::new();
    let mut acc: u64 = 0;
    let mut i: usize = 0;
    while i < n
        invariant
            forall|j: int| 0 <= j < old(es)@.len() ==> {
                &&& -POS_LIMIT - COORD_SCALE <= (#[trigger] old(es)@[j]).pos.x
                    <= POS_LIMIT + COORD_SCALE
                &&& -POS_LIMIT - COORD_SCALE <= old(es)@[j].pos.y <= POS_LIMIT + COORD_SCALE
            },
            crate::model::explosions_ok(xs@),
            crate::model::chains_ok(xs@, k@),
            k@ <= SCHEDULE_CAP,
            n == old(es)@.len(),
            es@.len() == n,
            xn == xs@.len(),
            0 <= i <= n,
            forall|j: int| i <= j < n ==> es@[j] == old(es)@[j],
            ({
                let m = spec_expl_phase(old(es)@.take(i as int), xs@);
                &&& m.enemies.len() == i
                &&& forall|j: int| 0 <= j < i ==> es@[j] == m.enemies[j]
                &&& (forall|j: int| 0 <= j < i ==> {
                    &&& (#[trigger] es@[j]).pos == old(es)@[j].pos
                    &&& es@[j].vector == old(es)@[j].vector
                })
                &&& born@ == m.born
                &&& acc as int == sat64(m.delta)
                &&& m.delta >= 0
                &&& (born@.len() > 0 ==> m.kills >= 1)
                &&& count_existing(m.enemies) + m.kills
                    == count_existing(old(es)@.take(i as int))
            }),
            forall|j: int| 0 <= j < born@.len() ==> {
                &&& (#[trigger] born@[j]).radius == 0
                &&& 1 <= born@[j].chain <= k@ + 1
                &&& -POS_LIMIT - COORD_SCALE <= born@[j].pos.x <= POS_LIMIT + COORD_SCALE
                &&& -POS_LIMIT - COORD_SCALE <= born@[j].pos.y <= POS_LIMIT + COORD_SCALE
            },
        decreases n - i,
    {
        let ghost pre = spec_expl_phase(old(es)@.take(i as int), xs@);
        let e = es[i];
        proof {
            assert(e == old(es)@[i as int]);
        }
        let mut hit_any = false;
        if e.state == State::Existing {
            let mut local: Vec<Explosion> = Vec::new();
            let mut ldelta: u64 = 0;
            let mut j: usize = 0;
            while j < xn
                invariant
                    crate::model::explosions_ok(xs@),
                    crate::model::chains_ok(xs@, k@),
                    k@ <= SCHEDULE_CAP,
                    xn == xs@.len(),
                    0 <= j <= xn,
                    -POS_LIMIT - COORD_SCALE <= e.pos.x <= POS_LIMIT + COORD_SCALE,
                    -POS_LIMIT - COORD_SCALE <= e.pos.y <= POS_LIMIT + COORD_SCALE,
                    ({
                        let hx = spec_expl_hits(e, xs@.take(j as int));
                        &&& local@ == hx.born
                        &&& ldelta as int == sat64(hx.delta)
                        &&& hx.delta >= 0
                    }),
                    forall|t: int| 0 <= t < local@.len() ==> {
                        &&& (#[trigger] local@[t]).radius == 0
                        &&& 1 <= local@[t].chain <= k@ + 1
                        &&& local@[t].pos == e.pos
                    },
                decreases xn - j,
            {
                let x = xs[j];
                proof {
                    assert(x == xs@[j as int]);
                    assert(xs@.take(j + 1).drop_last() =~= xs@.take(j as int));
                    assert(xs@.take(j + 1).last() == x);
                }
                if overlap(e.pos, PLAYER_RADIUS, x.pos, x.radius) {
                    local.push(Explosion { pos: e.pos, radius: 0, chain: x.chain + 1 });
                    let award = KILLING_POINT * (x.chain + 1);
                    ldelta = sat_add_u64(ldelta, award);
                }
                j += 1;
            }
            proof {
                assert(xs@.take(xn as int) =~= xs@);
            }
            if local.len() > 0 {
                hit_any = true;
                es.set(i, Enemy { state: State::Nil, ..e });
                let ghost hx = spec_expl_hits(e, xs@);
                born.append(&mut local);
                acc = sat_add_u64(acc, ldelta);
                proof {
                    assert(acc as int == sat64(pre.delta + hx.delta));
                }
            }
        }
        proof {
            broadcast use vstd::prelude::Seq::lemma_filter_push;
            assert(old(es)@.take(i + 1).drop_last() =~= old(es)@.take(i as int));
            assert(old(es)@.take(i + 1).last() == old(es)@[i as int]);
            let m2 = spec_expl_phase(old(es)@.take(i + 1), xs@);
            let hx = spec_expl_hits(e, xs@);
            if e.state == State::Existing && hx.born.len() > 0 {
                assert(m2.enemies == pre.enemies.push(Enemy { state: State::Nil, ..e }));
                assert(born@ == pre.born + hx.born);
            } else {
                assert(m2.enemies == pre.enemies.push(e));
            }
            reveal(Seq::filter);
        }
        i += 1;
    }
    proof {
        assert(old(es)@.take(n as int) =~= old(es)@);
        assert(es@ =~= spec_expl_phase(old(es)@, xs@).enemies);
    }
    (born, acc)
}

/// The enemy-vs-bullet sweep: a surviving enemy dies to its first
/// overlapping bullet; that bullet dies too.
pub(crate) fn bullet_sweep(es: &mut Vec<Enemy>, bs: &mut Vec<Bullet>) -> (r: (
    Vec<Explosion>,
    u64,
))
    requires
        forall|i: int| 0 <= i < old(es)@.len() ==> {
            &&& -POS_LIMIT - COORD_SCALE <= (#[trigger] old(es)@[i]).pos.x
                <= POS_LIMIT + COORD_SCALE
            &&& -POS_LIMIT - COORD_SCALE <= old(es)@[i].pos.y <= POS_LIMIT + COORD_SCALE
        },
        forall|i: int| 0 <= i < old(bs)@.len() ==> {
            &&& -POS_LIMIT - PLAYER_RADIUS - BULLET_SPEED
                <= (#[trigger] old(bs)@[i]).pos.x <= POS_LIMIT + PLAYER_RADIUS + BULLET_SPEED
            &&& -POS_LIMIT - PLAYER_RADIUS - BULLET_SPEED
                <= old(bs)@[i].pos.y <= POS_LIMIT + PLAYER_RADIUS + BULLET_SPEED
        },
    ensures
        ({
            let m = spec_bullet_phase(old(es)@, old(bs)@);
            &&& final(es)@ == m.enemies
            &&& final(es)@.len() == old(es)@.len()
            &&& (forall|j: int| 0 <= j < old(es)@.len() ==> {
                &&& (#[trigger] final(es)@[j]).pos == old(es)@[j].pos
                &&& final(es)@[j].vector == old(es)@[j].vector
            })
            &&& final(bs)@ == m.bullets
            &&& r.0@ == m.born
            &&& r.1 as int == sat64(m.delta)
            &&& m.delta >= 0
            &&& (r.0@.len() > 0 ==> m.kills >= 1)
            &&& count_existing(m.enemies) + m.kills == count_existing(old(es)@)
            &&& forall|i: int| 0 <= i < r.0@.len() ==> {
                &&& (#[trigger] r.0@[i]).radius == 0
                &&& r.0@[i].chain == 1
                &&& -POS_LIMIT - COORD_SCALE <= r.0@[i].pos.x <= POS_LIMIT + COORD_SCALE
                &&& -POS_LIMIT - COORD_SCALE <= r.0@[i].pos.y <= POS_LIMIT + COORD_SCALE
            }
            &&& final(bs)@.len() == old(bs)@.len()
            &&& forall|j: int| 0 <= j < old(bs)@.len() ==> {
                &&& (#[trigger] final(bs)@[j]).pos == old(bs)@[j].pos
                &&& final(bs)@[j].vector == old(bs)@[j].vector
            }
        }),
{
    let n = es.len();
    let bn = bs.len();
    let mut born: Vec<Explosion> = Vec::new();
    let mut acc: u64 = 0;
    let mut i: usize = 0;
    while i < n
        invariant
            forall|j: int| 0 <= j < old(es)@.len() ==> {
                &&& -POS_LIMIT - COORD_SCALE <= (#[trigger] old(es)@[j]).pos.x
                    <= POS_LIMIT + COORD_SCALE
                &&& -POS_LIMIT - COORD_SCALE <= old(es)@[j].pos.y <= POS_LIMIT + COORD_SCALE
            },
            forall|j: int| 0 <= j < old(bs)@.len() ==> {
                &&& -POS_LIMIT - PLAYER_RADIUS - BULLET_SPEED
                    <= (#[trigger] old(bs)@[j]).pos.x
                    <= POS_LIMIT + PLAYER_RADIUS + BULLET_SPEED
                &&& -POS_LIMIT - PLAYER_RADIUS - BULLET_SPEED
                    <= old(bs)@[j].pos.y <= POS_LIMIT + PLAYER_RADIUS + BULLET_SPEED
            },
            n == old(es)@.len(),
            es@.len() == n,
            bn == old(bs)@.len(),
            bs@.len() == bn,
            0 <= i <= n,
            forall|j: int| i <= j < n ==> es@[j] == old(es)@[j],
            forall|j: int| 0 <= j < bn ==> {
                &&& (#[trigger] bs@[j]).pos == old(bs)@[j].pos
                &&& bs@[j].vector == old(bs)@[j].vector
            },
            ({
                let m = spec_bullet_phase(old(es)@.take(i as int), old(bs)@);
                &&& m.enemies.len() == i
                &&& forall|j: int| 0 <= j < i ==> es@[j] == m.enemies[j]
                &&& (forall|j: int| 0 <= j < i ==> {
                    &&& (#[trigger] es@[j]).pos == old(es)@[j].pos
                    &&& es@[j].vector == old(es)@[j].vector
                })
                &&& bs@ == m.bullets
                &&& born@ == m.born
                &&& acc as int == sat64(m.delta)
                &&& m.delta >= 0
                &&& (born@.len() > 0 ==> m.kills >= 1)
                &&& count_existing(m.enemies) + m.kills
                    == count_existing(old(es)@.take(i as int))
            }),
            forall|j: int| 0 <= j < born@.len() ==> {
                &&& (#[trigger] born@[j]).radius == 0
                &&& born@[j].chain == 1
                &&& -POS_LIMIT - COORD_SCALE <= born@[j].pos.x <= POS_LIMIT + COORD_SCALE
                &&& -POS_LIMIT - COORD_SCALE <= born@[j].pos.y <= POS_LIMIT + COORD_SCALE
            },
        decreases n - i,
    {
        let ghost pre = spec_bullet_phase(old(es)@.take(i as int), old(bs)@);
        let e = es[i];
        proof {
            assert(e == old(es)@[i as int]);
        }
        if e.state == State::Existing {
            let mut hit: Option<usize> = None;
            let mut j: usize = 0;
            while j < bn && hit.is_none()
                invariant
                    bn == old(bs)@.len(),
                    bs@.len() == bn,
                    0 <= j <= bn,
                    -POS_LIMIT - COORD_SCALE <= e.pos.x <= POS_LIMIT + COORD_SCALE,
                    -POS_LIMIT - COORD_SCALE <= e.pos.y <= POS_LIMIT + COORD_SCALE,
                    forall|t: int| 0 <= t < bn ==> {
                        &&& (#[trigger] bs@[t]).pos == old(bs)@[t].pos
                        &&& -POS_LIMIT - PLAYER_RADIUS - BULLET_SPEED
                            <= old(bs)@[t].pos.x <= POS_LIMIT + PLAYER_RADIUS + BULLET_SPEED
                        &&& -POS_LIMIT - PLAYER_RADIUS - BULLET_SPEED
                            <= old(bs)@[t].pos.y <= POS_LIMIT + PLAYER_RADIUS + BULLET_SPEED
                    },
                    match hit {
                        None => spec_first_bullet_hit(e, old(bs)@, 0)
                            == spec_first_bullet_hit(e, old(bs)@, j as int),
                        Some(jj) => jj < bn
                            && spec_first_bullet_hit(e, old(bs)@, 0) == Some(jj as int),
                    },
                decreases bn - j + (if hit.is_none() { 1int } else { 0int }),
            {
                if overlap(e.pos, PLAYER_RADIUS, bs[j].pos, BULLET_RADIUS) {
                    hit = Some(j);
                } else {
                    j += 1;
                }
            }
            match hit {
                Some(jj) => {
                    let bj = bs[jj];
                    bs.set(jj, Bullet { state: State::Nil, ..bj });
                    es.set(i, Enemy { state: State::Nil, ..e });
                    born.push(Explosion { pos: e.pos, radius: 0, chain: 1 });
                    acc = sat_add_u64(acc, KILLING_POINT);
                },
                None => {},
            }
        }
        proof {
            broadcast use vstd::prelude::Seq::lemma_filter_push;
            assert(old(es)@.take(i + 1).drop_last() =~= old(es)@.take(i as int));
            assert(old(es)@.take(i + 1).last() == old(es)@[i as int]);
            reveal(Seq::filter);
            let m2 = spec_bullet_phase(old(es)@.take(i + 1), old(bs)@);
            if e.state == State::Existing {
                match spec_first_bullet_hit(e, old(bs)@, 0) {
                    Some(jj) => {
                        assert(bs@ =~= m2.bullets);
                    },
                    None => {},
                }
            }
        }
        i += 1;
    }
    proof {
        assert(old(es)@.take(n as int) =~= old(es)@);
        assert(es@ =~= spec_bullet_phase(old(es)@, old(bs)@).enemies);
    }
    (born, acc)
}

/// Step 4: every live explosion grows by the fixed increment.
pub(crate) fn expand_explosions(xs: &mut Vec<Explosion>)
    requires
        forall|i: int| 0 <= i < old(xs)@.len()
            ==> 0 <= (#[trigger] old(xs)@[i]).radius <= MAXIMUM_EXPLODE_RADIUS,
    ensures
        final(xs)@ == spec_expand(old(xs)@),
{
    let n = xs.len();
    let mut i: usize = 0;
    while i < n
        invariant
            forall|j: int| 0 <= j < old(xs)@.len()
                ==> 0 <= (#[trigger] old(xs)@[j]).radius <= MAXIMUM_EXPLODE_RADIUS,
            n == old(xs)@.len(),
            xs@.len() == n,
            0 <= i <= n,
            forall|j: int| 0 <= j < i ==> xs@[j] == spec_expand(old(xs)@)[j],
            forall|j: int| i <= j < n ==> xs@[j] == old(xs)@[j],
        decreases n - i,
    {
        let x = xs[i];
        xs.set(i, Explosion { radius: x.radius + EXPLODE_STEP, ..x });
        i += 1;
    }
    proof {
        assert(xs@ =~= spec_expand(old(xs)@));
    }
}

/// Step 5 for the enemies: clamp every hitbox back onto the field.
pub(crate) fn extrude_enemies(es: &mut Vec<Enemy>, w: i64, h: i64)
    requires
        forall|i: int| 0 <= i < old(es)@.len() ==> {
            &&& -POS_LIMIT - COORD_SCALE <= (#[trigger] old(es)@[i]).pos.x
                <= POS_LIMIT + COORD_SCALE
            &&& -POS_LIMIT - COORD_SCALE <= old(es)@[i].pos.y <= POS_LIMIT + COORD_SCALE
        },
        2 * PLAYER_RADIUS <= w <= DIM_LIMIT,
        2 * PLAYER_RADIUS <= h <= DIM_LIMIT,
    ensures
        final(es)@ == spec_extrude_enemies(old(es)@, w as int, h as int),
        count_existing(final(es)@) == count_existing(old(es)@),
{
    let n = es.len();
    let mut i: usize = 0;
    while i < n
        invariant
            forall|j: int| 0 <= j < old(es)@.len() ==> {
                &&& -POS_LIMIT - COORD_SCALE <= (#[trigger] old(es)@[j]).pos.x
                    <= POS_LIMIT + COORD_SCALE
                &&& -POS_LIMIT - COORD_SCALE <= old(es)@[j].pos.y <= POS_LIMIT + COORD_SCALE
            },
            2 * PLAYER_RADIUS <= w <= DIM_LIMIT,
            2 * PLAYER_RADIUS <= h <= DIM_LIMIT,
            n == old(es)@.len(),
            es@.len() == n,
            0 <= i <= n,
            forall|j: int| 0 <= j < i
                ==> es@[j] == spec_extrude_enemies(old(es)@, w as int, h as int)[j],
            forall|j: int| i <= j < n ==> es@[j] == old(es)@[j],
        decreases n - i,
    {
        let e = es[i];
        let pos = extrude(e.pos, w, h);
        es.set(i, Enemy { pos, ..e });
        i += 1;
    }
    proof {
        assert(es@ =~= spec_extrude_enemies(old(es)@, w as int, h as int));
        crate::model::lemma_count_extrude(old(es)@, w as int, h as int);
    }
}

/// Step 6 for the bullets: keep those alive whose hitbox still touches
/// the field; only fully off-field bullets are dropped.
pub(crate) fn cull_bullets(bs: &Vec<Bullet>, w: i64, h: i64) -> (r: Vec<Bullet>)
    requires
        forall|i: int| 0 <= i < bs@.len() ==> {
            &&& -POS_LIMIT - PLAYER_RADIUS - BULLET_SPEED
                <= (#[trigger] bs@[i]).pos.x <= POS_LIMIT + PLAYER_RADIUS + BULLET_SPEED
            &&& -POS_LIMIT - PLAYER_RADIUS - BULLET_SPEED
                <= bs@[i].pos.y <= POS_LIMIT + PLAYER_RADIUS + BULLET_SPEED
            &&& -BULLET_SPEED <= bs@[i].vector.x <= BULLET_SPEED
            &&& -BULLET_SPEED <= bs@[i].vector.y <= BULLET_SPEED
        },
        2 * PLAYER_RADIUS <= w <= DIM_LIMIT,
        2 * PLAYER_RADIUS <= h <= DIM_LIMIT,
    ensures
        r@ == spec_cull_bullets(bs@, w as int, h as int),
        crate::model::bullets_ok(r@),
{
    let n = bs.len();
    let mut r: Vec<Bullet> = Vec::new();
    let mut i: usize = 0;
    proof {
        reveal(Seq::filter);
        assert(bs@.take(0int) =~= Seq::<Bullet>::empty());
    }
    while i < n
        invariant
            forall|j: int| 0 <= j < bs@.len() ==> {
                &&& -POS_LIMIT - PLAYER_RADIUS - BULLET_SPEED
                    <= (#[trigger] bs@[j]).pos.x <= POS_LIMIT + PLAYER_RADIUS + BULLET_SPEED
                &&& -POS_LIMIT - PLAYER_RADIUS - BULLET_SPEED
                    <= bs@[j].pos.y <= POS_LIMIT + PLAYER_RADIUS + BULLET_SPEED
                &&& -BULLET_SPEED <= bs@[j].vector.x <= BULLET_SPEED
                &&& -BULLET_SPEED <= bs@[j].vector.y <= BULLET_SPEED
            },
            2 * PLAYER_RADIUS <= w <= DIM_LIMIT,
            2 * PLAYER_RADIUS <= h <= DIM_LIMIT,
            n == bs@.len(),
            0 <= i <= n,
            r@ == spec_cull_bullets(bs@.take(i as int), w as int, h as int),
            crate::model::bullets_ok(r@),
        decreases n - i,
    {
        let b = bs[i];
        proof {
            broadcast use vstd::prelude::Seq::lemma_filter_push;
            assert(bs@.take(i + 1) =~= bs@.take(i as int).push(bs@[i as int]));
        }
        if b.state == State::Existing && 0 <= b.pos.x + BULLET_RADIUS
            && b.pos.x - BULLET_RADIUS <= w && 0 <= b.pos.y + BULLET_RADIUS
            && b.pos.y - BULLET_RADIUS <= h {
            r.push(b);
        }
        i += 1;
    }
    proof {
        assert(bs@.take(n as int) =~= bs@);
    }
    r
}

/// Step 6 for the enemies: keep the live ones.
pub(crate) fn cull_enemies(es: &Vec<Enemy>) -> (r: Vec<Enemy>)
    requires
        forall|i: int| 0 <= i < es@.len() ==> {
            &&& -POS_LIMIT <= (#[trigger] es@[i]).pos.x <= POS_LIMIT
            &&& -POS_LIMIT <= es@[i].pos.y <= POS_LIMIT
            &&& -COORD_SCALE <= es@[i].vector.x <= COORD_SCALE
            &&& -COORD_SCALE <= es@[i].vector.y <= COORD_SCALE
        },
    ensures
        r@ == spec_cull_enemies(es@),
        r@.len() == count_existing(es@),
        crate::model::enemies_ok(r@),
{
    let n = es.len();
    let mut r: Vec<Enemy> = Vec::new();
    let mut i: usize = 0;
    proof {
        reveal(Seq::filter);
        assert(es@.take(0int) =~= Seq::<Enemy>::empty());
    }
    while i < n
        invariant
            forall|j: int| 0 <= j < es@.len() ==> {
                &&& -POS_LIMIT <= (#[trigger] es@[j]).pos.x <= POS_LIMIT
                &&& -POS_LIMIT <= es@[j].pos.y <= POS_LIMIT
                &&& -COORD_SCALE <= es@[j].vector.x <= COORD_SCALE
                &&& -COORD_SCALE <= es@[j].vector.y <= COORD_SCALE
            },
            n == es@.len(),
            0 <= i <= n,
            r@ == spec_cull_enemies(es@.take(i as int)),
            crate::model::enemies_ok(r@),
        decreases n - i,
    {
        let e = es[i];
        proof {
            broadcast use vstd::prelude::Seq::lemma_filter_push;
            assert(es@.take(i + 1) =~= es@.take(i as int).push(es@[i as int]));
        }
        if e.state == State::Existing {
            r.push(e);
        }
        i += 1;
    }
    proof {
        assert(es@.take(n as int) =~= es@);
    }
    r
}

/// Step 6 for the explosions: keep those at or under the radius cap.
pub(crate) fn cull_explosions(xs: &Vec<Explosion>, k: Ghost<nat>) -> (r: Vec<Explosion>)
    requires
        forall|i: int| 0 <= i < xs@.len() ==> {
            &&& -POS_LIMIT - COORD_SCALE <= (#[trigger] xs@[i]).pos.x <= POS_LIMIT + COORD_SCALE
            &&& -POS_LIMIT - COORD_SCALE <= xs@[i].pos.y <= POS_LIMIT + COORD_SCALE
            &&& 0 <= xs@[i].radius
            &&& 1 <= xs@[i].chain <= k@
        },
    ensures
        r@ == spec_cull_explosions(xs@),
        crate::model::explosions_ok(r@),
        crate::model::chains_ok(r@, k@),
{
    let n = xs.len();
    let mut r: Vec<Explosion> = Vec::new();
    let mut i: usize = 0;
    proof {
        reveal(Seq::filter);
        assert(xs@.take(0int) =~= Seq::<Explosion>::empty());
    }
    while i < n
        invariant
            forall|j: int| 0 <= j < xs@.len() ==> {
                &&& -POS_LIMIT - COORD_SCALE <= (#[trigger] xs@[j]).pos.x
                    <= POS_LIMIT + COORD_SCALE
                &&& -POS_LIMIT - COORD_SCALE <= xs@[j].pos.y <= POS_LIMIT + COORD_SCALE
                &&& 0 <= xs@[j].radius
                &&& 1 <= xs@[j].chain <= k@
            },
            n == xs@.len(),
            0 <= i <= n,
            r@ == spec_cull_explosions(xs@.take(i as int)),
            crate::model::explosions_ok(r@),
            crate::model::chains_ok(r@, k@),
        decreases n - i,
    {
        let x = xs[i];
        proof {
            broadcast use vstd::prelude::Seq::lemma_filter_push;
            assert(xs@.take(i + 1) =~= xs@.take(i as int).push(xs@[i as int]));
        }
        if x.radius <= MAXIMUM_EXPLODE_RADIUS {
            r.push(x);
        }
        i += 1;
    }
    proof {
        assert(xs@.take(n as int) =~= xs@);
    }
    r
}

/// Step 8: re-aim every enemy at the player.
pub(crate) fn reaim_enemies(es: &mut Vec<Enemy>, ppos: Position)
    requires
        forall|i: int| 0 <= i < old(es)@.len() ==> {
            &&& -POS_LIMIT <= (#[trigger] old(es)@[i]).pos.x <= POS_LIMIT
            &&& -POS_LIMIT <= old(es)@[i].pos.y <= POS_LIMIT
        },
        -POS_LIMIT <= ppos.x <= POS_LIMIT,
        -POS_LIMIT <= ppos.y <= POS_LIMIT,
    ensures
        final(es)@ == spec_reaim(old(es)@, ppos),
        forall|j: int| 0 <= j < final(es)@.len() ==> {
            &&& (#[trigger] final(es)@[j]).pos == old(es)@[j].pos
            &&& final(es)@[j].state == old(es)@[j].state
            &&& -COORD_SCALE <= final(es)@[j].vector.x <= COORD_SCALE
            &&& -COORD_SCALE <= final(es)@[j].vector.y <= COORD_SCALE
        },
{
    let n = es.len();
    let mut i: usize = 0;
    while i < n
        invariant
            forall|j: int| 0 <= j < old(es)@.len() ==> {
                &&& -POS_LIMIT <= (#[trigger] old(es)@[j]).pos.x <= POS_LIMIT
                &&& -POS_LIMIT <= old(es)@[j].pos.y <= POS_LIMIT
            },
            -POS_LIMIT <= ppos.x <= POS_LIMIT,
            -POS_LIMIT <= ppos.y <= POS_LIMIT,
            n == old(es)@.len(),
            es@.len() == n,
            0 <= i <= n,
            forall|j: int| 0 <= j < i ==> es@[j] == spec_reaim(old(es)@, ppos)[j],
            forall|j: int| 0 <= j < i ==> {
                &&& (#[trigger] es@[j]).pos == old(es)@[j].pos
                &&& es@[j].state == old(es)@[j].state
                &&& -COORD_SCALE <= es@[j].vector.x <= COORD_SCALE
                &&& -COORD_SCALE <= es@[j].vector.y <= COORD_SCALE
            },
            forall|j: int| i <= j < n ==> es@[j] == old(es)@[j],
        decreases n - i,
    {
        let e = es[i];
        let v = aim_step(e.pos, ppos);
        es.set(i, Enemy { vector: v, ..e });
        i += 1;
    }
    proof {
        assert(es@ =~= spec_reaim(old(es)@, ppos));
    }
}

/// One coordinate of a spawn: `raw * dim / PLAYER_RADIUS`, toward zero.
fn scale_component(raw: i64, dim: i64) -> (r: i64)
    requires
        -RAW_LIMIT <= raw <= RAW_LIMIT,
        0 < dim <= DIM_LIMIT,
    ensures
        r as int == div_trunc(raw * dim, PLAYER_RADIUS as int),
        -1_000_000_000 <= r <= 1_000_000_000,
{
    let a = if raw >= 0 { raw } else { -raw };
    proof {
        assert(0 <= a * dim <= 20_000_000_000_000int) by (nonlinear_arith)
            requires 0 <= a <= RAW_LIMIT && 0 < dim <= DIM_LIMIT;
        assert(raw < 0 ==> raw * dim == -(a * dim)) by (nonlinear_arith)
            requires raw < 0 ==> a == -raw;
        assert(raw >= 0 ==> raw * dim == a * dim);
    }
    let q = (a * dim) / PLAYER_RADIUS;
    proof {
        vstd::arithmetic::div_mod::lemma_div_pos_is_pos(a * dim, PLAYER_RADIUS as int);
        vstd::arithmetic::div_mod::lemma_div_is_ordered(
            a * dim,
            20_000_000_000_000int,
            PLAYER_RADIUS as int,
        );
        assert(20_000_000_000_000int / (PLAYER_RADIUS as int) == 1_000_000_000int);
    }
    if raw >= 0 {
        q
    } else {
        -q
    }
}

/// Consumes one schedule entry: the enemy appears at its rescaled
/// position, unless that would overlap the player (then it is dropped).
pub(crate) fn spawn_at(
    es: &mut Vec<Enemy>,
    loc: AppearLocation,
    ppos: Position,
    w: i64,
    h: i64,
)
    requires
        spec_entry_ok(loc),
        0 < w <= DIM_LIMIT,
        0 < h <= DIM_LIMIT,
        -POS_LIMIT <= ppos.x <= POS_LIMIT,
        -POS_LIMIT <= ppos.y <= POS_LIMIT,
    ensures
        final(es)@ == old(es)@ + spec_spawned_at(loc, ppos, w as int, h as int),
        final(es)@.len() <= old(es)@.len() + 1,
        forall|j: int| old(es)@.len() <= j < final(es)@.len() ==> {
            let e = #[trigger] final(es)@[j];
            &&& -1_000_000_000 <= e.pos.x <= 1_000_000_000
            &&& -1_000_000_000 <= e.pos.y <= 1_000_000_000
            &&& e.vector == (crate::object::Vector { x: 0i64, y: 0i64 })
            &&& e.state == State::Existing
        },
{
    let pos = spawn_position(loc.pos, w, h);
    let dx = if ppos.x >= pos.x { ppos.x - pos.x } else { pos.x - ppos.x };
    let dy = if ppos.y >= pos.y { ppos.y - pos.y } else { pos.y - ppos.y };
    if dx < PLAYER_RADIUS && dy < PLAYER_RADIUS {
        proof {
            assert(es@ =~= old(es)@ + spec_spawned_at(loc, ppos, w as int, h as int));
        }
    } else {
        es.push(Enemy {
            pos,
            vector: crate::object::Vector { x: 0, y: 0 },
            state: State::Existing,
        });
        proof {
            assert(es@ =~= old(es)@ + spec_spawned_at(loc, ppos, w as int, h as int));
        }
    }
}

/// Where a raw schedule position lands on the field, sub-units.
pub(crate) fn spawn_position(raw: Position, w: i64, h: i64) -> (r: Position)
    requires
        -RAW_LIMIT <= raw.x <= RAW_LIMIT,
        -RAW_LIMIT <= raw.y <= RAW_LIMIT,
        0 < w <= DIM_LIMIT,
        0 < h <= DIM_LIMIT,
    ensures
        r == spec_spawn_pos(raw, w as int, h as int),
        -1_000_000_000 <= r.x <= 1_000_000_000,
        -1_000_000_000 <= r.y <= 1_000_000_000,
{
    Position { x: scale_component(raw.x, w), y: scale_component(raw.y, h) }
}

} // verus!
