//! The engine's headline guarantees, stated and proved over the tick model.

use vstd::prelude::*;
use crate::object::{
    Bullet, Enemy, Explosion, State, BULLET_RADIUS, EXPLODE_STEP, KILLING_POINT,
    MAXIMUM_EXPLODE_RADIUS, PLAYER_RADIUS,
};
use crate::geometry::spec_overlap;
use crate::model::{
    spec_bullet_phase, spec_child, spec_cull_explosions, spec_expand, spec_expl_hits,
    spec_expl_phase, spec_first_bullet_hit,
};

verus! {

/// The chain counters of a list of explosions, summed.
pub open spec fn sum_chains(xs: Seq<Explosion>) -> int
    decreases xs.len(),
{
    if xs.len() == 0 {
        0
    } else {
        sum_chains(xs.drop_last()) + xs.last().chain
    }
}

proof fn lemma_sum_chains_add(a: Seq<Explosion>, b: Seq<Explosion>)
    ensures
        sum_chains(a + b) == sum_chains(a) + sum_chains(b),
    decreases b.len(),
{
    if b.len() == 0 {
        assert(a + b =~= a);
    } else {
        lemma_sum_chains_add(a, b.drop_last());
        assert((a + b).drop_last() =~= a + b.drop_last());
        assert((a + b).last() == b.last());
    }
}

/// An enemy overlapping live explosions yields exactly one new explosion
/// per overlapping source — at the enemy's position, radius zero, chain
/// one past the source's — and the award is `KILLING_POINT` times each new
/// chain.
pub proof fn lemma_explosion_children(e: Enemy, xs: Seq<Explosion>)
    requires
        forall|i: int| 0 <= i < xs.len() ==> (#[trigger] xs[i]).chain < u64::MAX,
    ensures
        spec_expl_hits(e, xs).born == xs.filter(
            |x: Explosion| spec_overlap(e.pos, PLAYER_RADIUS as int, x.pos, x.radius as int),
        ).map_values(|x: Explosion| spec_child(e, x)),
        spec_expl_hits(e, xs).delta == KILLING_POINT * sum_chains(spec_expl_hits(e, xs).born),
    decreases xs.len(),
{
    broadcast use vstd::prelude::Seq::lemma_filter_push;
    reveal(Seq::filter);
    let pred = |x: Explosion| spec_overlap(e.pos, PLAYER_RADIUS as int, x.pos, x.radius as int);
    let mk = |x: Explosion| spec_child(e, x);
    if xs.len() == 0 {
        assert(xs.filter(pred).map_values(mk) =~= Seq::<Explosion>::empty());
    } else {
        lemma_explosion_children(e, xs.drop_last());
        let prev = spec_expl_hits(e, xs.drop_last());
        let x = xs.last();
        assert(xs =~= xs.drop_last().push(x));
        if pred(x) {
            assert(xs.filter(pred) == xs.drop_last().filter(pred).push(x));
            assert(xs.filter(pred).map_values(mk) =~= xs.drop_last().filter(pred).map_values(
                mk,
            ).push(mk(x)));
            assert(spec_expl_hits(e, xs).born =~= prev.born.push(spec_child(e, x)));
            assert(spec_expl_hits(e, xs).born.drop_last() =~= prev.born);
            assert(sum_chains(spec_expl_hits(e, xs).born) == sum_chains(prev.born)
                + spec_child(e, x).chain);
        } else {
            assert(xs.filter(pred) == xs.drop_last().filter(pred));
        }
    }
}

/// In the explosion sweep, exactly the live enemies that overlap at least
/// one explosion are marked dead; every other enemy comes through as it
/// went in, position and velocity always untouched.
pub proof fn lemma_explosion_sweep_enemy(es: Seq<Enemy>, xs: Seq<Explosion>, i: int)
    requires
        0 <= i < es.len(),
    ensures
        spec_expl_phase(es, xs).enemies.len() == es.len(),
        spec_expl_phase(es, xs).enemies[i] == (if es[i].state == State::Existing
            && spec_expl_hits(es[i], xs).born.len() > 0 {
            Enemy { state: State::Nil, ..es[i] }
        } else {
            es[i]
        }),
    decreases es.len(),
{
    if i < es.len() - 1 {
        lemma_explosion_sweep_enemy(es.drop_last(), xs, i);
    } else if es.len() > 1 {
        lemma_explosion_sweep_enemy(es.drop_last(), xs, 0);
    }
}

/// The whole explosion sweep awards `KILLING_POINT` times the chain of
/// each explosion it gives birth to, and nothing else.
pub proof fn lemma_explosion_sweep_score(es: Seq<Enemy>, xs: Seq<Explosion>)
    requires
        forall|i: int| 0 <= i < xs.len() ==> (#[trigger] xs[i]).chain < u64::MAX,
    ensures
        spec_expl_phase(es, xs).delta == KILLING_POINT * sum_chains(
            spec_expl_phase(es, xs).born,
        ),
    decreases es.len(),
{
    if es.len() > 0 {
        lemma_explosion_sweep_score(es.drop_last(), xs);
        let prev = spec_expl_phase(es.drop_last(), xs);
        let e = es.last();
        let hits = spec_expl_hits(e, xs);
        if e.state == State::Existing && hits.born.len() > 0 {
            lemma_explosion_children(e, xs);
            lemma_sum_chains_add(prev.born, hits.born);
        }
    }
}

/// In the bullet sweep, a surviving enemy that some bullet overlaps is
/// marked dead and a chain-one explosion of radius zero stands at its
/// pre-collision position; enemies without a hit come through unchanged.
pub proof fn lemma_bullet_sweep_enemy(es: Seq<Enemy>, bs: Seq<Bullet>, i: int)
    requires
        0 <= i < es.len(),
    ensures
        spec_bullet_phase(es, bs).enemies.len() == es.len(),
        spec_bullet_phase(es, bs).enemies[i] == (if es[i].state == State::Existing
            && spec_first_bullet_hit(es[i], bs, 0) is Some {
            Enemy { state: State::Nil, ..es[i] }
        } else {
            es[i]
        }),
        es[i].state == State::Existing && spec_first_bullet_hit(es[i], bs, 0) is Some
            ==> spec_bullet_phase(es, bs).born.contains(
            Explosion { pos: es[i].pos, radius: 0, chain: 1 },
        ),
    decreases es.len(),
{
    if i < es.len() - 1 {
        lemma_bullet_sweep_enemy(es.drop_last(), bs, i);
        let prev = spec_bullet_phase(es.drop_last(), bs);
        if es[i].state == State::Existing && spec_first_bullet_hit(es[i], bs, 0) is Some {
            let x = Explosion { pos: es[i].pos, radius: 0, chain: 1 };
            assert(prev.born.contains(x));
            let k = choose|k: int| 0 <= k < prev.born.len() && prev.born[k] == x;
            assert(spec_bullet_phase(es, bs).born[k] == x);
        }
    } else {
        if es.len() > 1 {
            lemma_bullet_sweep_enemy(es.drop_last(), bs, 0);
        }
        let prev = spec_bullet_phase(es.drop_last(), bs);
        let e = es.last();
        if e.state == State::Existing && spec_first_bullet_hit(e, bs, 0) is Some {
            let x = Explosion { pos: e.pos, radius: 0, chain: 1 };
            assert(spec_bullet_phase(es, bs).born.last() == x);
        }
    }
}

/// A bullet kill marks the striking bullet dead too.
pub proof fn lemma_bullet_sweep_bullet(es: Seq<Enemy>, bs: Seq<Bullet>, i: int, j: int)
    requires
        0 <= i < es.len(),
        es[i].state == State::Existing,
        spec_first_bullet_hit(es[i], bs, 0) == Some(j),
    ensures
        0 <= j < bs.len(),
        spec_bullet_phase(es, bs).bullets.len() == bs.len(),
        spec_bullet_phase(es, bs).bullets[j].state == State::Nil,
    decreases es.len(),
{
    lemma_first_hit_in_range(es[i], bs, 0);
    lemma_bullet_phase_bullets_frame(es, bs);
    lemma_bullet_phase_bullets_frame(es.drop_last(), bs);
    let prev = spec_bullet_phase(es.drop_last(), bs);
    let e = es.last();
    if i < es.len() - 1 {
        lemma_bullet_sweep_bullet(es.drop_last(), bs, i, j);
        if e.state == State::Existing && spec_first_bullet_hit(e, bs, 0) is Some {
            let j2 = spec_first_bullet_hit(e, bs, 0).unwrap();
            lemma_first_hit_in_range(e, bs, 0);
            if j2 == j {
                assert(spec_bullet_phase(es, bs).bullets[j].state == State::Nil);
            } else {
                assert(spec_bullet_phase(es, bs).bullets[j] == prev.bullets[j]);
            }
        }
    } else {
        assert(spec_bullet_phase(es, bs).bullets == prev.bullets.update(
            j,
            Bullet { state: State::Nil, ..prev.bullets[j] },
        ));
    }
}

proof fn lemma_first_hit_in_range(e: Enemy, bs: Seq<Bullet>, k: int)
    requires
        0 <= k,
        spec_first_bullet_hit(e, bs, k) is Some,
    ensures
        k <= spec_first_bullet_hit(e, bs, k).unwrap() < bs.len(),
    decreases bs.len() - k,
{
    if k < bs.len() && !spec_overlap(
        e.pos,
        PLAYER_RADIUS as int,
        bs[k].pos,
        BULLET_RADIUS as int,
    ) {
        lemma_first_hit_in_range(e, bs, k + 1);
    }
}

/// The bullet sweep only ever writes `Nil` into bullet states and keeps
/// everything else about every bullet.
proof fn lemma_bullet_phase_bullets_frame(es: Seq<Enemy>, bs: Seq<Bullet>)
    ensures
        spec_bullet_phase(es, bs).bullets.len() == bs.len(),
        forall|k: int| 0 <= k < bs.len() ==> {
            let out = #[trigger] spec_bullet_phase(es, bs).bullets[k];
            out.pos == bs[k].pos && out.vector == bs[k].vector && (out.state == bs[k].state
                || out.state == State::Nil)
        },
    decreases es.len(),
{
    if es.len() > 0 {
        lemma_bullet_phase_bullets_frame(es.drop_last(), bs);
        let prev = spec_bullet_phase(es.drop_last(), bs);
        let e = es.last();
        if e.state == State::Existing && spec_first_bullet_hit(e, bs, 0) is Some {
            let j2 = spec_first_bullet_hit(e, bs, 0).unwrap();
            lemma_first_hit_in_range(e, bs, 0);
            assert forall|k: int| 0 <= k < bs.len() implies {
                let out = #[trigger] spec_bullet_phase(es, bs).bullets[k];
                out.pos == bs[k].pos && out.vector == bs[k].vector && (out.state
                    == bs[k].state || out.state == State::Nil)
            } by {
                if k != j2 {
                    assert(spec_bullet_phase(es, bs).bullets[k] == prev.bullets[k]);
                }
            }
        }
    }
}

/// The bullet sweep awards exactly `KILLING_POINT` per kill, and each kill
/// bears exactly one chain-one explosion.
pub proof fn lemma_bullet_sweep_score(es: Seq<Enemy>, bs: Seq<Bullet>)
    ensures
        spec_bullet_phase(es, bs).delta == KILLING_POINT * spec_bullet_phase(es, bs).kills,
        spec_bullet_phase(es, bs).born.len() == spec_bullet_phase(es, bs).kills,
        forall|k: int| 0 <= k < spec_bullet_phase(es, bs).born.len() ==> {
            let x = #[trigger] spec_bullet_phase(es, bs).born[k];
            x.chain == 1 && x.radius == 0
        },
    decreases es.len(),
{
    if es.len() > 0 {
        lemma_bullet_sweep_score(es.drop_last(), bs);
    }
}

/// Every surviving explosion grows by exactly the fixed increment each
/// tick — strictly, never shrinking.
pub proof fn lemma_explosion_growth(xs: Seq<Explosion>, i: int)
    requires
        0 <= i < xs.len(),
        xs[i].radius + EXPLODE_STEP <= i64::MAX,
    ensures
        spec_expand(xs).len() == xs.len(),
        spec_expand(xs)[i].radius == xs[i].radius + EXPLODE_STEP,
        spec_expand(xs)[i].radius > xs[i].radius,
        spec_expand(xs)[i].pos == xs[i].pos,
        spec_expand(xs)[i].chain == xs[i].chain,
{
}

/// A list of chain-one explosions sums its chains to its length.
proof fn lemma_sum_chains_ones(xs: Seq<Explosion>)
    requires
        forall|k: int| 0 <= k < xs.len() ==> (#[trigger] xs[k]).chain == 1,
    ensures
        sum_chains(xs) == xs.len(),
    decreases xs.len(),
{
    if xs.len() > 0 {
        lemma_sum_chains_ones(xs.drop_last());
    }
}

/// Score accounting for one tick's collision rules: the two sweeps
/// together award exactly `KILLING_POINT` times the chain counter of every
/// explosion they give birth to, and nothing else.
pub proof fn lemma_tick_award(es: Seq<Enemy>, xs: Seq<Explosion>, bs: Seq<Bullet>)
    requires
        forall|i: int| 0 <= i < xs.len() ==> (#[trigger] xs[i]).chain < u64::MAX,
    ensures
        ({
            let ep = spec_expl_phase(es, xs);
            let bp = spec_bullet_phase(ep.enemies, bs);
            ep.delta + bp.delta == KILLING_POINT * sum_chains(ep.born + bp.born)
        }),
{
    let ep = spec_expl_phase(es, xs);
    let bp = spec_bullet_phase(ep.enemies, bs);
    lemma_explosion_sweep_score(es, xs);
    lemma_bullet_sweep_score(ep.enemies, bs);
    lemma_sum_chains_ones(bp.born);
    lemma_sum_chains_add(ep.born, bp.born);
}

/// Culling keeps only live enemies, so an enemy marked dead by a collision
/// rule is gone by the end of its tick.
pub proof fn lemma_enemy_culling(es: Seq<Enemy>)
    ensures
        forall|k: int| 0 <= k < crate::model::spec_cull_enemies(es).len()
            ==> (#[trigger] crate::model::spec_cull_enemies(es)[k]).state == State::Existing,
{
    assert forall|k: int| 0 <= k < crate::model::spec_cull_enemies(es).len() implies (
    #[trigger] crate::model::spec_cull_enemies(es)[k]).state == State::Existing by {
        es.lemma_filter_pred(|e: Enemy| e.state == State::Existing, k);
    }
}

/// Culling keeps an explosion exactly while its radius is at or under the
/// cap: one at the cap survives, one past it is dropped.
pub proof fn lemma_explosion_culling(xs: Seq<Explosion>)
    ensures
        forall|k: int| 0 <= k < spec_cull_explosions(xs).len()
            ==> (#[trigger] spec_cull_explosions(xs)[k]).radius <= MAXIMUM_EXPLODE_RADIUS,
        forall|i: int| 0 <= i < xs.len() && (#[trigger] xs[i]).radius
            <= MAXIMUM_EXPLODE_RADIUS ==> spec_cull_explosions(xs).contains(xs[i]),
{
    assert forall|k: int| 0 <= k < spec_cull_explosions(xs).len() implies (
    #[trigger] spec_cull_explosions(xs)[k]).radius <= MAXIMUM_EXPLODE_RADIUS by {
        xs.lemma_filter_pred(|x: Explosion| x.radius <= MAXIMUM_EXPLODE_RADIUS, k);
    }
    assert forall|i: int| 0 <= i < xs.len() && (#[trigger] xs[i]).radius
        <= MAXIMUM_EXPLODE_RADIUS implies spec_cull_explosions(xs).contains(xs[i]) by {
        xs.lemma_filter_contains(|x: Explosion| x.radius <= MAXIMUM_EXPLODE_RADIUS, i);
    }
}

} // verus!
