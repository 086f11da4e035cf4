//! The state hasher: it compresses the field into an 8-bit occupancy mask
//! of enemy placement relative to the player, and spreads that mask into an
//! explicit, versioned 64-bit key. Distinct masks always map to distinct
//! keys, and nothing else enters the key.

use vstd::prelude::*;
use crate::object::{Enemy, Position, PLAYER_RADIUS, POS_LIMIT};
use crate::geometry::abs1;

verus! {

/// Version tag baked into every key, so persisted tables are never read
/// against a different discretization.
pub const STATE_KEY_VERSION: u64 = 1;

/// Some enemy lies within a band of three player-radii per axis around the
/// quadrant center `(cx, cy)`.
pub open spec fn spec_quad_hit(es: Seq<Enemy>, cx: int, cy: int) -> bool {
    exists|i: int| 0 <= i < es.len() && {
        let e = #[trigger] es[i];
        abs1(e.pos.x - cx) < 3 * PLAYER_RADIUS && abs1(e.pos.y - cy) < 3 * PLAYER_RADIUS
    }
}

/// Some enemy strictly to the left of the player within one player-radius
/// vertical band.
pub open spec fn spec_left_hit(es: Seq<Enemy>, p: Position) -> bool {
    exists|i: int| 0 <= i < es.len() && {
        let e = #[trigger] es[i];
        e.pos.x <= p.x && p.y - PLAYER_RADIUS <= e.pos.y <= p.y + PLAYER_RADIUS
    }
}

pub open spec fn spec_right_hit(es: Seq<Enemy>, p: Position) -> bool {
    exists|i: int| 0 <= i < es.len() && {
        let e = #[trigger] es[i];
        e.pos.x >= p.x && p.y - PLAYER_RADIUS <= e.pos.y <= p.y + PLAYER_RADIUS
    }
}

pub open spec fn spec_low_hit(es: Seq<Enemy>, p: Position) -> bool {
    exists|i: int| 0 <= i < es.len() && {
        let e = #[trigger] es[i];
        e.pos.y <= p.y && p.x - PLAYER_RADIUS <= e.pos.x <= p.x + PLAYER_RADIUS
    }
}

pub open spec fn spec_high_hit(es: Seq<Enemy>, p: Position) -> bool {
    exists|i: int| 0 <= i < es.len() && {
        let e = #[trigger] es[i];
        e.pos.y >= p.y && p.x - PLAYER_RADIUS <= e.pos.x <= p.x + PLAYER_RADIUS
    }
}

pub open spec fn b2i(b: bool) -> int {
    if b {
        1int
    } else {
        0int
    }
}

/// The 8-bit occupancy mask: four forward-quadrant presence bits (centers
/// three radii out from the player, six radii apart) and four half-plane
/// presence bits within one player-radius band.
pub open spec fn spec_mask(p: Position, es: Seq<Enemy>) -> int {
    let ox = p.x - 3 * PLAYER_RADIUS;
    let oy = p.y + 3 * PLAYER_RADIUS;
    b2i(spec_quad_hit(es, ox, oy)) + 2 * b2i(spec_quad_hit(es, ox + 6 * PLAYER_RADIUS, oy))
        + 4 * b2i(spec_quad_hit(es, ox, oy - 6 * PLAYER_RADIUS)) + 8 * b2i(
        spec_quad_hit(es, ox + 6 * PLAYER_RADIUS, oy - 6 * PLAYER_RADIUS),
    ) + 16 * b2i(spec_left_hit(es, p)) + 32 * b2i(spec_right_hit(es, p)) + 64 * b2i(
        spec_low_hit(es, p),
    ) + 128 * b2i(spec_high_hit(es, p))
}

/// The full lookup key: the version tag in the high bits, the mask in the
/// low byte. A pure function of the occupancy mask, and injective in it.
pub open spec fn spec_state_key(p: Position, es: Seq<Enemy>) -> u64 {
    (STATE_KEY_VERSION * 256 + spec_mask(p, es)) as u64
}

/// Two states whose qualitative enemy occupancy agrees, bit for bit, hash
/// to the same key; in particular moving an enemy within its bucket never
/// changes the key.
pub proof fn lemma_key_depends_only_on_occupancy(
    pa: Position,
    ea: Seq<Enemy>,
    pb: Position,
    eb: Seq<Enemy>,
)
    requires
        spec_quad_hit(ea, pa.x - 3 * PLAYER_RADIUS, pa.y + 3 * PLAYER_RADIUS)
            == spec_quad_hit(eb, pb.x - 3 * PLAYER_RADIUS, pb.y + 3 * PLAYER_RADIUS),
        spec_quad_hit(ea, pa.x + 3 * PLAYER_RADIUS, pa.y + 3 * PLAYER_RADIUS)
            == spec_quad_hit(eb, pb.x + 3 * PLAYER_RADIUS, pb.y + 3 * PLAYER_RADIUS),
        spec_quad_hit(ea, pa.x - 3 * PLAYER_RADIUS, pa.y - 3 * PLAYER_RADIUS)
            == spec_quad_hit(eb, pb.x - 3 * PLAYER_RADIUS, pb.y - 3 * PLAYER_RADIUS),
        spec_quad_hit(ea, pa.x + 3 * PLAYER_RADIUS, pa.y - 3 * PLAYER_RADIUS)
            == spec_quad_hit(eb, pb.x + 3 * PLAYER_RADIUS, pb.y - 3 * PLAYER_RADIUS),
        spec_left_hit(ea, pa) == spec_left_hit(eb, pb),
        spec_right_hit(ea, pa) == spec_right_hit(eb, pb),
        spec_low_hit(ea, pa) == spec_low_hit(eb, pb),
        spec_high_hit(ea, pa) == spec_high_hit(eb, pb),
    ensures
        spec_state_key(pa, ea) == spec_state_key(pb, eb),
{
}

/// Distinct masks give distinct keys: the mask is the key's low byte.
pub proof fn lemma_key_injective(pa: Position, ea: Seq<Enemy>, pb: Position, eb: Seq<Enemy>)
    requires
        spec_mask(pa, ea) != spec_mask(pb, eb),
    ensures
        spec_state_key(pa, ea) != spec_state_key(pb, eb),
{
    assert(0 <= spec_mask(pa, ea) <= 255);
    assert(0 <= spec_mask(pb, eb) <= 255);
}

/// Whether some enemy sits within the quadrant band around `(cx, cy)`.
pub(crate) fn quad_hit(es: &Vec<Enemy>, cx: i64, cy: i64) -> (b: bool)
    requires
        forall|i: int| 0 <= i < es@.len() ==> {
            &&& -POS_LIMIT <= (#[trigger] es@[i]).pos.x <= POS_LIMIT
            &&& -POS_LIMIT <= es@[i].pos.y <= POS_LIMIT
        },
        -POS_LIMIT - 6 * PLAYER_RADIUS <= cx <= POS_LIMIT + 6 * PLAYER_RADIUS,
        -POS_LIMIT - 6 * PLAYER_RADIUS <= cy <= POS_LIMIT + 6 * PLAYER_RADIUS,
    ensures
        b == spec_quad_hit(es@, cx as int, cy as int),
{
    let n = es.len();
    let mut i: usize = 0;
    while i < n
        invariant
            forall|j: int| 0 <= j < es@.len() ==> {
                &&& -POS_LIMIT <= (#[trigger] es@[j]).pos.x <= POS_LIMIT
                &&& -POS_LIMIT <= es@[j].pos.y <= POS_LIMIT
            },
            -POS_LIMIT - 6 * PLAYER_RADIUS <= cx <= POS_LIMIT + 6 * PLAYER_RADIUS,
            -POS_LIMIT - 6 * PLAYER_RADIUS <= cy <= POS_LIMIT + 6 * PLAYER_RADIUS,
            n == es@.len(),
            0 <= i <= n,
            forall|j: int| 0 <= j < i ==> !{
                let e = #[trigger] es@[j];
                abs1(e.pos.x - cx) < 3 * PLAYER_RADIUS && abs1(e.pos.y - cy) < 3
                    * PLAYER_RADIUS
            },
        decreases n - i,
    {
        let e = es[i];
        let dx = if e.pos.x >= cx { e.pos.x - cx } else { cx - e.pos.x };
        let dy = if e.pos.y >= cy { e.pos.y - cy } else { cy - e.pos.y };
        if dx < 3 * PLAYER_RADIUS && dy < 3 * PLAYER_RADIUS {
            return true;
        }
        i += 1;
    }
    false
}

/// Which of the four half-plane bands to test.
enum Band {
    Left,
    Right,
    Low,
    High,
}

/// Whether some enemy sits in the given half-plane band around the player.
fn band_hit(es: &Vec<Enemy>, p: Position, band: Band) -> (b: bool)
    requires
        forall|i: int| 0 <= i < es@.len() ==> {
            &&& -POS_LIMIT <= (#[trigger] es@[i]).pos.x <= POS_LIMIT
            &&& -POS_LIMIT <= es@[i].pos.y <= POS_LIMIT
        },
        -POS_LIMIT <= p.x <= POS_LIMIT,
        -POS_LIMIT <= p.y <= POS_LIMIT,
    ensures
        b == match band {
            Band::Left => spec_left_hit(es@, p),
            Band::Right => spec_right_hit(es@, p),
            Band::Low => spec_low_hit(es@, p),
            Band::High => spec_high_hit(es@, p),
        },
{
    let n = es.len();
    let mut i: usize = 0;
    while i < n
        invariant
            forall|j: int| 0 <= j < es@.len() ==> {
                &&& -POS_LIMIT <= (#[trigger] es@[j]).pos.x <= POS_LIMIT
                &&& -POS_LIMIT <= es@[j].pos.y <= POS_LIMIT
            },
            -POS_LIMIT <= p.x <= POS_LIMIT,
            -POS_LIMIT <= p.y <= POS_LIMIT,
            n == es@.len(),
            0 <= i <= n,
            forall|j: int| 0 <= j < i ==> !{
                let e = #[trigger] es@[j];
                match band {
                    Band::Left => e.pos.x <= p.x && p.y - PLAYER_RADIUS <= e.pos.y
                        <= p.y + PLAYER_RADIUS,
                    Band::Right => e.pos.x >= p.x && p.y - PLAYER_RADIUS <= e.pos.y
                        <= p.y + PLAYER_RADIUS,
                    Band::Low => e.pos.y <= p.y && p.x - PLAYER_RADIUS <= e.pos.x
                        <= p.x + PLAYER_RADIUS,
                    Band::High => e.pos.y >= p.y && p.x - PLAYER_RADIUS <= e.pos.x
                        <= p.x + PLAYER_RADIUS,
                }
            },
        decreases n - i,
    {
        let e = es[i];
        let found = match band {
            Band::Left => e.pos.x <= p.x && p.y - PLAYER_RADIUS <= e.pos.y
                && e.pos.y <= p.y + PLAYER_RADIUS,
            Band::Right => e.pos.x >= p.x && p.y - PLAYER_RADIUS <= e.pos.y
                && e.pos.y <= p.y + PLAYER_RADIUS,
            Band::Low => e.pos.y <= p.y && p.x - PLAYER_RADIUS <= e.pos.x
                && e.pos.x <= p.x + PLAYER_RADIUS,
            Band::High => e.pos.y >= p.y && p.x - PLAYER_RADIUS <= e.pos.x
                && e.pos.x <= p.x + PLAYER_RADIUS,
        };
        if found {
            return true;
        }
        i += 1;
    }
    false
}

/// Computes the versioned lookup key of a player/enemy arrangement.
pub fn state_key(p: Position, es: &Vec<Enemy>) -> (r: u64)
    requires
        forall|i: int| 0 <= i < es@.len() ==> {
            &&& -POS_LIMIT <= (#[trigger] es@[i]).pos.x <= POS_LIMIT
            &&& -POS_LIMIT <= es@[i].pos.y <= POS_LIMIT
        },
        -POS_LIMIT <= p.x <= POS_LIMIT,
        -POS_LIMIT <= p.y <= POS_LIMIT,
    ensures
        r == spec_state_key(p, es@),
{
    let ox = p.x - 3 * PLAYER_RADIUS;
    let oy = p.y + 3 * PLAYER_RADIUS;
    let mut mask: u64 = 0;
    if quad_hit(es, ox, oy) {
        mask = mask + 1;
    }
    if quad_hit(es, ox + 6 * PLAYER_RADIUS, oy) {
        mask = mask + 2;
    }
    if quad_hit(es, ox, oy - 6 * PLAYER_RADIUS) {
        mask = mask + 4;
    }
    if quad_hit(es, ox + 6 * PLAYER_RADIUS, oy - 6 * PLAYER_RADIUS) {
        mask = mask + 8;
    }
    if band_hit(es, p, Band::Left) {
        mask = mask + 16;
    }
    if band_hit(es, p, Band::Right) {
        mask = mask + 32;
    }
    if band_hit(es, p, Band::Low) {
        mask = mask + 64;
    }
    if band_hit(es, p, Band::High) {
        mask = mask + 128;
    }
    STATE_KEY_VERSION * 256 + mask
}

} // verus!
