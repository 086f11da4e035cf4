//! Shared collision geometry: the square-vs-circle overlap test, the field
//! bounds extrusion, and the Chebyshev-normalized aiming step.

use vstd::prelude::*;
use vstd::arithmetic::div_mod::{lemma_div_is_ordered, lemma_div_by_multiple};
use crate::object::{Position, Vector, BULLET_SPEED, COORD_SCALE, PLAYER_RADIUS, POS_LIMIT};

verus! {

/// Coordinates handed to the overlap test stay within this magnitude.
pub const OVERLAP_COORD_LIMIT: i64 = 1_400_000_000;

/// Radii handed to the overlap test stay within this magnitude.
pub const OVERLAP_RADIUS_LIMIT: i64 = 100_000;

pub open spec fn sq(a: int) -> int {
    a * a
}

/// Whether a square hitbox of half-width `h` centered at `s` overlaps a
/// circular hitbox of radius `r` centered at `c`: the disjunction of two
/// inflated-rectangle containment checks (one per axis order) and four
/// corner-vs-circle distance checks. Conservative: tangency counts as
/// contact.
pub open spec fn spec_overlap(s: Position, h: int, c: Position, r: int) -> bool {
    let x1 = s.x - h;
    let y1 = s.y + h;
    let x2 = s.x + h;
    let y2 = s.y - h;
    ||| (x1 <= c.x && c.x <= x2 && y2 - r <= c.y && c.y <= y1 + r)
    ||| (x1 - r <= c.x && c.x <= x2 + r && y2 <= c.y && c.y <= y1)
    ||| sq(x1 - c.x) + sq(y1 - c.y) <= sq(r)
    ||| sq(x2 - c.x) + sq(y1 - c.y) <= sq(r)
    ||| sq(x2 - c.x) + sq(y2 - c.y) <= sq(r)
    ||| sq(x1 - c.x) + sq(y2 - c.y) <= sq(r)
}

proof fn lemma_square_bound(a: int, b: int)
    requires
        -b <= a <= b,
    ensures
        0 <= a * a <= b * b,
{
    assert(0 <= a * a <= b * b) by (nonlinear_arith)
        requires -b <= a <= b;
}

/// One corner-vs-circle distance check of the overlap test.
fn corner_within(cx: i64, cy: i64, px: i64, py: i64, r: i64) -> (b: bool)
    requires
        -(OVERLAP_COORD_LIMIT + OVERLAP_RADIUS_LIMIT) <= cx
            <= OVERLAP_COORD_LIMIT + OVERLAP_RADIUS_LIMIT,
        -(OVERLAP_COORD_LIMIT + OVERLAP_RADIUS_LIMIT) <= cy
            <= OVERLAP_COORD_LIMIT + OVERLAP_RADIUS_LIMIT,
        -OVERLAP_COORD_LIMIT <= px <= OVERLAP_COORD_LIMIT,
        -OVERLAP_COORD_LIMIT <= py <= OVERLAP_COORD_LIMIT,
        0 <= r <= OVERLAP_RADIUS_LIMIT,
    ensures
        b == (sq(cx - px) + sq(cy - py) <= sq(r as int)),
{
    let dx = cx - px;
    let dy = cy - py;
    let adx = if dx >= 0 { dx } else { -dx };
    let ady = if dy >= 0 { dy } else { -dy };
    proof {
        assert(dx * dx == adx * adx && dy * dy == ady * ady) by (nonlinear_arith)
            requires (adx == dx || adx == -dx) && (ady == dy || ady == -dy);
    }
    if adx > r || ady > r {
        proof {
            assert(adx > r ==> adx * adx > r * r) by (nonlinear_arith)
                requires r >= 0;
            assert(ady > r ==> ady * ady > r * r) by (nonlinear_arith)
                requires r >= 0;
            assert(adx * adx >= 0 && ady * ady >= 0) by (nonlinear_arith);
        }
        false
    } else {
        proof {
            lemma_square_bound(adx as int, OVERLAP_RADIUS_LIMIT as int);
            lemma_square_bound(ady as int, OVERLAP_RADIUS_LIMIT as int);
            lemma_square_bound(r as int, OVERLAP_RADIUS_LIMIT as int);
        }
        adx * adx + ady * ady <= r * r
    }
}

/// The square-vs-circle overlap test; see [`spec_overlap`].
pub fn overlap(s: Position, h: i64, c: Position, r: i64) -> (b: bool)
    requires
        -OVERLAP_COORD_LIMIT <= s.x <= OVERLAP_COORD_LIMIT,
        -OVERLAP_COORD_LIMIT <= s.y <= OVERLAP_COORD_LIMIT,
        -OVERLAP_COORD_LIMIT <= c.x <= OVERLAP_COORD_LIMIT,
        -OVERLAP_COORD_LIMIT <= c.y <= OVERLAP_COORD_LIMIT,
        0 <= h <= OVERLAP_RADIUS_LIMIT,
        0 <= r <= OVERLAP_RADIUS_LIMIT,
    ensures
        b == spec_overlap(s, h as int, c, r as int),
{
    let x1 = s.x - h;
    let y1 = s.y + h;
    let x2 = s.x + h;
    let y2 = s.y - h;
    if x1 <= c.x && c.x <= x2 && y2 - r <= c.y && c.y <= y1 + r {
        true
    } else if x1 - r <= c.x && c.x <= x2 + r && y2 <= c.y && c.y <= y1 {
        true
    } else if corner_within(x1, y1, c.x, c.y, r) {
        true
    } else if corner_within(x2, y1, c.x, c.y, r) {
        true
    } else if corner_within(x2, y2, c.x, c.y, r) {
        true
    } else {
        corner_within(x1, y2, c.x, c.y, r)
    }
}

/// One axis of the extrusion: pushed back so the hitbox of half-width
/// `PLAYER_RADIUS` stays within `[0, dim]`.
pub open spec fn spec_extrude_coord(x: int, dim: int) -> int {
    if x - PLAYER_RADIUS < 0 {
        PLAYER_RADIUS as int
    } else if x + PLAYER_RADIUS > dim {
        dim - PLAYER_RADIUS
    } else {
        x
    }
}

/// Where a player or enemy stands after the bounds extrusion.
pub open spec fn spec_extrude(p: Position, width: int, height: int) -> Position {
    Position {
        x: spec_extrude_coord(p.x as int, width) as i64,
        y: spec_extrude_coord(p.y as int, height) as i64,
    }
}

/// Clamps a position so the full square hitbox stays within the field.
pub fn extrude(p: Position, width: i64, height: i64) -> (r: Position)
    requires
        -POS_LIMIT - BULLET_SPEED <= p.x <= POS_LIMIT + BULLET_SPEED,
        -POS_LIMIT - BULLET_SPEED <= p.y <= POS_LIMIT + BULLET_SPEED,
        2 * PLAYER_RADIUS <= width <= POS_LIMIT,
        2 * PLAYER_RADIUS <= height <= POS_LIMIT,
    ensures
        r == spec_extrude(p, width as int, height as int),
        PLAYER_RADIUS <= r.x <= width - PLAYER_RADIUS,
        PLAYER_RADIUS <= r.y <= height - PLAYER_RADIUS,
{
    let x = if p.x - PLAYER_RADIUS < 0 {
        PLAYER_RADIUS
    } else if p.x + PLAYER_RADIUS > width {
        width - PLAYER_RADIUS
    } else {
        p.x
    };
    let y = if p.y - PLAYER_RADIUS < 0 {
        PLAYER_RADIUS
    } else if p.y + PLAYER_RADIUS > height {
        height - PLAYER_RADIUS
    } else {
        p.y
    };
    Position { x, y }
}

/// After extrusion a position always satisfies
/// `PLAYER_RADIUS <= x <= width - PLAYER_RADIUS` and the `y` analog.
pub proof fn lemma_extrusion_bounds(p: Position, width: int, height: int)
    requires
        2 * PLAYER_RADIUS <= width,
        2 * PLAYER_RADIUS <= height,
    ensures
        PLAYER_RADIUS <= spec_extrude(p, width, height).x <= width - PLAYER_RADIUS,
        PLAYER_RADIUS <= spec_extrude(p, width, height).y <= height - PLAYER_RADIUS,
{
}

/// Division that rounds toward zero, for a positive divisor.
pub open spec fn div_trunc(a: int, b: int) -> int {
    if a >= 0 {
        a / b
    } else {
        -((-a) / b)
    }
}

/// The per-tick velocity of an enemy at `from` homing toward `to`:
/// both components of the difference are divided by the larger absolute
/// component (Chebyshev normalization), yielding straight 8-directional
/// pursuit at one pixel per tick on the dominant axis. An enemy exactly on
/// top of its target holds still rather than divide by zero.
pub open spec fn spec_aim(from: Position, to: Position) -> Vector {
    let dx = to.x - from.x;
    let dy = to.y - from.y;
    let m = if abs1(dx) >= abs1(dy) { abs1(dx) } else { abs1(dy) };
    if m == 0 {
        Vector { x: 0, y: 0 }
    } else {
        Vector {
            x: div_trunc(dx * COORD_SCALE, m) as i64,
            y: div_trunc(dy * COORD_SCALE, m) as i64,
        }
    }
}

pub open spec fn abs1(a: int) -> int {
    if a >= 0 {
        a
    } else {
        -a
    }
}

/// `0 <= a <= m` gives `a * COORD_SCALE / m <= COORD_SCALE`.
proof fn lemma_scaled_ratio_bounded(a: int, m: int)
    requires
        0 < m,
        0 <= a <= m,
    ensures
        0 <= (a * COORD_SCALE) / m <= COORD_SCALE,
{
    assert(a * COORD_SCALE <= m * COORD_SCALE) by (nonlinear_arith)
        requires 0 <= a <= m;
    assert(0 <= a * COORD_SCALE) by (nonlinear_arith)
        requires 0 <= a;
    lemma_div_is_ordered(a * COORD_SCALE, m * COORD_SCALE, m);
    lemma_div_by_multiple(COORD_SCALE as int, m);
    assert(m * COORD_SCALE == COORD_SCALE * m) by (nonlinear_arith);
    vstd::arithmetic::div_mod::lemma_div_pos_is_pos(a * COORD_SCALE, m);
}

/// One signed component of the aiming step.
fn aim_component(d: i64, m: i64) -> (v: i64)
    requires
        0 < m <= 3_000_000_000,
        -m <= d <= m,
    ensures
        v as int == div_trunc(d * COORD_SCALE, m as int),
        -COORD_SCALE <= v <= COORD_SCALE,
{
    if d >= 0 {
        proof {
            lemma_scaled_ratio_bounded(d as int, m as int);
        }
        let q = (d * COORD_SCALE) / m;
        proof {
            assert(d * COORD_SCALE >= 0) by (nonlinear_arith)
                requires d >= 0;
        }
        q
    } else {
        let nd = -d;
        proof {
            lemma_scaled_ratio_bounded(nd as int, m as int);
            assert(nd * COORD_SCALE >= 0) by (nonlinear_arith)
                requires nd >= 0;
        }
        let q = (nd * COORD_SCALE) / m;
        -q
    }
}

/// Computes the homing velocity of an enemy at `from` toward `to`.
pub fn aim_step(from: Position, to: Position) -> (v: Vector)
    requires
        -POS_LIMIT - BULLET_SPEED <= from.x <= POS_LIMIT + BULLET_SPEED,
        -POS_LIMIT - BULLET_SPEED <= from.y <= POS_LIMIT + BULLET_SPEED,
        -POS_LIMIT - BULLET_SPEED <= to.x <= POS_LIMIT + BULLET_SPEED,
        -POS_LIMIT - BULLET_SPEED <= to.y <= POS_LIMIT + BULLET_SPEED,
    ensures
        v == spec_aim(from, to),
        -COORD_SCALE <= v.x <= COORD_SCALE,
        -COORD_SCALE <= v.y <= COORD_SCALE,
{
    let dx = to.x - from.x;
    let dy = to.y - from.y;
    let adx = if dx >= 0 { dx } else { -dx };
    let ady = if dy >= 0 { dy } else { -dy };
    let m = if adx >= ady { adx } else { ady };
    if m == 0 {
        Vector { x: 0, y: 0 }
    } else {
        Vector { x: aim_component(dx, m), y: aim_component(dy, m) }
    }
}

} // verus!
