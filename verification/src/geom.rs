use vstd::arithmetic::div_mod::{
    lemma_basic_div, lemma_div_by_multiple, lemma_div_is_ordered, lemma_fundamental_div_mod,
    lemma_mod_bound,
};
use vstd::arithmetic::mul::lemma_mul_inequality;
use vstd::math::abs;
use vstd::prelude::*;

verus! {

/// Speed, in units per second, given to an object whose sensor overlaps the
/// player's: its velocity is re-aimed at the player at this magnitude.
pub const ATTRACT_SPEED: u64 = 10;

/// Radius of the player's circular sensor region.
pub const PLAYER_RADIUS: i64 = 250;

/// Radius of each object's circular sensor region.
pub const OBJECT_RADIUS: i64 = 50;

/// Largest coordinate magnitude the geometry functions accept; keeps every
/// intermediate product inside the machine integer types.
pub const COORD_LIMIT: i64 = 2_000_000_000_000;

/// Largest squared distance that can arise from coordinates within
/// `COORD_LIMIT`: two axes, each difference at most `2 * COORD_LIMIT`.
pub const MAX_NORM_SQ: u128 = 32_000_000_000_000_000_000_000_000;

/// Squared Euclidean distance between two points.
pub open spec fn dist_sq(px: int, py: int, ox: int, oy: int) -> int {
    (px - ox) * (px - ox) + (py - oy) * (py - oy)
}

/// Whether the player's and an object's circular sensors intersect: the
/// distance between their centers is at most the sum of the two radii.
pub open spec fn sensors_overlap(px: int, py: int, ox: int, oy: int) -> bool {
    dist_sq(px, py, ox, oy) <= (PLAYER_RADIUS + OBJECT_RADIUS) * (PLAYER_RADIUS + OBJECT_RADIUS)
}

/// Floor of the square root of a natural number.
pub open spec fn sqrt_floor(n: nat) -> nat
    decreases n,
{
    if n == 0 {
        0
    } else {
        let r = sqrt_floor((n - 1) as nat);
        if (r + 1) * (r + 1) <= n {
            r + 1
        } else {
            r
        }
    }
}

/// `sqrt_floor(n)` is the unique natural number whose square is at most `n`
/// while the next square exceeds `n`.
pub proof fn lemma_sqrt_floor_bounds(n: nat)
    ensures
        sqrt_floor(n) * sqrt_floor(n) <= n,
        n < (sqrt_floor(n) + 1) * (sqrt_floor(n) + 1),
    decreases n,
{
    if n == 0 {
        assert(sqrt_floor(0) == 0);
        assert((0nat + 1) * (0nat + 1) == 1) by (nonlinear_arith);
    } else {
        lemma_sqrt_floor_bounds((n - 1) as nat);
        let r = sqrt_floor((n - 1) as nat);
        if (r + 1) * (r + 1) <= n {
            assert(sqrt_floor(n) == r + 1);
            assert(n < (r + 2) * (r + 2)) by (nonlinear_arith)
                requires
                    (n - 1) < (r + 1) * (r + 1),
                    (r + 1) * (r + 1) <= n,
                    0 <= r,
            ;
            assert(n < (sqrt_floor(n) + 1) * (sqrt_floor(n) + 1));
        } else {
            assert(sqrt_floor(n) == r);
            assert(r * r <= n - 1 <= n);
        }
    }
}

/// Any `r` with `r^2 <= n < (r+1)^2` equals `sqrt_floor(n)`.
pub proof fn lemma_sqrt_floor_unique(n: nat, r: nat)
    requires
        r * r <= n,
        n < (r + 1) * (r + 1),
    ensures
        r == sqrt_floor(n),
{
    lemma_sqrt_floor_bounds(n);
    let s = sqrt_floor(n);
    assert(r == s) by (nonlinear_arith)
        requires
            r * r <= n,
            n < (r + 1) * (r + 1),
            s * s <= n,
            n < (s + 1) * (s + 1),
            0 <= r,
            0 <= s,
    ;
}

/// Floor of the square root, computed by binary search.
pub fn isqrt(n: u128) -> (r: u64)
    requires
        n <= MAX_NORM_SQ,
    ensures
        r as nat == sqrt_floor(n as nat),
{
    let mut lo: u64 = 0;
    let mut hi: u64 = 6_000_000_000_000;
    proof {
        assert((6_000_000_000_000int) * (6_000_000_000_000int)
            == 36_000_000_000_000_000_000_000_000int) by (nonlinear_arith);
    }
    while lo + 1 < hi
        invariant
            lo < hi <= 6_000_000_000_000,
            (lo as int) * (lo as int) <= n as int,
            (n as int) < (hi as int) * (hi as int),
        decreases hi - lo,
    {
        let mid = lo + (hi - lo) / 2;
        proof {
            assert((mid as int) * (mid as int) <= 36_000_000_000_000_000_000_000_000int)
                by (nonlinear_arith)
                requires
                    0 <= mid <= 6_000_000_000_000,
            ;
        }
        let sq: u128 = (mid as u128) * (mid as u128);
        if sq <= n {
            lo = mid;
        } else {
            hi = mid;
        }
    }
    proof {
        lemma_sqrt_floor_unique(n as nat, lo as nat);
    }
    lo
}

/// Distance from the object to the player, rounded down to a whole number of
/// units.
pub open spec fn norm_dist(px: int, py: int, ox: int, oy: int) -> int {
    sqrt_floor(dist_sq(px, py, ox, oy) as nat) as int
}

/// One component of the attraction velocity: `ATTRACT_SPEED` scaled by this
/// component's share `d / n` of the unit direction, rounded toward zero,
/// where `n` is the distance from the object to the player.
pub open spec fn attract_component(d: int, n: int) -> int
    recommends
        n >= 1,
{
    if d >= 0 {
        ((ATTRACT_SPEED as int) * d) / n
    } else {
        -(((ATTRACT_SPEED as int) * (-d)) / n)
    }
}

/// The x-component of the velocity an overlapping object is given: aimed
/// from the object toward the player.
pub open spec fn attract_vx(px: int, py: int, ox: int, oy: int) -> int {
    attract_component(px - ox, norm_dist(px, py, ox, oy))
}

/// The y-component of the velocity an overlapping object is given.
pub open spec fn attract_vy(px: int, py: int, ox: int, oy: int) -> int {
    attract_component(py - oy, norm_dist(px, py, ox, oy))
}

/// The squared distance is zero exactly when the two points coincide.
pub proof fn lemma_dist_sq_zero(px: int, py: int, ox: int, oy: int)
    ensures
        dist_sq(px, py, ox, oy) == 0 <==> (px == ox && py == oy),
{
    let a = px - ox;
    let b = py - oy;
    assert(a * a + b * b == 0 <==> (a == 0 && b == 0)) by (nonlinear_arith);
}

/// Attraction velocity toward the player for an object at `(ox, oy)` with
/// the player at `(px, py)`. Returns `None` exactly when the two positions
/// coincide: the direction is then degenerate and the policy is to skip the
/// velocity update for this frame.
pub fn attract_velocity(px: i64, py: i64, ox: i64, oy: i64) -> (v: Option<(i64, i64)>)
    requires
        -COORD_LIMIT <= px <= COORD_LIMIT,
        -COORD_LIMIT <= py <= COORD_LIMIT,
        -COORD_LIMIT <= ox <= COORD_LIMIT,
        -COORD_LIMIT <= oy <= COORD_LIMIT,
    ensures
        (v is None) <==> (px == ox && py == oy),
        v matches Some(u) ==> u.0 as int == attract_vx(px as int, py as int, ox as int, oy as int)
            && u.1 as int == attract_vy(px as int, py as int, ox as int, oy as int),
{
    let dx: i128 = px as i128 - ox as i128;
    let dy: i128 = py as i128 - oy as i128;
    proof {
        assert(0 <= dx * dx <= 16_000_000_000_000_000_000_000_000int && 0 <= dy * dy
            <= 16_000_000_000_000_000_000_000_000int) by (nonlinear_arith)
            requires
                -4_000_000_000_000 <= dx <= 4_000_000_000_000,
                -4_000_000_000_000 <= dy <= 4_000_000_000_000,
        ;
        lemma_dist_sq_zero(px as int, py as int, ox as int, oy as int);
    }
    let n2: i128 = dx * dx + dy * dy;
    if n2 == 0 {
        return None;
    }
    let n: u64 = isqrt(n2 as u128);
    proof {
        lemma_norm_dist_positive(px as int, py as int, ox as int, oy as int);
        assert(dist_sq(px as int, py as int, ox as int, oy as int) == n2 as int);
        assert(n >= 1);
    }
    let mx: u64 = if dx >= 0 {
        dx as u64
    } else {
        (-dx) as u64
    };
    let my: u64 = if dy >= 0 {
        dy as u64
    } else {
        (-dy) as u64
    };
    let qx: u64 = (ATTRACT_SPEED * mx) / n;
    let qy: u64 = (ATTRACT_SPEED * my) / n;
    let vx: i64 = if dx >= 0 {
        qx as i64
    } else {
        -(qx as i64)
    };
    let vy: i64 = if dy >= 0 {
        qy as i64
    } else {
        -(qy as i64)
    };
    Some((vx, vy))
}

/// Distance is at least 1 whenever the points differ.
pub proof fn lemma_norm_dist_positive(px: int, py: int, ox: int, oy: int)
    requires
        !(px == ox && py == oy),
    ensures
        norm_dist(px, py, ox, oy) >= 1,
        dist_sq(px, py, ox, oy) >= 1,
{
    lemma_dist_sq_zero(px, py, ox, oy);
    let a = px - ox;
    let b = py - oy;
    assert(a * a + b * b >= 1) by (nonlinear_arith)
        requires
            a != 0 || b != 0,
    ;
    let m = dist_sq(px, py, ox, oy) as nat;
    lemma_sqrt_floor_bounds(m);
    let s = sqrt_floor(m);
    assert(s >= 1) by (nonlinear_arith)
        requires
            m >= 1,
            m < (s + 1) * (s + 1),
            s >= 0,
    ;
}

/// Each axis's difference is bounded by the rounded distance.
proof fn lemma_component_le_norm(d: int, px: int, py: int, ox: int, oy: int)
    requires
        d == px - ox || d == py - oy,
    ensures
        -norm_dist(px, py, ox, oy) <= d <= norm_dist(px, py, ox, oy),
{
    let s = dist_sq(px, py, ox, oy);
    assert(d * d <= s && s >= 0) by (nonlinear_arith)
        requires
            d == px - ox || d == py - oy,
            s == (px - ox) * (px - ox) + (py - oy) * (py - oy),
    ;
    let n = sqrt_floor(s as nat);
    lemma_sqrt_floor_bounds(s as nat);
    assert(-(n as int) <= d <= n as int) by (nonlinear_arith)
        requires
            d * d <= s,
            s < (n + 1) * (n + 1),
            0 <= n,
    ;
}

/// A single attraction component is bounded by `ATTRACT_SPEED` and has the
/// sign of the axis difference `d`.
pub proof fn lemma_attract_component_range(d: int, n: int)
    requires
        1 <= n,
        -n <= d <= n,
    ensures
        -(ATTRACT_SPEED as int) <= attract_component(d, n) <= ATTRACT_SPEED as int,
        d > 0 ==> attract_component(d, n) >= 0,
        d < 0 ==> attract_component(d, n) <= 0,
        d == 0 ==> attract_component(d, n) == 0,
{
    let a = ATTRACT_SPEED as int;
    if d == 0 {
        lemma_basic_div(0, n);
    } else {
        let m = if d >= 0 {
            d
        } else {
            -d
        };
        assert(a * m <= a * n) by {
            lemma_mul_inequality(m, n, a);
        }
        lemma_div_is_ordered(a * m, a * n, n);
        lemma_div_by_multiple(a, n);
        assert((a * m) / n >= 0) by {
            assert(a * m >= 0) by (nonlinear_arith)
                requires
                    a >= 0,
                    m >= 0,
            ;
            lemma_div_is_ordered(0, a * m, n);
            lemma_basic_div(0, n);
        }
    }
}

/// Law: for an object not exactly at the player's position, the attraction
/// velocity points from the object toward the player on each axis — every
/// component has the sign of that axis's difference — and no component
/// exceeds `ATTRACT_SPEED` in magnitude.
pub proof fn lemma_attraction_points_toward_player(px: int, py: int, ox: int, oy: int)
    requires
        !(px == ox && py == oy),
    ensures
        -(ATTRACT_SPEED as int) <= attract_vx(px, py, ox, oy) <= ATTRACT_SPEED as int,
        -(ATTRACT_SPEED as int) <= attract_vy(px, py, ox, oy) <= ATTRACT_SPEED as int,
        px > ox ==> attract_vx(px, py, ox, oy) >= 0,
        px < ox ==> attract_vx(px, py, ox, oy) <= 0,
        px == ox ==> attract_vx(px, py, ox, oy) == 0,
        py > oy ==> attract_vy(px, py, ox, oy) >= 0,
        py < oy ==> attract_vy(px, py, ox, oy) <= 0,
        py == oy ==> attract_vy(px, py, ox, oy) == 0,
        attract_vx(px, py, ox, oy) * attract_vx(px, py, ox, oy) + attract_vy(px, py, ox, oy)
            * attract_vy(px, py, ox, oy) <= 2 * (ATTRACT_SPEED as int) * (ATTRACT_SPEED as int),
{
    lemma_norm_dist_positive(px, py, ox, oy);
    let n = norm_dist(px, py, ox, oy);
    lemma_component_le_norm(px - ox, px, py, ox, oy);
    lemma_component_le_norm(py - oy, px, py, ox, oy);
    lemma_attract_component_range(px - ox, n);
    lemma_attract_component_range(py - oy, n);
    let a = ATTRACT_SPEED as int;
    let vx = attract_vx(px, py, ox, oy);
    let vy = attract_vy(px, py, ox, oy);
    assert(vx * vx + vy * vy <= 2 * a * a) by (nonlinear_arith)
        requires
            -a <= vx <= a,
            -a <= vy <= a,
            0 <= a,
    ;
}

/// The truncation error of one attraction component: scaling `d` exactly
/// would give `ATTRACT_SPEED * d / n`, and rounding toward zero loses less
/// than one whole unit of the numerator per unit of `n`.
proof fn lemma_attract_component_error(d: int, n: int)
    requires
        1 <= n,
    ensures
        -n < (ATTRACT_SPEED as int) * d - n * attract_component(d, n) < n,
{
    let a = ATTRACT_SPEED as int;
    if d >= 0 {
        lemma_fundamental_div_mod(a * d, n);
        lemma_mod_bound(a * d, n);
    } else {
        lemma_fundamental_div_mod(a * (-d), n);
        lemma_mod_bound(a * (-d), n);
        assert(a * (-d) == -(a * d)) by (nonlinear_arith);
        assert(n * (-((a * (-d)) / n)) == -(n * ((a * (-d)) / n))) by (nonlinear_arith);
    }
}

/// Law: the attraction velocity is nearly collinear with the ray from the
/// object to the player — the cross product of the two vectors, which would
/// be zero for an exact direction, is smaller in magnitude than the one
/// unit of truncation per axis that integer rounding can lose.
pub proof fn lemma_attraction_nearly_collinear(px: int, py: int, ox: int, oy: int)
    requires
        !(px == ox && py == oy),
    ensures
        attract_vx(px, py, ox, oy) * (py - oy) - attract_vy(px, py, ox, oy) * (px - ox) < (abs(
            px - ox,
        ) + abs(py - oy)) as int,
        -((abs(px - ox) + abs(py - oy)) as int) < attract_vx(px, py, ox, oy) * (py - oy)
            - attract_vy(px, py, ox, oy) * (px - ox),
{
    let a = ATTRACT_SPEED as int;
    let dx = px - ox;
    let dy = py - oy;
    lemma_norm_dist_positive(px, py, ox, oy);
    let n = norm_dist(px, py, ox, oy);
    let vx = attract_component(dx, n);
    let vy = attract_component(dy, n);
    lemma_attract_component_error(dx, n);
    lemma_attract_component_error(dy, n);
    let ex = a * dx - n * vx;
    let ey = a * dy - n * vy;
    assert(n * (vx * dy - vy * dx) == ey * dx - ex * dy) by (nonlinear_arith)
        requires
            ex == a * dx - n * vx,
            ey == a * dy - n * vy,
    ;
    assert(-(n * (abs(dx) + abs(dy)) as int) < ey * dx - ex * dy < n * (abs(dx)
        + abs(dy)) as int) by (nonlinear_arith)
        requires
            -n < ex < n,
            -n < ey < n,
            1 <= n,
            abs(dx) == if dx >= 0 {
                dx
            } else {
                -dx
            },
            abs(dy) == if dy >= 0 {
                dy
            } else {
                -dy
            },
            !(dx == 0 && dy == 0),
    ;
    let cross = vx * dy - vy * dx;
    let slack = (abs(dx) + abs(dy)) as int;
    assert(-slack < cross < slack) by (nonlinear_arith)
        requires
            -(n * slack) < n * cross < n * slack,
            1 <= n,
    ;
}

/// Law: when the object lies exactly on the player's horizontal axis, the
/// attraction velocity is horizontal with magnitude exactly `ATTRACT_SPEED`:
/// integer normalization is exact for axis-aligned directions.
pub proof fn lemma_attraction_axis_aligned_exact(px: int, py: int, ox: int, oy: int)
    requires
        py == oy,
        px != ox,
    ensures
        attract_vy(px, py, ox, oy) == 0,
        px > ox ==> attract_vx(px, py, ox, oy) == ATTRACT_SPEED as int,
        px < ox ==> attract_vx(px, py, ox, oy) == -(ATTRACT_SPEED as int),
{
    let d = px - ox;
    let m = if d >= 0 {
        d
    } else {
        -d
    };
    let s = dist_sq(px, py, ox, oy);
    assert(s == m * m) by (nonlinear_arith)
        requires
            s == d * d + 0 * 0,
            m == if d >= 0 {
                d
            } else {
                -d
            },
    ;
    assert(m * m < (m + 1) * (m + 1)) by (nonlinear_arith)
        requires
            m >= 0,
    ;
    lemma_sqrt_floor_unique(s as nat, m as nat);
    let n = norm_dist(px, py, ox, oy);
    assert(n == m);
    lemma_div_by_multiple(ATTRACT_SPEED as int, n);
    assert((ATTRACT_SPEED as int) * m == (ATTRACT_SPEED as int) * n);
    lemma_basic_div(0, n);
}

/// Law: the vertical counterpart — an object exactly on the player's
/// vertical axis is given a vertical velocity of magnitude exactly
/// `ATTRACT_SPEED`.
pub proof fn lemma_attraction_axis_aligned_exact_vertical(px: int, py: int, ox: int, oy: int)
    requires
        px == ox,
        py != oy,
    ensures
        attract_vx(px, py, ox, oy) == 0,
        py > oy ==> attract_vy(px, py, ox, oy) == ATTRACT_SPEED as int,
        py < oy ==> attract_vy(px, py, ox, oy) == -(ATTRACT_SPEED as int),
{
    let d = py - oy;
    let m = if d >= 0 {
        d
    } else {
        -d
    };
    let s = dist_sq(px, py, ox, oy);
    assert(s == m * m) by (nonlinear_arith)
        requires
            s == 0 * 0 + d * d,
            m == if d >= 0 {
                d
            } else {
                -d
            },
    ;
    assert(m * m < (m + 1) * (m + 1)) by (nonlinear_arith)
        requires
            m >= 0,
    ;
    lemma_sqrt_floor_unique(s as nat, m as nat);
    let n = norm_dist(px, py, ox, oy);
    assert(n == m);
    lemma_div_by_multiple(ATTRACT_SPEED as int, n);
    assert((ATTRACT_SPEED as int) * m == (ATTRACT_SPEED as int) * n);
    lemma_basic_div(0, n);
}

} // verus!
