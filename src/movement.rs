//! Speed and steering: how far a window moves in one frame, and where to.
//!
//! Speeds are kept in two-hundredths of a pixel per second and frame times
//! in microseconds, so the distance travelled in a frame is an exact count of
//! `1 / TRAVEL_UNITS_PER_PIXEL` pixels. Steering compares squares of these
//! counts, so arrival and rounding are decided without any loss.

use crate::geometry::{
    dist_sq, floor_sqrt, isqrt, lemma_floor_sqrt_exists, product_le, MonitorSize, Point,
};
use crate::state::{BonnieState, StateKind};
use vstd::prelude::*;

verus! {

/// Speed units (see `calculate_movement_speed`) in one pixel per second.
pub const SPEED_UNITS_PER_PIXEL: u64 = 200;

/// The base speed of 0.15 of the diagonal per second, in speed units per
/// pixel of diagonal and per tenth of the state's multiplier:
/// `0.15 / 10 * SPEED_UNITS_PER_PIXEL`.
pub const BASE_SPEED_UNITS: u64 = 3;

/// Microseconds in a second.
pub const MICROS_PER_SECOND: u64 = 1_000_000;

/// Travel units (speed units times microseconds) in one pixel.
pub const TRAVEL_UNITS_PER_PIXEL: u128 = 200_000_000;

/// The speed multiplier of a state, in tenths.
pub open spec fn speed_tenths(k: StateKind) -> int {
    match k {
        StateKind::Chasing => 20,
        StateKind::Teaching => 30,
        StateKind::Bird => 15,
        _ => 10,
    }
}

/// The length of the monitor's diagonal in whole pixels, rounded down.
pub open spec fn diagonal(monitor: MonitorSize) -> int {
    floor_sqrt(
        (monitor.width * monitor.width + monitor.height * monitor.height) as nat,
    ) as int
}

/// Speed in two-hundredths of a pixel per second: 0.15 of the diagonal per
/// second times the state's multiplier, with nothing rounded away.
pub open spec fn movement_speed(monitor: MonitorSize, k: StateKind) -> int {
    diagonal(monitor) * BASE_SPEED_UNITS * speed_tenths(k)
}

pub fn speed_multiplier_tenths(state: &BonnieState) -> (r: u64)
    ensures
        r == speed_tenths(state.kind_of()),
{
    match state {
        BonnieState::Chasing => 20,
        BonnieState::Teaching => 30,
        BonnieState::Bird => 15,
        _ => 10,
    }
}

/// The speed of `state` on `resolution`, in two-hundredths of a pixel per second.
pub fn calculate_movement_speed(resolution: MonitorSize, state: &BonnieState) -> (r: u64)
    ensures
        r == movement_speed(resolution, state.kind_of()),
{
    let w = resolution.width as u128;
    let h = resolution.height as u128;
    assert(w * w <= 0xffff_ffff * 0xffff_ffff && h * h <= 0xffff_ffff * 0xffff_ffff)
        by (nonlinear_arith)
        requires
            w <= 0xffff_ffff,
            h <= 0xffff_ffff,
    ;
    let diag = isqrt(w * w + h * h);
    assert(diag < 0x2_0000_0000) by (nonlinear_arith)
        requires
            diag * diag <= w * w + h * h,
            w * w + h * h <= 2 * 0xffff_ffff * 0xffff_ffff,
            diag >= 0,
    ;
    let tenths = speed_multiplier_tenths(state);
    assert(diag * 3 * tenths < 0x2_0000_0000 * 3 * 30) by (nonlinear_arith)
        requires
            0 <= diag < 0x2_0000_0000,
            0 < tenths <= 30,
    ;
    (diag * (BASE_SPEED_UNITS as u128) * (tenths as u128)) as u64
}

/// How far a speed carries in `elapsed_us` microseconds, in travel units.
pub fn travel(speed: u64, elapsed_us: u64) -> (r: u128)
    ensures
        r == speed * elapsed_us,
{
    assert(speed * elapsed_us <= 0xffff_ffff_ffff_ffff * 0xffff_ffff_ffff_ffff)
        by (nonlinear_arith)
        requires
            speed <= 0xffff_ffff_ffff_ffff,
            elapsed_us <= 0xffff_ffff_ffff_ffff,
    ;
    speed as u128 * elapsed_us as u128
}

/// `travel` in whole pixels, rounded to nearest, but never rounded away to
/// nothing while there is travel at all.
pub open spec fn whole_pixels(travel: int) -> int {
    let rounded = (travel + TRAVEL_UNITS_PER_PIXEL / 2) / TRAVEL_UNITS_PER_PIXEL as int;
    if travel > 0 && rounded == 0 {
        1
    } else {
        rounded
    }
}

pub fn to_whole_pixels(travel: u128) -> (r: u128)
    ensures
        r == whole_pixels(travel as int),
{
    let q = TRAVEL_UNITS_PER_PIXEL;
    let rounded = travel / q + if travel % q >= q / 2 {
        1
    } else {
        0
    };
    proof {
        let t = travel as int;
        let h = (q / 2) as int;
        assert((t + h) / (q as int) == t / (q as int) + (if t % (q as int) >= h {
            1int
        } else {
            0
        })) by (nonlinear_arith)
            requires
                q == 2 * h,
                h > 0,
                t >= 0,
        ;
    }
    if travel > 0 && rounded == 0 {
        1
    } else {
        rounded
    }
}

pub open spec fn abs(v: int) -> int {
    if v < 0 {
        -v
    } else {
        v
    }
}

/// `m` with the sign of `d`.
pub open spec fn signed(d: int, m: int) -> int {
    if d < 0 {
        -m
    } else {
        m
    }
}

/// `k * TRAVEL_UNITS_PER_PIXEL * sqrt(d2)`, squared.
pub open spec fn scaled(k: int, d2: int) -> int {
    (k * TRAVEL_UNITS_PER_PIXEL) * (k * TRAVEL_UNITS_PER_PIXEL * d2)
}

/// `2 * a * travel`, squared.
pub open spec fn aimed(a: int, travel: int) -> int {
    (2 * a * travel) * (2 * a * travel)
}

/// `m` is `a * travel / (TRAVEL_UNITS_PER_PIXEL * sqrt(d2))` rounded to
/// nearest (halves up): a component `a` of a vector of squared length `d2`,
/// scaled to a step of `travel`. In squares:
/// `(2m - 1) * Q * sqrt(d2) <= 2 * a * travel < (2m + 1) * Q * sqrt(d2)`.
pub open spec fn is_share(m: int, a: int, travel: int, d2: int) -> bool {
    &&& m >= 0
    &&& (m == 0 || scaled(2 * m - 1, d2) <= aimed(a, travel))
    &&& aimed(a, travel) < scaled(2 * m + 1, d2)
}

pub open spec fn share(a: int, travel: int, d2: int) -> int {
    choose|m: int| is_share(m, a, travel, d2)
}

proof fn lemma_scaled_basics(a: int, travel: int, d2: int)
    requires
        d2 >= 0,
    ensures
        scaled(0, d2) == 0,
        a == 0 ==> aimed(a, travel) == 0,
        aimed(a, travel) >= 0,
        d2 > 0 ==> scaled(1, d2) > 0,
{
    let q = TRAVEL_UNITS_PER_PIXEL as int;
    let w = 2 * a * travel;
    assert(w * w >= 0) by (nonlinear_arith);
    assert(a == 0 ==> w == 0) by (nonlinear_arith)
        requires
            w == 2 * a * travel,
    ;
    assert((0 * q) * (0 * q * d2) == 0) by (nonlinear_arith);
    assert(d2 > 0 ==> (1 * q) * (1 * q * d2) > 0) by (nonlinear_arith)
        requires
            q > 0,
    ;
}

proof fn lemma_aimed_below(a: int, travel: int, d2: int)
    requires
        a > 0,
        travel >= 0,
        travel * travel < d2 * (TRAVEL_UNITS_PER_PIXEL * TRAVEL_UNITS_PER_PIXEL),
    ensures
        aimed(a, travel) < scaled(2 * a, d2),
{
    let q = TRAVEL_UNITS_PER_PIXEL as int;
    let x = travel * travel;
    let y = d2 * (q * q);
    let z = 4 * (a * a);
    assert(z > 0) by (nonlinear_arith)
        requires
            z == 4 * (a * a),
            a > 0,
    ;
    assert(z * x < z * y) by (nonlinear_arith)
        requires
            z > 0,
            x < y,
    ;
    assert((2 * a * travel) * (2 * a * travel) == z * x) by (nonlinear_arith)
        requires
            z == 4 * (a * a),
            x == travel * travel,
    ;
    let u = 2 * a;
    assert((u * q) * (u * q * d2) == (u * u) * (d2 * (q * q))) by (nonlinear_arith);
    assert(u * u == z) by (nonlinear_arith)
        requires
            u == 2 * a,
            z == 4 * (a * a),
    ;
}

proof fn lemma_scaled_monotone(k1: int, k2: int, d2: int)
    requires
        0 <= k1 <= k2,
        d2 >= 0,
    ensures
        scaled(k1, d2) <= scaled(k2, d2),
{
    let q = TRAVEL_UNITS_PER_PIXEL as int;
    assert((k1 * q) * (k1 * q * d2) <= (k2 * q) * (k2 * q * d2)) by (nonlinear_arith)
        requires
            0 <= k1 <= k2,
            d2 >= 0,
            q > 0,
    ;
}

proof fn lemma_share_unique(a: int, travel: int, d2: int, m1: int, m2: int)
    requires
        d2 >= 0,
        is_share(m1, a, travel, d2),
        is_share(m2, a, travel, d2),
    ensures
        m1 == m2,
{
    if m1 < m2 {
        lemma_scaled_monotone(2 * m1 + 1, 2 * m2 - 1, d2);
    } else if m2 < m1 {
        lemma_scaled_monotone(2 * m2 + 1, 2 * m1 - 1, d2);
    }
}

/// A value meeting the rounding condition is the share.
pub proof fn lemma_share_is(a: int, travel: int, d2: int, m: int)
    requires
        d2 >= 0,
        is_share(m, a, travel, d2),
    ensures
        share(a, travel, d2) == m,
        is_share(share(a, travel, d2), a, travel, d2),
{
    let s = share(a, travel, d2);
    assert(is_share(s, a, travel, d2));
    lemma_share_unique(a, travel, d2, m, s);
}

/// A share of a component never exceeds the component while the travel is
/// short of the whole vector.
proof fn lemma_share_at_most(a: int, travel: int, d2: int, m: int)
    requires
        0 <= a,
        a * a <= d2,
        d2 > 0,
        travel >= 0,
        travel * travel < d2 * (TRAVEL_UNITS_PER_PIXEL * TRAVEL_UNITS_PER_PIXEL),
        is_share(m, a, travel, d2),
    ensures
        m <= a,
{
    let q = TRAVEL_UNITS_PER_PIXEL as int;
    if m >= 1 {
        lemma_scaled_basics(a, travel, d2);
        if a == 0 {
            lemma_scaled_monotone(1, 2 * m - 1, d2);
        } else {
            lemma_aimed_below(a, travel, d2);
            if 2 * m - 1 >= 2 * a {
                lemma_scaled_monotone(2 * a, 2 * m - 1, d2);
            }
        }
    }
}

/// Rounding `k / 2 + 1 / 2` down, where `k` is `2 * a * travel / (Q * sqrt(d2))`
/// rounded down, gives the share.
proof fn lemma_share_from_floor(a: int, travel: int, d2: int, k: int)
    requires
        d2 >= 0,
        k >= 0,
        scaled(k, d2) <= aimed(a, travel),
        aimed(a, travel) < scaled(k + 1, d2),
    ensures
        share(a, travel, d2) == (k + 1) / 2,
        is_share((k + 1) / 2, a, travel, d2),
{
    let m = (k + 1) / 2;
    if k % 2 == 1 {
        assert(2 * m - 1 == k);
        lemma_scaled_monotone(k + 1, 2 * m + 1, d2);
    } else {
        assert(2 * m == k);
        if m >= 1 {
            lemma_scaled_monotone(2 * m - 1, k, d2);
        }
    }
    assert(is_share(m, a, travel, d2));
    lemma_share_is(a, travel, d2, m);
}

proof fn floor_index(a: int, travel: int, d2: int, k: int) -> (j: int)
    requires
        0 <= k <= 2 * a,
        d2 >= 0,
        scaled(k, d2) <= aimed(a, travel),
        aimed(a, travel) < scaled(2 * a + 1, d2),
    ensures
        j >= 0,
        scaled(j, d2) <= aimed(a, travel),
        aimed(a, travel) < scaled(j + 1, d2),
    decreases 2 * a - k,
{
    if aimed(a, travel) < scaled(k + 1, d2) {
        k
    } else {
        floor_index(a, travel, d2, k + 1)
    }
}

/// Every component of a vector has a share of a step short of the vector.
pub proof fn lemma_share_exists(a: int, travel: int, d2: int)
    requires
        0 <= a,
        a * a <= d2,
        d2 > 0,
        travel >= 0,
        travel * travel < d2 * (TRAVEL_UNITS_PER_PIXEL * TRAVEL_UNITS_PER_PIXEL),
    ensures
        is_share(share(a, travel, d2), a, travel, d2),
        share(a, travel, d2) <= a,
{
    lemma_scaled_basics(a, travel, d2);
    if a > 0 {
        lemma_aimed_below(a, travel, d2);
        lemma_scaled_monotone(2 * a, 2 * a + 1, d2);
    }
    let j = floor_index(a, travel, d2, 0);
    lemma_share_from_floor(a, travel, d2, j);
    lemma_share_at_most(a, travel, d2, share(a, travel, d2));
}

/// The share of component `a`: `a * travel / (Q * sqrt(d2))` rounded to nearest.
fn rounded_share(a: u128, travel: u128, d2: u128) -> (m: u128)
    requires
        a <= 0xffff_ffff,
        a * a <= d2,
        0 < d2 < 0x4_0000_0000_0000_0000,
        travel * travel < d2 * (TRAVEL_UNITS_PER_PIXEL * TRAVEL_UNITS_PER_PIXEL),
    ensures
        m == share(a as int, travel as int, d2 as int),
        m <= a,
{
    let q = TRAVEL_UNITS_PER_PIXEL;
    assert(travel < 0x2_0000_0000 * q) by (nonlinear_arith)
        requires
            travel * travel < d2 * (q * q),
            d2 < 0x4_0000_0000_0000_0000,
            q > 0,
            travel >= 0,
    ;
    assert(2 * a * travel < 0x1_0000_0000_0000_0000_0000_0000_0000_0000) by (nonlinear_arith)
        requires
            a <= 0xffff_ffff,
            travel < 0x2_0000_0000 * q,
            q == 200_000_000,
            travel >= 0,
    ;
    let target = 2 * a * travel;
    let mut lo: u128 = 0;
    let mut hi: u128 = 2 * a + 1;
    proof {
        lemma_scaled_basics(a as int, travel as int, d2 as int);
        if a > 0 {
            lemma_aimed_below(a as int, travel as int, d2 as int);
            lemma_scaled_monotone(2 * a, 2 * a + 1, d2 as int);
        }
    }
    while hi - lo > 1
        invariant
            lo < hi <= 2 * a + 1,
            a <= 0xffff_ffff,
            0 < d2 < 0x4_0000_0000_0000_0000,
            q == TRAVEL_UNITS_PER_PIXEL,
            target == 2 * a * travel,
            scaled(lo as int, d2 as int) <= aimed(a as int, travel as int),
            aimed(a as int, travel as int) < scaled(hi as int, d2 as int),
        decreases hi - lo,
    {
        let mid = lo + (hi - lo) / 2;
        assert(mid * q < 0x1_0000_0000_0000_0000_0000_0000 && mid * q * d2
            < 0x1_0000_0000_0000_0000_0000_0000_0000_0000) by (nonlinear_arith)
            requires
                mid <= 0x2_0000_0000,
                q == 200_000_000,
                d2 < 0x4_0000_0000_0000_0000,
        ;
        if product_le(mid * q, mid * q * d2, target, target) {
            lo = mid;
        } else {
            hi = mid;
        }
    }
    let m = (lo + 1) / 2;
    proof {
        lemma_share_from_floor(a as int, travel as int, d2 as int, lo as int);
        lemma_share_at_most(a as int, travel as int, d2 as int, m as int);
    }
    m
}

/// Whether `travel` reaches `target` from `current`:
/// `sqrt(dist_sq) * Q <= travel`.
pub open spec fn arrives(current: Point, target: Point, travel: int) -> bool {
    dist_sq(current, target) * (TRAVEL_UNITS_PER_PIXEL * TRAVEL_UNITS_PER_PIXEL) <= travel * travel
}

/// Whether both components of a short step round to nothing, so that the
/// step is made one pixel along the longer axis instead.
pub open spec fn bumped(current: Point, target: Point, travel: int) -> bool {
    let d2 = dist_sq(current, target);
    &&& travel > 0
    &&& share(abs(target.x - current.x), travel, d2) == 0
    &&& share(abs(target.y - current.y), travel, d2) == 0
}

/// Where a step of `travel` from `current` toward `target` ends: the target
/// itself when the step reaches it; otherwise each component of the step is
/// the exact one rounded to the nearest pixel, and a step that would round
/// to nothing moves one pixel along the longer axis.
pub open spec fn steer_to(current: Point, target: Point, travel: int) -> Point {
    if arrives(current, target, travel) {
        target
    } else {
        let d2 = dist_sq(current, target);
        let dx = target.x - current.x;
        let dy = target.y - current.y;
        let bump = bumped(current, target, travel);
        let mx = if bump {
            if abs(dx) >= abs(dy) {
                1
            } else {
                0
            }
        } else {
            share(abs(dx), travel, d2)
        };
        let my = if bump {
            if abs(dx) >= abs(dy) {
                0
            } else {
                1
            }
        } else {
            share(abs(dy), travel, d2)
        };
        Point { x: (current.x + signed(dx, mx)) as i32, y: (current.y + signed(dy, my)) as i32 }
    }
}

/// One step of steering: returns where the window goes, and whether it has
/// arrived at `target`.
pub fn steer(current: Point, target: Point, travel: u128) -> (r: (Point, bool))
    ensures
        r.1 == arrives(current, target, travel as int),
        r.0 == steer_to(current, target, travel as int),
{
    let dx: i64 = target.x as i64 - current.x as i64;
    let dy: i64 = target.y as i64 - current.y as i64;
    let ax: u128 = if dx < 0 {
        (-dx) as u128
    } else {
        dx as u128
    };
    let ay: u128 = if dy < 0 {
        (-dy) as u128
    } else {
        dy as u128
    };
    assert(ax * ax <= 0xffff_ffff_ffff_ffff && ay * ay <= 0xffff_ffff_ffff_ffff && ax * ax >= 0
        && ay * ay >= 0) by (nonlinear_arith)
        requires
            ax <= 0xffff_ffff,
            ay <= 0xffff_ffff,
    ;
    let d2: u128 = ax * ax + ay * ay;
    assert(d2 == dist_sq(current, target)) by (nonlinear_arith)
        requires
            d2 == ax * ax + ay * ay,
            ax == abs(dx as int),
            ay == abs(dy as int),
            dx == target.x - current.x,
            dy == target.y - current.y,
    ;
    let q = TRAVEL_UNITS_PER_PIXEL;
    if product_le(d2, q * q, travel, travel) {
        return (target, true);
    }
    let mut mx = rounded_share(ax, travel, d2);
    let mut my = rounded_share(ay, travel, d2);
    let bump = travel > 0 && mx == 0 && my == 0;
    if bump {
        if ax >= ay {
            mx = 1;
        } else {
            my = 1;
        }
        assert(mx <= ax && my <= ay) by (nonlinear_arith)
            requires
                d2 == ax * ax + ay * ay,
                d2 > 0,
                (mx == 1 && my == 0 && ax >= ay) || (my == 1 && mx == 0 && ay > ax),
        ;
    }
    let nx: i64 = if dx < 0 {
        current.x as i64 - mx as i64
    } else {
        current.x as i64 + mx as i64
    };
    let ny: i64 = if dy < 0 {
        current.y as i64 - my as i64
    } else {
        current.y as i64 + my as i64
    };
    (Point { x: nx as i32, y: ny as i32 }, false)
}

/// A step never overshoots: each coordinate of what remains to the target
/// keeps its sign and does not grow, the step is no longer than what
/// remained, and any travel at all brings the window closer. Short of the
/// target, each coordinate of the step is the exact one rounded to the
/// nearest pixel, so it is off by at most half a pixel per axis, unless the
/// whole step rounds to nothing, when it is one pixel along the longer axis.
pub proof fn lemma_steer_no_overshoot(current: Point, target: Point, travel: int)
    requires
        travel >= 0,
    ensures
        ({
            let next = steer_to(current, target, travel);
            let d2 = dist_sq(current, target);
            let dx = target.x - current.x;
            let dy = target.y - current.y;
            &&& arrives(current, target, travel) ==> next == target
            &&& abs(target.x - next.x) <= abs(dx)
            &&& abs(target.y - next.y) <= abs(dy)
            &&& (target.x - next.x) * dx >= 0
            &&& (target.y - next.y) * dy >= 0
            &&& dist_sq(next, target) <= d2
            &&& dist_sq(current, next) <= d2
            &&& (travel > 0 && current != target) ==> dist_sq(next, target) < d2
            &&& (!arrives(current, target, travel) && !bumped(current, target, travel)) ==> {
                &&& is_share(abs(next.x - current.x), abs(dx), travel, d2)
                &&& is_share(abs(next.y - current.y), abs(dy), travel, d2)
            }
            &&& (!arrives(current, target, travel) && bumped(current, target, travel)) ==> dist_sq(
                current,
                next,
            ) == 1
        }),
{
    let next = steer_to(current, target, travel);
    let dx = target.x - current.x;
    let dy = target.y - current.y;
    let d2 = dist_sq(current, target);
    let q = TRAVEL_UNITS_PER_PIXEL as int;
    assert(d2 >= 0 && dx * dx >= 0 && dy * dy >= 0) by (nonlinear_arith)
        requires
            d2 == dx * dx + dy * dy,
    ;
    if arrives(current, target, travel) {
        assert(current != target ==> d2 > 0) by (nonlinear_arith)
            requires
                d2 == dx * dx + dy * dy,
                current != target ==> dx != 0 || dy != 0,
        ;
        assert(dist_sq(target, target) == 0);
        assert(dist_sq(current, next) == d2);
    } else {
        assert(d2 > 0) by (nonlinear_arith)
            requires
                d2 * (q * q) > travel * travel,
                d2 >= 0,
                q > 0,
        ;
        let ax = abs(dx);
        let ay = abs(dy);
        assert(ax * ax == dx * dx && ay * ay == dy * dy) by (nonlinear_arith)
            requires
                ax == abs(dx),
                ay == abs(dy),
        ;
        lemma_share_exists(ax, travel, d2);
        lemma_share_exists(ay, travel, d2);
        let bump = bumped(current, target, travel);
        let mx = if bump {
            if ax >= ay {
                1
            } else {
                0
            }
        } else {
            share(ax, travel, d2)
        };
        let my = if bump {
            if ax >= ay {
                0
            } else {
                1
            }
        } else {
            share(ay, travel, d2)
        };
        assert((ax >= ay ==> ax >= 1) && (ax < ay ==> ay >= 1)) by (nonlinear_arith)
            requires
                d2 == ax * ax + ay * ay,
                d2 > 0,
                ax >= 0,
                ay >= 0,
        ;
        assert(0 <= mx <= ax && 0 <= my <= ay);
        let sx = signed(dx, mx);
        let sy = signed(dy, my);
        assert(next.x == current.x + sx);
        assert(next.y == current.y + sy);
        let rx = dx - sx;
        let ry = dy - sy;
        assert(abs(rx) <= abs(dx) && rx * dx >= 0) by (nonlinear_arith)
            requires
                rx == dx - sx,
                0 <= mx <= abs(dx),
                sx == signed(dx, mx),
        ;
        assert(abs(ry) <= abs(dy) && ry * dy >= 0) by (nonlinear_arith)
            requires
                ry == dy - sy,
                0 <= my <= abs(dy),
                sy == signed(dy, my),
        ;
        assert(rx * rx <= dx * dx && ry * ry <= dy * dy && sx * sx <= dx * dx && sy * sy <= dy
            * dy) by (nonlinear_arith)
            requires
                abs(rx) <= abs(dx),
                abs(ry) <= abs(dy),
                0 <= mx <= abs(dx),
                0 <= my <= abs(dy),
                sx == signed(dx, mx),
                sy == signed(dy, my),
        ;
        assert(dist_sq(next, target) == rx * rx + ry * ry);
        assert(dist_sq(current, next) == sx * sx + sy * sy);
        assert(abs(next.x - current.x) == mx && abs(next.y - current.y) == my);
        if bump {
            assert(sx * sx + sy * sy == 1) by (nonlinear_arith)
                requires
                    sx == signed(dx, mx),
                    sy == signed(dy, my),
                    (mx == 1 && my == 0) || (mx == 0 && my == 1),
            ;
        }
        if travel > 0 {
            if mx != 0 {
                assert(rx * rx < dx * dx) by (nonlinear_arith)
                    requires
                        rx == dx - sx,
                        sx == signed(dx, mx),
                        mx != 0,
                        abs(rx) <= abs(dx),
                        rx * dx >= 0,
                ;
            } else {
                assert(my != 0);
                assert(ry * ry < dy * dy) by (nonlinear_arith)
                    requires
                        ry == dy - sy,
                        sy == signed(dy, my),
                        my != 0,
                        abs(ry) <= abs(dy),
                        ry * dy >= 0,
                ;
            }
        }
    }
}

/// The lower edge `2m - 1` of the band that holds the share `m`, or zero for no share.
spec fn odd_part(m: int) -> int {
    if m >= 1 {
        2 * m - 1
    } else {
        0
    }
}

proof fn lemma_share_square(m: int, a: int, travel: int, d2: int)
    requires
        is_share(m, a, travel, d2),
    ensures
        (odd_part(m) * TRAVEL_UNITS_PER_PIXEL) * (odd_part(m) * TRAVEL_UNITS_PER_PIXEL) * d2 <= 4 * (
        a * a) * (travel * travel),
        4 * (m * m) <= odd_part(m) * odd_part(m) + 2 * odd_part(m) + 1,
        odd_part(m) >= 0,
{
    let q = TRAVEL_UNITS_PER_PIXEL as int;
    let w = odd_part(m);
    if m >= 1 {
        assert((w * q) * (w * q * d2) <= (2 * a * travel) * (2 * a * travel));
        assert((w * q) * (w * q * d2) == (w * q) * (w * q) * d2) by (nonlinear_arith);
        assert((2 * a * travel) * (2 * a * travel) == 4 * (a * a) * (travel * travel))
            by (nonlinear_arith);
        assert(4 * (m * m) == w * w + 2 * w + 1) by (nonlinear_arith)
            requires
                w == 2 * m - 1,
        ;
    } else {
        assert(m == 0);
        assert((0 * q) * (0 * q) * d2 == 0) by (nonlinear_arith);
        assert(4 * (a * a) * (travel * travel) >= 0) by (nonlinear_arith);
    }
}

/// Short of a bump, a step is at most `travel + 0.71` pixels long:
/// `|step| * 100 * Q <= 100 * travel + 71 * Q`.
proof fn lemma_step_within(ax: int, ay: int, travel: int, d2: int, mx: int, my: int)
    requires
        ax >= 0,
        ay >= 0,
        travel >= 0,
        d2 == ax * ax + ay * ay,
        d2 > 0,
        is_share(mx, ax, travel, d2),
        is_share(my, ay, travel, d2),
    ensures
        (mx * mx + my * my) * ((100 * TRAVEL_UNITS_PER_PIXEL) * (100 * TRAVEL_UNITS_PER_PIXEL)) <= (
        100 * travel + 71 * TRAVEL_UNITS_PER_PIXEL) * (100 * travel + 71 * TRAVEL_UNITS_PER_PIXEL),
{
    let q = TRAVEL_UNITS_PER_PIXEL as int;
    lemma_share_square(mx, ax, travel, d2);
    lemma_share_square(my, ay, travel, d2);
    let wx = odd_part(mx) * q;
    let wy = odd_part(my) * q;
    let pp = travel * travel;
    assert(wx * wx * d2 <= 4 * (ax * ax) * pp);
    assert(wy * wy * d2 <= 4 * (ay * ay) * pp);
    assert((wx * wx + wy * wy) * d2 <= (4 * pp) * d2) by (nonlinear_arith)
        requires
            wx * wx * d2 <= 4 * (ax * ax) * pp,
            wy * wy * d2 <= 4 * (ay * ay) * pp,
            d2 == ax * ax + ay * ay,
    ;
    assert(wx * wx + wy * wy <= 4 * pp) by (nonlinear_arith)
        requires
            (wx * wx + wy * wy) * d2 <= (4 * pp) * d2,
            d2 > 0,
    ;
    assert(wx >= 0 && wy >= 0) by (nonlinear_arith)
        requires
            wx == odd_part(mx) * q,
            wy == odd_part(my) * q,
            odd_part(mx) >= 0,
            odd_part(my) >= 0,
            q > 0,
    ;
    assert(100 * (wx + wy) <= 284 * travel) by (nonlinear_arith)
        requires
            wx >= 0,
            wy >= 0,
            travel >= 0,
            wx * wx + wy * wy <= 4 * pp,
            pp == travel * travel,
    ;
    let ox = odd_part(mx);
    let oy = odd_part(my);
    let m2 = mx * mx + my * my;
    assert(4 * m2 * (q * q) <= (ox * ox + 2 * ox + 1 + oy * oy + 2 * oy + 1) * (q * q))
        by (nonlinear_arith)
        requires
            4 * (mx * mx) <= ox * ox + 2 * ox + 1,
            4 * (my * my) <= oy * oy + 2 * oy + 1,
            m2 == mx * mx + my * my,
    ;
    assert((ox * ox + 2 * ox + 1 + oy * oy + 2 * oy + 1) * (q * q) == wx * wx + wy * wy + 2 * (wx
        + wy) * q + 2 * (q * q)) by (nonlinear_arith)
        requires
            wx == ox * q,
            wy == oy * q,
    ;
    assert(40000 * m2 * (q * q) <= 40000 * pp + 56800 * travel * q + 20000 * (q * q))
        by (nonlinear_arith)
        requires
            4 * m2 * (q * q) <= wx * wx + wy * wy + 2 * (wx + wy) * q + 2 * (q * q),
            wx * wx + wy * wy <= 4 * pp,
            100 * (wx + wy) <= 284 * travel,
            q > 0,
    ;
    assert(m2 * ((100 * q) * (100 * q)) <= (100 * travel + 71 * q) * (100 * travel + 71 * q))
        by (nonlinear_arith)
        requires
            40000 * m2 * (q * q) <= 40000 * pp + 56800 * travel * q + 20000 * (q * q),
            pp == travel * travel,
    ;
}

/// What remains to the target shrinks by at most the step plus 0.71 of a
/// pixel, unless a step too short to round to a pixel is bumped to one:
/// measured in hundredths of a travel unit and rounded down,
/// `old distance <= new distance + travel + 0.71 pixel`.
pub proof fn lemma_steer_within_band(current: Point, target: Point, travel: int)
    requires
        travel >= 0,
        !bumped(current, target, travel) || arrives(current, target, travel),
    ensures
        ({
            let next = steer_to(current, target, travel);
            let s = 100 * TRAVEL_UNITS_PER_PIXEL;
            let k = 100 * travel + 71 * TRAVEL_UNITS_PER_PIXEL;
            &&& dist_sq(current, next) * (s * s) <= k * k
            &&& floor_sqrt((dist_sq(current, target) * (s * s)) as nat) <= floor_sqrt(
                (dist_sq(next, target) * (s * s)) as nat,
            ) + k
        }),
{
    let q = TRAVEL_UNITS_PER_PIXEL as int;
    let s = 100 * q;
    let k = 100 * travel + 71 * q;
    let next = steer_to(current, target, travel);
    lemma_steer_no_overshoot(current, target, travel);
    let dx = target.x - current.x;
    let dy = target.y - current.y;
    let d2 = dist_sq(current, target);
    let mx = next.x - current.x;
    let my = next.y - current.y;
    let rx = target.x - next.x;
    let ry = target.y - next.y;
    let m2 = dist_sq(current, next);
    let n2 = dist_sq(next, target);
    assert(m2 == mx * mx + my * my);
    assert(n2 == rx * rx + ry * ry);
    assert(d2 >= 0 && n2 >= 0 && m2 >= 0) by (nonlinear_arith)
        requires
            d2 == dx * dx + dy * dy,
            n2 == rx * rx + ry * ry,
            m2 == mx * mx + my * my,
    ;
    assert(k >= 71 * q && s > 0);
    if arrives(current, target, travel) {
        assert(m2 == d2);
        assert(m2 * (s * s) <= k * k) by (nonlinear_arith)
            requires
                m2 * (q * q) <= travel * travel,
                s == 100 * q,
                k == 100 * travel + 71 * q,
                travel >= 0,
                q > 0,
                m2 >= 0,
        ;
    } else {
        let ax = abs(dx);
        let ay = abs(dy);
        assert(ax * ax == dx * dx && ay * ay == dy * dy) by (nonlinear_arith)
            requires
                ax == abs(dx),
                ay == abs(dy),
        ;
        assert(d2 > 0) by (nonlinear_arith)
            requires
                d2 * (q * q) > travel * travel,
                d2 >= 0,
                q > 0,
        ;
        let amx = abs(mx);
        let amy = abs(my);
        assert(amx * amx == mx * mx && amy * amy == my * my) by (nonlinear_arith)
            requires
                amx == abs(mx),
                amy == abs(my),
        ;
        lemma_step_within(ax, ay, travel, d2, amx, amy);
    }
    assert(m2 * (s * s) <= k * k);
    let ds = d2 * (s * s);
    let ns = n2 * (s * s);
    let ms = m2 * (s * s);
    let dot = (rx * mx + ry * my) * (s * s);
    assert(rx + mx == dx && ry + my == dy);
    assert(ds == ns + 2 * dot + ms) by (nonlinear_arith)
        requires
            d2 == dx * dx + dy * dy,
            n2 == rx * rx + ry * ry,
            m2 == mx * mx + my * my,
            rx + mx == dx,
            ry + my == dy,
            ds == d2 * (s * s),
            ns == n2 * (s * s),
            ms == m2 * (s * s),
            dot == (rx * mx + ry * my) * (s * s),
    ;
    let cross = rx * my - ry * mx;
    let pa = rx * mx;
    let pb = ry * my;
    let pc = rx * my;
    let pe = ry * mx;
    assert(pa * pb == pc * pe) by (nonlinear_arith)
        requires
            pa == rx * mx,
            pb == ry * my,
            pc == rx * my,
            pe == ry * mx,
    ;
    assert(pa * pa == (rx * rx) * (mx * mx) && pb * pb == (ry * ry) * (my * my) && pc * pc == (rx
        * rx) * (my * my) && pe * pe == (ry * ry) * (mx * mx)) by (nonlinear_arith)
        requires
            pa == rx * mx,
            pb == ry * my,
            pc == rx * my,
            pe == ry * mx,
    ;
    let rxx = rx * rx;
    let ryy = ry * ry;
    let mxx = mx * mx;
    let myy = my * my;
    assert(n2 * m2 == rxx * mxx + rxx * myy + ryy * mxx + ryy * myy) by (nonlinear_arith)
        requires
            n2 == rxx + ryy,
            m2 == mxx + myy,
    ;
    let dp = pa + pb;
    assert(dp * dp == pa * pa + 2 * (pa * pb) + pb * pb) by (nonlinear_arith)
        requires
            dp == pa + pb,
    ;
    assert(cross * cross == pc * pc - 2 * (pc * pe) + pe * pe) by (nonlinear_arith)
        requires
            cross == pc - pe,
    ;
    assert(cross * cross >= 0) by (nonlinear_arith);
    assert(dp * dp <= n2 * m2);
    assert(dot * dot <= ns * ms) by (nonlinear_arith)
        requires
            dp * dp <= n2 * m2,
            dot == dp * (s * s),
            ns == n2 * (s * s),
            ms == m2 * (s * s),
    ;
    let big_r = floor_sqrt(ns as nat) as int;
    lemma_floor_sqrt_exists(ns as nat);
    assert(ns >= 0 && ms >= 0) by (nonlinear_arith)
        requires
            ns == n2 * (s * s),
            ms == m2 * (s * s),
            n2 >= 0,
            m2 >= 0,
    ;
    assert(dot < (big_r + 1) * k) by (nonlinear_arith)
        requires
            dot * dot <= ns * ms,
            0 <= ns < (big_r + 1) * (big_r + 1),
            0 <= ms <= k * k,
            k > 0,
            big_r >= 0,
    ;
    assert(ds < (big_r + 1 + k) * (big_r + 1 + k)) by (nonlinear_arith)
        requires
            ds == ns + 2 * dot + ms,
            ns < (big_r + 1) * (big_r + 1),
            dot < (big_r + 1) * k,
            ms <= k * k,
    ;
    assert(ds >= 0) by (nonlinear_arith)
        requires
            ds == d2 * (s * s),
            d2 >= 0,
    ;
    let r = floor_sqrt(ds as nat) as int;
    lemma_floor_sqrt_exists(ds as nat);
    assert(r <= big_r + k) by (nonlinear_arith)
        requires
            r * r <= ds,
            ds < (big_r + 1 + k) * (big_r + 1 + k),
            r >= 0,
            big_r + 1 + k > 0,
    ;
}

} // verus!
