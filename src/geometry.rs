//! Integer screen geometry: points, monitor sizes and an exact integer square root.

use vstd::prelude::*;

verus! {

/// A position in whole screen pixels.
#[derive(Clone, Copy, Debug, PartialEq, Eq, Structural, Hash)]
pub struct Point {
    pub x: i32,
    pub y: i32,
}

/// The pixel dimensions of the monitor the actor lives on.
#[derive(Clone, Copy, Debug, PartialEq, Eq, Structural, Hash)]
pub struct MonitorSize {
    pub width: u32,
    pub height: u32,
}

/// `v` clamped into the range of `i32`.
pub open spec fn clamp_i32(v: int) -> i32 {
    if v < i32::MIN {
        i32::MIN
    } else if v > i32::MAX {
        i32::MAX
    } else {
        v as i32
    }
}

/// `v` clamped into the range of `i32`.
pub fn clamp_to_i32(v: i64) -> (r: i32)
    ensures
        r == clamp_i32(v as int),
{
    if v < i32::MIN as i64 {
        i32::MIN
    } else if v > i32::MAX as i64 {
        i32::MAX
    } else {
        v as i32
    }
}

impl Point {
    /// The point moved by `(dx, dy)`, each coordinate held within `i32`.
    pub fn offset(self, dx: i32, dy: i32) -> (r: Point)
        ensures
            r.x == clamp_i32(self.x + dx),
            r.y == clamp_i32(self.y + dy),
    {
        Point {
            x: clamp_to_i32(self.x as i64 + dx as i64),
            y: clamp_to_i32(self.y as i64 + dy as i64),
        }
    }
}

/// Squared Euclidean distance between two points.
pub open spec fn dist_sq(a: Point, b: Point) -> int {
    (b.x - a.x) * (b.x - a.x) + (b.y - a.y) * (b.y - a.y)
}

/// `r` is the square root of `n`, rounded down.
pub open spec fn is_floor_sqrt(n: int, r: int) -> bool {
    0 <= r && r * r <= n < (r + 1) * (r + 1)
}

/// The square root of `n`, rounded down.
pub open spec fn floor_sqrt(n: nat) -> nat {
    choose|r: nat| is_floor_sqrt(n as int, r as int)
}

proof fn lemma_floor_sqrt_unique(n: int, r: int, s: int)
    requires
        is_floor_sqrt(n, r),
        is_floor_sqrt(n, s),
    ensures
        r == s,
{
    if r < s {
        assert((r + 1) * (r + 1) <= s * s) by (nonlinear_arith)
            requires
                0 <= r < s,
        ;
    } else if s < r {
        assert((s + 1) * (s + 1) <= r * r) by (nonlinear_arith)
            requires
                0 <= s < r,
        ;
    }
}

/// Any root found for `n` is the one `floor_sqrt` names.
pub proof fn lemma_floor_sqrt_is(n: nat, r: nat)
    requires
        is_floor_sqrt(n as int, r as int),
    ensures
        floor_sqrt(n) == r,
{
    let s = floor_sqrt(n);
    assert(is_floor_sqrt(n as int, s as int));
    lemma_floor_sqrt_unique(n as int, r as int, s as int);
}

/// A value at most `n` squared is at most the floor of the square root of `n`.
pub proof fn lemma_below_floor_sqrt(n: nat, k: nat)
    requires
        k * k <= n,
    ensures
        k <= floor_sqrt(n),
{
    let r = floor_sqrt(n);
    assert(is_floor_sqrt(n as int, r as int)) by {
        lemma_floor_sqrt_exists(n);
    }
    if k > r {
        assert((r + 1) * (r + 1) <= k * k) by (nonlinear_arith)
            requires
                0 <= r < k,
        ;
    }
}

/// Every natural number has a floor square root.
pub proof fn lemma_floor_sqrt_exists(n: nat)
    ensures
        is_floor_sqrt(n as int, floor_sqrt(n) as int),
{
    let r = isqrt_witness(n);
    assert(is_floor_sqrt(n as int, r as int));
}

proof fn isqrt_witness(n: nat) -> (r: nat)
    ensures
        is_floor_sqrt(n as int, r as int),
    decreases n,
{
    if n == 0 {
        assert(is_floor_sqrt(0, 0));
        0
    } else {
        let p = isqrt_witness((n - 1) as nat);
        if (p + 1) * (p + 1) <= n {
            assert(n < (p + 2) * (p + 2)) by (nonlinear_arith)
                requires
                    n - 1 < (p + 1) * (p + 1),
                    n >= 1,
                    p >= 0,
            ;
            assert(is_floor_sqrt(n as int, (p + 1) as int));
            p + 1
        } else {
            assert(is_floor_sqrt(n as int, p as int));
            p
        }
    }
}

/// The square root of `n`, rounded down, by bisection.
pub fn isqrt(n: u128) -> (r: u128)
    ensures
        r == floor_sqrt(n as nat),
        is_floor_sqrt(n as int, r as int),
{
    let mut lo: u128 = 0;
    let mut hi: u128 = 0x1_0000_0000_0000_0000;
    assert(hi * hi > n);
    while hi - lo > 1
        invariant
            lo < hi <= 0x1_0000_0000_0000_0000,
            lo * lo <= n,
            n < hi * hi,
        decreases hi - lo,
    {
        let mid: u128 = lo + (hi - lo) / 2;
        assert(mid * mid < 0x1_0000_0000_0000_0000_0000_0000_0000_0000) by (nonlinear_arith)
            requires
                mid < 0x1_0000_0000_0000_0000,
        ;
        if mid * mid <= n {
            lo = mid;
        } else {
            hi = mid;
        }
    }
    assert(hi == lo + 1);
    proof {
        lemma_floor_sqrt_is(n as nat, lo as nat);
    }
    lo
}

/// Half the width of a `u128`, as a factor.
pub const HALF_WORD: u128 = 0x1_0000_0000_0000_0000;

proof fn lemma_split_product(x: int, y: int, m: int, xh: int, xl: int, yh: int, yl: int)
    requires
        x == xh * m + xl,
        y == yh * m + yl,
    ensures
        x * y == (xh * yh) * (m * m) + (xl * yh) * m + (xh * yl) * m + xl * yl,
{
    let a = xh * m;
    let b = yh * m;
    assert((a + xl) * (b + yl) == a * b + a * yl + xl * b + xl * yl) by (nonlinear_arith);
    assert(a * b == (xh * yh) * (m * m)) by (nonlinear_arith)
        requires
            a == xh * m,
            b == yh * m,
    ;
    assert(a * yl == (xh * yl) * m) by (nonlinear_arith)
        requires
            a == xh * m,
    ;
    assert(xl * b == (xl * yh) * m) by (nonlinear_arith)
        requires
            b == yh * m,
    ;
}

proof fn lemma_div_mod_parts(v: int, m: int)
    requires
        m > 0,
        v >= 0,
    ensures
        v == (v / m) * m + v % m,
        0 <= v % m < m,
        v / m >= 0,
{
    assert(v == (v / m) * m + v % m && 0 <= v % m < m && v / m >= 0) by (nonlinear_arith)
        requires
            m > 0,
            v >= 0,
    ;
}

/// The full product of two `u128`s, as its high and low halves.
pub fn wide_mul(x: u128, y: u128) -> (r: (u128, u128))
    ensures
        r.0 * (HALF_WORD * HALF_WORD) + r.1 == x * y,
{
    let m = HALF_WORD;
    let xh = x / m;
    let xl = x % m;
    let yh = y / m;
    let yl = y % m;
    proof {
        lemma_div_mod_parts(x as int, m as int);
        lemma_div_mod_parts(y as int, m as int);
        assert(xh < m && yh < m) by (nonlinear_arith)
            requires
                x == xh * m + xl,
                y == yh * m + yl,
                x < m * m,
                y < m * m,
                xl >= 0,
                yl >= 0,
                m > 0,
        ;
    }
    assert(xh * yh <= (m - 1) * (m - 1) && xl * yh <= (m - 1) * (m - 1) && xh * yl <= (m - 1) * (m
        - 1) && xl * yl <= (m - 1) * (m - 1)) by (nonlinear_arith)
        requires
            0 <= xh < m,
            0 <= xl < m,
            0 <= yh < m,
            0 <= yl < m,
    ;
    let hh = xh * yh;
    let lh = xl * yh;
    let hl = xh * yl;
    let ll = xl * yl;
    proof {
        lemma_split_product(x as int, y as int, m as int, xh as int, xl as int, yh as int, yl as int);
        lemma_div_mod_parts(hh as int, m as int);
        lemma_div_mod_parts(lh as int, m as int);
        lemma_div_mod_parts(hl as int, m as int);
        lemma_div_mod_parts(ll as int, m as int);
        assert(lh / m < m - 1 && hl / m < m - 1 && ll / m < m - 1) by (nonlinear_arith)
            requires
                lh == (lh / m) * m + lh % m,
                hl == (hl / m) * m + hl % m,
                ll == (ll / m) * m + ll % m,
                0 <= lh % m,
                0 <= hl % m,
                0 <= ll % m,
                lh <= (m - 1) * (m - 1),
                hl <= (m - 1) * (m - 1),
                ll <= (m - 1) * (m - 1),
                m == 0x1_0000_0000_0000_0000,
        ;
    }
    let mid = ll / m + lh % m + hl % m;
    let lo_low = ll % m;
    proof {
        lemma_div_mod_parts(mid as int, m as int);
        assert(mid / m <= 2) by (nonlinear_arith)
            requires
                mid == (mid / m) * m + mid % m,
                0 <= mid % m,
                mid < 3 * m,
                m > 0,
        ;
        assert((mid % m) * m + lo_low < m * m) by (nonlinear_arith)
            requires
                0 <= mid % m < m,
                0 <= lo_low < m,
        ;
    }
    let lo = (mid % m) * m + lo_low;
    let hi = hh + lh / m + hl / m + mid / m;
    proof {
        let mm = m * m;
        assert((lh / m * m + lh % m) * m == (lh / m) * mm + (lh % m) * m) by (nonlinear_arith)
            requires
                mm == m * m,
        ;
        assert((hl / m * m + hl % m) * m == (hl / m) * mm + (hl % m) * m) by (nonlinear_arith)
            requires
                mm == m * m,
        ;
        assert((mid / m * m + mid % m) * m == (mid / m) * mm + (mid % m) * m) by (nonlinear_arith)
            requires
                mm == m * m,
        ;
        assert(mid * m == (ll / m) * m + (lh % m) * m + (hl % m) * m) by (nonlinear_arith)
            requires
                mid == ll / m + lh % m + hl % m,
        ;
        assert(hi * mm == hh * mm + (lh / m) * mm + (hl / m) * mm + (mid / m) * mm)
            by (nonlinear_arith)
            requires
                hi == hh + lh / m + hl / m + mid / m,
        ;
    }
    (hi, lo)
}

/// Whether `a * b <= c * d`, for any four `u128`s.
pub fn product_le(a: u128, b: u128, c: u128, d: u128) -> (r: bool)
    ensures
        r == (a * b <= c * d),
{
    let (h1, l1) = wide_mul(a, b);
    let (h2, l2) = wide_mul(c, d);
    let ghost w: int = HALF_WORD * HALF_WORD;
    proof {
        assert(h1 < h2 ==> h1 * w + l1 < h2 * w + l2) by (nonlinear_arith)
            requires
                0 <= l1 < w,
                0 <= l2 < w,
        ;
        assert(h2 < h1 ==> h2 * w + l2 < h1 * w + l1) by (nonlinear_arith)
            requires
                0 <= l1 < w,
                0 <= l2 < w,
        ;
    }
    if h1 != h2 {
        h1 < h2
    } else {
        l1 <= l2
    }
}

} // verus!
