//! Integer geometry: wrapped positions, clamping, squared distances and an
//! exact integer square root. Everything works in millis (see the crate doc).

use vstd::prelude::*;

verus! {

/// Euclidean squared distance between two points.
pub open spec fn dist2(a: (i64, i64), b: (i64, i64)) -> int {
    (a.0 - b.0) * (a.0 - b.0) + (a.1 - b.1) * (a.1 - b.1)
}

/// Clamp `x` into `[lo, hi]`.
pub open spec fn clamp_spec(x: int, lo: int, hi: int) -> int {
    if x < lo {
        lo
    } else if x > hi {
        hi
    } else {
        x
    }
}

/// Wrap `x` into `[0, w)`, for `x` at most one world off either side.
pub open spec fn wrap_spec(x: int, w: int) -> int {
    if x < 0 {
        x + w
    } else if x >= w {
        x - w
    } else {
        x
    }
}

/// Clamp `x` into `[lo, hi]`.
pub fn clamp(x: i64, lo: i64, hi: i64) -> (r: i64)
    requires
        lo <= hi,
    ensures
        r == clamp_spec(x as int, lo as int, hi as int),
{
    if x < lo {
        lo
    } else if x > hi {
        hi
    } else {
        x
    }
}

/// Wrap `x` into `[0, w)`; the caller keeps `x` within one world of bounds.
pub fn wrap(x: i64, w: i64) -> (r: i64)
    requires
        0 < w,
        -w <= x < 2 * w,
    ensures
        r == wrap_spec(x as int, w as int),
        0 <= r < w,
{
    if x < 0 {
        x + w
    } else if x >= w {
        x - w
    } else {
        x
    }
}

/// Squared distance, executable. Both points stay within the index range,
/// so the squares fit comfortably in an `i64`.
pub fn dist2_exec(a: (i64, i64), b: (i64, i64)) -> (r: i64)
    requires
        -2_000_000_000 <= a.0 - b.0 <= 2_000_000_000,
        -2_000_000_000 <= a.1 - b.1 <= 2_000_000_000,
    ensures
        r == dist2(a, b),
        r >= 0,
{
    let dx = a.0 - b.0;
    let dy = a.1 - b.1;
    proof {
        assert(0 <= dx * dx <= 4_000_000_000_000_000_000) by (nonlinear_arith)
            requires
                -2_000_000_000 <= dx <= 2_000_000_000,
        ;
        assert(0 <= dy * dy <= 4_000_000_000_000_000_000) by (nonlinear_arith)
            requires
                -2_000_000_000 <= dy <= 2_000_000_000,
        ;
    }
    dx * dx + dy * dy
}

/// One half-turn, in milliradians.
pub const PI_MRAD: i64 = 3141;

/// One full turn, in milliradians: exactly two half-turns.
pub const TAU_MRAD: i64 = 6282;

/// `5 · PI_MRAD²`, the constant of the rational sine approximation.
pub const FIVE_PI_SQ: i64 = 49_329_405;

/// A quarter-turn, in milliradians.
pub const QUARTER_MRAD: i64 = 1570;

/// Rational approximation of `1000 · sin(x/1000)` on the first half-turn.
pub open spec fn half_sin_spec(x: int) -> int {
    16_000 * (x * (PI_MRAD - x)) / (FIVE_PI_SQ - 4 * (x * (PI_MRAD - x)))
}

/// `1000 · sin(theta/1000)`, approximated, over a full turn.
pub open spec fn sin_milli_spec(theta: int) -> int {
    if theta <= PI_MRAD {
        half_sin_spec(theta)
    } else {
        -half_sin_spec(theta - PI_MRAD)
    }
}

/// `1000 · cos(theta/1000)`: the sine a quarter-turn ahead.
pub open spec fn cos_milli_spec(theta: int) -> int {
    if theta + QUARTER_MRAD < TAU_MRAD {
        sin_milli_spec(theta + QUARTER_MRAD)
    } else {
        sin_milli_spec(theta + QUARTER_MRAD - TAU_MRAD)
    }
}

/// Sine over the first half-turn, in millis.
fn half_sin(x: i64) -> (r: i64)
    requires
        0 <= x <= PI_MRAD,
    ensures
        r == half_sin_spec(x as int),
        0 <= r <= 1000,
{
    proof {
        assert(0 <= x * (3141 - x) <= 2_466_471 && 4 * (x * (3141 - x)) <= 3141 * 3141)
            by (nonlinear_arith)
            requires
                0 <= x <= 3141,
        ;
    }
    let a = x * (PI_MRAD - x);
    let num = 16_000 * a;
    let den = FIVE_PI_SQ - 4 * a;
    proof {
        vstd::arithmetic::div_mod::lemma_div_pos_is_pos(num as int, den as int);
        vstd::arithmetic::div_mod::lemma_div_is_ordered(num as int, 1000 * den, den as int);
        vstd::arithmetic::div_mod::lemma_div_by_multiple(1000, den as int);
    }
    num / den
}

/// Sine of a wrapped angle, in millis.
pub fn sin_milli(theta: i64) -> (r: i64)
    requires
        0 <= theta < TAU_MRAD,
    ensures
        r == sin_milli_spec(theta as int),
        -1000 <= r <= 1000,
{
    if theta <= PI_MRAD {
        half_sin(theta)
    } else {
        -half_sin(theta - PI_MRAD)
    }
}

/// Cosine of a wrapped angle, in millis.
pub fn cos_milli(theta: i64) -> (r: i64)
    requires
        0 <= theta < TAU_MRAD,
    ensures
        r == cos_milli_spec(theta as int),
        -1000 <= r <= 1000,
{
    let mut a = theta + QUARTER_MRAD;
    if a >= TAU_MRAD {
        a = a - TAU_MRAD;
    }
    sin_milli(a)
}

/// Integer square root: the unique `r` with `r² <= n < (r+1)²`.
pub open spec fn is_isqrt(n: int, r: int) -> bool {
    &&& 0 <= r
    &&& r * r <= n
    &&& n < (r + 1) * (r + 1)
}

/// The integer square root as a value, for specifications.
pub open spec fn sqrt_of(n: int) -> int {
    choose|r: int| is_isqrt(n, r)
}

/// Every nonnegative integer has an integer square root.
pub proof fn lemma_isqrt_exists(n: int)
    requires
        0 <= n,
    ensures
        exists|r: int| is_isqrt(n, r),
    decreases n,
{
    if n == 0 {
        assert(is_isqrt(0, 0));
    } else {
        lemma_isqrt_exists(n - 1);
        let r = sqrt_of(n - 1);
        assert(is_isqrt(n - 1, r));
        if n < (r + 1) * (r + 1) {
            assert(is_isqrt(n, r));
        } else {
            assert(is_isqrt(n, r + 1)) by (nonlinear_arith)
                requires
                    0 <= r,
                    r * r <= n - 1,
                    n - 1 < (r + 1) * (r + 1),
                    n >= (r + 1) * (r + 1),
            ;
        }
    }
}

/// The integer square root is unique, so any witness equals `sqrt_of`.
pub proof fn lemma_isqrt_unique(n: int, r: int)
    requires
        is_isqrt(n, r),
    ensures
        r == sqrt_of(n),
{
    assert(exists|x: int| is_isqrt(n, x));
    let c = sqrt_of(n);
    assert(is_isqrt(n, c));
    assert(r == c) by (nonlinear_arith)
        requires
            0 <= r,
            r * r <= n,
            n < (r + 1) * (r + 1),
            0 <= c,
            c * c <= n,
            n < (c + 1) * (c + 1),
    ;
}

/// The root of a sum of squares dominates both components; it is positive
/// as soon as either component is nonzero.
pub proof fn lemma_sqrt_dominates(dx: int, dy: int)
    ensures
        sqrt_of(dx * dx + dy * dy) >= 0,
        -sqrt_of(dx * dx + dy * dy) <= dx <= sqrt_of(dx * dx + dy * dy),
        -sqrt_of(dx * dx + dy * dy) <= dy <= sqrt_of(dx * dx + dy * dy),
        dx != 0 || dy != 0 ==> sqrt_of(dx * dx + dy * dy) >= 1,
{
    assert(0 <= dx * dx + dy * dy) by (nonlinear_arith);
    lemma_isqrt_exists(dx * dx + dy * dy);
    let l = sqrt_of(dx * dx + dy * dy);
    assert(is_isqrt(dx * dx + dy * dy, l));
    assert(-l <= dx <= l && -l <= dy <= l && ((dx != 0 || dy != 0) ==> l >= 1))
        by (nonlinear_arith)
        requires
            0 <= l,
            l * l <= dx * dx + dy * dy,
            dx * dx + dy * dy < (l + 1) * (l + 1),
    ;
}

/// Integer square root by binary search.
pub fn isqrt(n: i64) -> (r: i64)
    requires
        0 <= n,
    ensures
        is_isqrt(n as int, r as int),
        r == sqrt_of(n as int),
        0 <= r <= 3_037_000_499,
{
    let mut lo: i64 = 0;
    let mut hi: i64 = 3_037_000_499;
    if n < hi {
        hi = n;
    }
    // invariant: lo² <= n < (hi+1)²
    proof {
        assert(n < 3_037_000_499 ==> n < (n + 1) * (n + 1)) by (nonlinear_arith)
            requires
                0 <= n,
        ;
        assert(3_037_000_499 <= n ==> (n as int) < 3_037_000_500 * 3_037_000_500)
            by (nonlinear_arith)
            requires
                n <= i64::MAX,
        ;
    }
    while lo < hi
        invariant
            0 <= lo <= hi <= 3_037_000_499,
            lo * lo <= n,
            n < (hi + 1) * (hi + 1),
        decreases hi - lo,
    {
        let mid = lo + (hi - lo + 1) / 2;
        proof {
            assert(0 <= mid * mid <= 3_037_000_499 * 3_037_000_499) by (nonlinear_arith)
                requires
                    0 <= mid <= 3_037_000_499,
            ;
        }
        let sq = mid * mid;
        if sq <= n {
            lo = mid;
        } else {
            hi = mid - 1;
        }
    }
    proof {
        lemma_isqrt_unique(n as int, lo as int);
    }
    lo
}

/// The length of a difference vector whose components fit the coordinate
/// range.
pub fn vec_len(dx: i64, dy: i64) -> (r: i64)
    requires
        -1_000_000_000 <= dx <= 1_000_000_000,
        -1_000_000_000 <= dy <= 1_000_000_000,
    ensures
        r == sqrt_of(dx * dx + dy * dy),
        is_isqrt(dx * dx + dy * dy, r as int),
        0 <= r <= 3_037_000_499,
{
    proof {
        assert(0 <= dx * dx <= 1_000_000_000_000_000_000 && 0 <= dy * dy
            <= 1_000_000_000_000_000_000) by (nonlinear_arith)
            requires
                -1_000_000_000 <= dx <= 1_000_000_000,
                -1_000_000_000 <= dy <= 1_000_000_000,
        ;
    }
    isqrt(dx * dx + dy * dy)
}

/// Signed proportional scaling `d · ms / len`, truncating toward zero as
/// the executable code does.
pub open spec fn scale_spec(d: int, ms: int, len: int) -> int {
    if d >= 0 {
        d * ms / len
    } else {
        -((-d) * ms / len)
    }
}

/// One component of a direction vector, scaled so the whole vector has
/// magnitude about `ms`. Never exceeds `ms` in absolute value.
pub fn scale_dir(d: i64, ms: i64, len: i64) -> (r: i64)
    requires
        1 <= len <= 3_100_000_000,
        0 <= ms <= 1_000_000,
        -len <= d <= len,
    ensures
        r == scale_spec(d as int, ms as int, len as int),
        -ms <= r <= ms,
{
    if d >= 0 {
        proof {
            assert(0 <= d * ms <= len * ms && len * ms <= 3_100_000_000 * 1_000_000)
                by (nonlinear_arith)
                requires
                    1 <= len <= 3_100_000_000,
                    0 <= ms <= 1_000_000,
                    0 <= d <= len,
            ;
            vstd::arithmetic::div_mod::lemma_div_pos_is_pos(d * ms, len as int);
            vstd::arithmetic::div_mod::lemma_div_is_ordered(d * ms, len * ms, len as int);
            vstd::arithmetic::div_mod::lemma_div_by_multiple(ms as int, len as int);
            assert(len * ms == ms * len) by (nonlinear_arith);
        }
        (d * ms) / len
    } else {
        let e = -d;
        proof {
            assert(0 <= e * ms <= len * ms && len * ms <= 3_100_000_000 * 1_000_000)
                by (nonlinear_arith)
                requires
                    1 <= len <= 3_100_000_000,
                    0 <= ms <= 1_000_000,
                    0 <= e <= len,
            ;
            vstd::arithmetic::div_mod::lemma_div_pos_is_pos(e * ms, len as int);
            vstd::arithmetic::div_mod::lemma_div_is_ordered(e * ms, len * ms, len as int);
            vstd::arithmetic::div_mod::lemma_div_by_multiple(ms as int, len as int);
            assert(len * ms == ms * len) by (nonlinear_arith);
        }
        -((e * ms) / len)
    }
}

/// `c · m / 1000` for a millis-scaled factor `c`, truncating toward zero.
pub open spec fn mul_div1000_spec(c: int, m: int) -> int {
    if c >= 0 {
        c * m / 1000
    } else {
        -((-c) * m / 1000)
    }
}

/// Scale `m` by the millis factor `c` in `[-1000, 1000]`; the result never
/// exceeds `m` in absolute value.
pub fn mul_div1000(c: i64, m: i64) -> (r: i64)
    requires
        -1000 <= c <= 1000,
        0 <= m <= 100_000,
    ensures
        r == mul_div1000_spec(c as int, m as int),
        -m <= r <= m,
{
    if c >= 0 {
        proof {
            assert(0 <= c * m <= 1000 * m) by (nonlinear_arith)
                requires
                    0 <= c <= 1000,
                    0 <= m,
            ;
            vstd::arithmetic::div_mod::lemma_div_pos_is_pos(c * m, 1000);
            vstd::arithmetic::div_mod::lemma_div_is_ordered(c * m, 1000 * m, 1000);
            vstd::arithmetic::div_mod::lemma_div_by_multiple(m as int, 1000);
            assert(1000 * m == m * 1000) by (nonlinear_arith);
        }
        (c * m) / 1000
    } else {
        let e = -c;
        proof {
            assert(0 <= e * m <= 1000 * m) by (nonlinear_arith)
                requires
                    0 <= e <= 1000,
                    0 <= m,
            ;
            vstd::arithmetic::div_mod::lemma_div_pos_is_pos(e * m, 1000);
            vstd::arithmetic::div_mod::lemma_div_is_ordered(e * m, 1000 * m, 1000);
            vstd::arithmetic::div_mod::lemma_div_by_multiple(m as int, 1000);
            assert(1000 * m == m * 1000) by (nonlinear_arith);
        }
        -((e * m) / 1000)
    }
}

/// Damping by the fixed factor 0.9, truncating toward zero.
pub open spec fn damp_spec(x: int) -> int {
    if x >= 0 {
        9 * x / 10
    } else {
        -(9 * (-x) / 10)
    }
}

/// Damp an acceleration component; the magnitude never grows.
pub fn damp(x: i64) -> (r: i64)
    requires
        -100_000 <= x <= 100_000,
    ensures
        r == damp_spec(x as int),
        -90_000 <= r <= 90_000,
        x >= 0 ==> 0 <= r <= x,
        x < 0 ==> x <= r <= 0,
{
    if x >= 0 {
        proof {
            vstd::arithmetic::div_mod::lemma_div_pos_is_pos(9 * x, 10);
            vstd::arithmetic::div_mod::lemma_div_is_ordered(9 * x, 10 * x, 10);
            vstd::arithmetic::div_mod::lemma_div_by_multiple(x as int, 10);
            assert(10 * x == x * 10) by (nonlinear_arith);
        }
        (9 * x) / 10
    } else {
        let e = -x;
        proof {
            vstd::arithmetic::div_mod::lemma_div_pos_is_pos(9 * e, 10);
            vstd::arithmetic::div_mod::lemma_div_is_ordered(9 * e, 10 * e, 10);
            vstd::arithmetic::div_mod::lemma_div_by_multiple(e as int, 10);
            assert(10 * e == e * 10) by (nonlinear_arith);
        }
        -((9 * e) / 10)
    }
}

} // verus!
