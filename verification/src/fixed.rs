//! Signed fixed-point numbers with 32 fractional bits.
//!
//! A [`Fixed`] stands for the rational number `raw / 2^32`. Sums, differences,
//! products and quotients saturate at the ends of the representable range, and
//! products and quotients round toward zero.

use vstd::prelude::*;

verus! {

/// The raw value of the number one.
pub const SCALE: i64 = 0x1_0000_0000;

/// A fixed-point number: `raw` counts units of `1 / SCALE`.
#[derive(Clone, Copy, Debug, PartialEq, Eq, Structural)]
pub struct Fixed {
    pub raw: i64,
}

/// The nearest value to `v` that an `i64` can hold.
pub open spec fn saturate(v: int) -> int {
    if v < i64::MIN {
        i64::MIN as int
    } else if v > i64::MAX {
        i64::MAX as int
    } else {
        v
    }
}

/// The quotient of `n` by `d`, rounded toward zero.
pub open spec fn quotient(n: int, d: int) -> int
    recommends
        d != 0,
{
    if n >= 0 && d > 0 {
        n / d
    } else if n < 0 && d > 0 {
        -((-n) / d)
    } else if n >= 0 {
        -(n / (-d))
    } else {
        (-n) / (-d)
    }
}

/// `r` is the square root of `n`, rounded down.
pub open spec fn is_root(n: int, r: int) -> bool {
    0 <= r && r * r <= n < (r + 1) * (r + 1)
}

/// The square root of a non-negative `n`, rounded down.
pub open spec fn root(n: int) -> int
    recommends
        n >= 0,
{
    choose|r: int| is_root(n, r)
}

/// At most one number is the rounded-down square root of `n`.
pub proof fn lemma_root_unique(n: int, a: int, b: int)
    requires
        is_root(n, a),
        is_root(n, b),
    ensures
        a == b,
{
    if a < b {
        assert((a + 1) * (a + 1) <= b * b) by (nonlinear_arith)
            requires
                0 <= a,
                a + 1 <= b,
        ;
    } else if b < a {
        assert((b + 1) * (b + 1) <= a * a) by (nonlinear_arith)
            requires
                0 <= b,
                b + 1 <= a,
        ;
    }
}

/// Every non-negative number has a rounded-down square root, and `root` names it.
pub proof fn lemma_root_exists(n: int)
    requires
        n >= 0,
    ensures
        is_root(n, root(n)),
    decreases n,
{
    if n == 0 {
        assert(is_root(0, 0));
    } else {
        lemma_root_exists(n - 1);
        let r = root(n - 1);
        if (r + 1) * (r + 1) <= n {
            assert((r + 2) * (r + 2) > n) by (nonlinear_arith)
                requires
                    0 <= r,
                    n - 1 < (r + 1) * (r + 1),
            ;
            assert(is_root(n, r + 1));
        } else {
            assert(is_root(n, r));
        }
    }
}

/// A number that passes the test of `is_root` is the root.
pub proof fn lemma_root_is(n: int, r: int)
    requires
        is_root(n, r),
    ensures
        root(n) == r,
{
    assert(n >= 0) by (nonlinear_arith)
        requires
            r * r <= n,
    ;
    lemma_root_exists(n);
    lemma_root_unique(n, r, root(n));
}

/// The root of a number that is at least a square is at least that square's
/// root.
pub proof fn lemma_root_at_least(n: int, m: int)
    requires
        0 <= m,
        m * m <= n,
    ensures
        root(n) >= m,
{
    lemma_root_exists(n);
    let r = root(n);
    if r < m {
        assert((r + 1) * (r + 1) <= m * m) by (nonlinear_arith)
            requires
                0 <= r,
                r + 1 <= m,
        ;
    }
}

/// The root of a number that is below a square is below that square's root.
pub proof fn lemma_root_above(n: int, m: int)
    requires
        0 <= n < m * m,
        0 <= m,
    ensures
        root(n) < m,
{
    lemma_root_exists(n);
    let r = root(n);
    if r >= m {
        assert(r * r >= m * m) by (nonlinear_arith)
            requires
                0 <= m <= r,
        ;
    }
}

/// The square root of `n`, rounded down.
pub fn isqrt(n: u128) -> (r: u64)
    ensures
        is_root(n as int, r as int),
        r as int == root(n as int),
{
    let mut lo: u128 = 0;
    let mut hi: u128 = 0x1_0000_0000_0000_0000;
    assert(0x1_0000_0000_0000_0000int * 0x1_0000_0000_0000_0000int > n) by (nonlinear_arith)
        requires
            n < 0x1_0000_0000_0000_0000_0000_0000_0000_0000,
    ;
    while hi - lo > 1
        invariant
            lo < hi <= 0x1_0000_0000_0000_0000,
            lo * lo <= n < hi * hi,
        decreases hi - lo,
    {
        let mid: u128 = lo + (hi - lo) / 2;
        assert(mid * mid < 0x1_0000_0000_0000_0000_0000_0000_0000_0000) by (nonlinear_arith)
            requires
                0 <= mid < 0x1_0000_0000_0000_0000,
        ;
        if mid * mid <= n {
            lo = mid;
        } else {
            hi = mid;
        }
    }
    proof {
        lemma_root_is(n as int, lo as int);
    }
    lo as u64
}

/// Brings a wide intermediate result back into range.
fn narrow(v: i128) -> (r: i64)
    ensures
        r as int == saturate(v as int),
{
    if v < i64::MIN as i128 {
        i64::MIN
    } else if v > i64::MAX as i128 {
        i64::MAX
    } else {
        v as i64
    }
}

/// The quotient of `n` by `d`, rounded toward zero.
fn divide(n: i128, d: i128) -> (q: i128)
    requires
        d != 0,
        i128::MIN < n,
        i128::MIN < d,
    ensures
        q as int == quotient(n as int, d as int),
{
    if n >= 0 && d > 0 {
        n / d
    } else if n < 0 && d > 0 {
        let m: i128 = -n;
        assert(0 <= (m as int) / (d as int) <= m) by (nonlinear_arith)
            requires
                m >= 0,
                d > 0,
        ;
        -(m / d)
    } else if n >= 0 {
        let e: i128 = -d;
        assert(0 <= (n as int) / (e as int) <= n) by (nonlinear_arith)
            requires
                n >= 0,
                e > 0,
        ;
        -(n / e)
    } else {
        let m: i128 = -n;
        let e: i128 = -d;
        m / e
    }
}

/// The square of a raw value, which always fits 128 bits.
pub fn square(v: i64) -> (r: u128)
    ensures
        r == v * v,
        r <= 0x4000_0000_0000_0000_0000_0000_0000_0000,
{
    let w: i128 = v as i128;
    assert(0 <= w * w <= 0x4000_0000_0000_0000_0000_0000_0000_0000) by (nonlinear_arith)
        requires
            -0x8000_0000_0000_0000 <= w <= 0x8000_0000_0000_0000,
    ;
    (w * w) as u128
}

/// `x` counted in units of `1 / SCALE`.
fn scaled(x: i64) -> (r: i128)
    ensures
        r == x * SCALE,
        r == x * 0x1_0000_0000,
{
    assert(SCALE == 0x1_0000_0000);
    x as i128 * 0x1_0000_0000
}

impl Fixed {
    /// The number zero.
    pub open spec fn zero_spec() -> Fixed {
        Fixed { raw: 0 }
    }

    /// The number one.
    pub open spec fn one_spec() -> Fixed {
        Fixed { raw: SCALE }
    }

    /// The largest number.
    pub open spec fn max_value_spec() -> Fixed {
        Fixed { raw: i64::MAX }
    }

    /// The whole number `n`.
    pub open spec fn from_int_spec(n: i32) -> Fixed {
        Fixed { raw: (n * SCALE) as i64 }
    }

    /// `num / den`, rounded down, or the largest number where that is out of range.
    pub open spec fn from_ratio_spec(num: u32, den: u32) -> Fixed
        recommends
            den > 0,
    {
        Fixed { raw: saturate((num * SCALE) / (den as int)) as i64 }
    }

    /// The saturated sum.
    pub open spec fn add_spec(self, rhs: Fixed) -> Fixed {
        Fixed { raw: saturate(self.raw + rhs.raw) as i64 }
    }

    /// The saturated difference.
    pub open spec fn sub_spec(self, rhs: Fixed) -> Fixed {
        Fixed { raw: saturate(self.raw - rhs.raw) as i64 }
    }

    /// The saturated product, rounded toward zero.
    pub open spec fn mul_spec(self, rhs: Fixed) -> Fixed {
        Fixed { raw: saturate(quotient(self.raw * rhs.raw, SCALE as int)) as i64 }
    }

    /// The saturated quotient, rounded toward zero.
    pub open spec fn div_spec(self, rhs: Fixed) -> Fixed
        recommends
            rhs.raw != 0,
    {
        Fixed { raw: saturate(quotient(self.raw * SCALE, rhs.raw as int)) as i64 }
    }

    /// `self * by / over` with the product kept in full, saturated and
    /// rounded toward zero.
    pub open spec fn mul_div_spec(self, by: Fixed, over: Fixed) -> Fixed
        recommends
            over.raw != 0,
    {
        Fixed { raw: saturate(quotient(self.raw * by.raw, over.raw as int)) as i64 }
    }

    /// The other leg of a right triangle with hypotenuse `self` and one leg
    /// `side`: the square root of `self^2 - side^2`, rounded down; zero where
    /// the side is not shorter than the hypotenuse.
    pub open spec fn leg_spec(self, side: Fixed) -> Fixed {
        let gap = self.raw * self.raw - side.raw * side.raw;
        if gap <= 0 {
            Fixed { raw: 0 }
        } else {
            Fixed { raw: saturate(root(gap)) as i64 }
        }
    }

    /// The smaller of two numbers.
    pub open spec fn min_spec(self, rhs: Fixed) -> Fixed {
        if self.raw <= rhs.raw {
            self
        } else {
            rhs
        }
    }

    /// The 8-bit level of an intensity: `floor(self * 255)`, held to `0..=255`.
    pub open spec fn to_byte_spec(self) -> u8 {
        if self.raw <= 0 {
            0u8
        } else if self.raw >= SCALE {
            255u8
        } else {
            ((self.raw * 255) / (SCALE as int)) as u8
        }
    }

    /// Builds a number from its raw count of `1 / SCALE` units.
    pub fn from_raw(raw: i64) -> (r: Fixed)
        ensures
            r.raw == raw,
    {
        Fixed { raw }
    }

    /// The number zero.
    pub fn zero() -> (r: Fixed)
        ensures
            r == Fixed::zero_spec(),
    {
        Fixed { raw: 0 }
    }

    /// The number one.
    pub fn one() -> (r: Fixed)
        ensures
            r == Fixed::one_spec(),
    {
        Fixed { raw: SCALE }
    }

    /// The largest number.
    pub fn max_value() -> (r: Fixed)
        ensures
            r == Fixed::max_value_spec(),
    {
        Fixed { raw: i64::MAX }
    }

    /// The whole number `n`.
    pub fn from_int(n: i32) -> (r: Fixed)
        ensures
            r == Fixed::from_int_spec(n),
            r.raw == n * SCALE,
    {
        Fixed { raw: scaled(n as i64) as i64 }
    }

    /// `num / den`, rounded down, or the largest number where that is out of range.
    pub fn from_ratio(num: u32, den: u32) -> (r: Fixed)
        requires
            den > 0,
        ensures
            r == Fixed::from_ratio_spec(num, den),
    {
        let n: i128 = scaled(num as i64);
        Fixed { raw: narrow(n / (den as i128)) }
    }

    /// The saturated sum.
    pub fn add(self, rhs: Fixed) -> (r: Fixed)
        ensures
            r == self.add_spec(rhs),
    {
        Fixed { raw: narrow(self.raw as i128 + rhs.raw as i128) }
    }

    /// The saturated difference.
    pub fn sub(self, rhs: Fixed) -> (r: Fixed)
        ensures
            r == self.sub_spec(rhs),
    {
        Fixed { raw: narrow(self.raw as i128 - rhs.raw as i128) }
    }

    /// The saturated product, rounded toward zero.
    pub fn mul(self, rhs: Fixed) -> (r: Fixed)
        ensures
            r == self.mul_spec(rhs),
    {
        let a: i128 = self.raw as i128;
        let b: i128 = rhs.raw as i128;
        assert(-0x4000_0000_0000_0000_0000_0000_0000_0000 <= a * b
            <= 0x4000_0000_0000_0000_0000_0000_0000_0000) by (nonlinear_arith)
            requires
                -0x8000_0000_0000_0000 <= a <= 0x8000_0000_0000_0000,
                -0x8000_0000_0000_0000 <= b <= 0x8000_0000_0000_0000,
        ;
        Fixed { raw: narrow(divide(a * b, scaled(1))) }
    }

    /// The saturated quotient, rounded toward zero.
    pub fn div(self, rhs: Fixed) -> (r: Fixed)
        requires
            rhs.raw != 0,
        ensures
            r == self.div_spec(rhs),
    {
        Fixed { raw: narrow(divide(scaled(self.raw), rhs.raw as i128)) }
    }

    /// `self * by / over`, computed without rounding the product.
    pub fn mul_div(self, by: Fixed, over: Fixed) -> (r: Fixed)
        requires
            over.raw != 0,
        ensures
            r == self.mul_div_spec(by, over),
    {
        let a: i128 = self.raw as i128;
        let b: i128 = by.raw as i128;
        assert(-0x4000_0000_0000_0000_0000_0000_0000_0000 <= a * b
            <= 0x4000_0000_0000_0000_0000_0000_0000_0000) by (nonlinear_arith)
            requires
                -0x8000_0000_0000_0000 <= a <= 0x8000_0000_0000_0000,
                -0x8000_0000_0000_0000 <= b <= 0x8000_0000_0000_0000,
        ;
        Fixed { raw: narrow(divide(a * b, over.raw as i128)) }
    }

    /// The other leg of a right triangle with hypotenuse `self` and one leg
    /// `side`, computed without rounding the squares.
    pub fn leg(self, side: Fixed) -> (r: Fixed)
        ensures
            r == self.leg_spec(side),
    {
        let h: u128 = square(self.raw);
        let s: u128 = square(side.raw);
        if h <= s {
            Fixed { raw: 0 }
        } else {
            let r: u64 = isqrt(h - s);
            if r > i64::MAX as u64 {
                Fixed { raw: i64::MAX }
            } else {
                Fixed { raw: r as i64 }
            }
        }
    }

    /// The smaller of two numbers.
    pub fn min(self, rhs: Fixed) -> (r: Fixed)
        ensures
            r == self.min_spec(rhs),
    {
        if self.raw <= rhs.raw {
            self
        } else {
            rhs
        }
    }

    /// The 8-bit level of an intensity: `floor(self * 255)`, held to `0..=255`.
    pub fn to_byte(self) -> (b: u8)
        ensures
            b == self.to_byte_spec(),
    {
        if self.raw <= 0 {
            0
        } else if self.raw >= SCALE {
            255
        } else {
            let v: i64 = (self.raw * 255) / SCALE;
            assert(0 <= v < 255) by (nonlinear_arith)
                requires
                    v == (self.raw * 255) / (SCALE as int),
                    0 < self.raw < SCALE,
                    SCALE == 0x1_0000_0000,
            ;
            v as u8
        }
    }
}

} // verus!
