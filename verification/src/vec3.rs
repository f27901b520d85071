//! Three-component vectors of fixed-point numbers, used as points, directions
//! and colours.

use crate::fixed::{
    isqrt, lemma_root_above, lemma_root_at_least, lemma_root_exists, quotient, root, saturate, square,
    Fixed, SCALE,
};
use vstd::prelude::*;

verus! {

/// How far, in units of `1 / SCALE`, the length of a vector may lie from one
/// for the vector to count as a unit vector: about one part in ten thousand.
pub const UNIT_TOLERANCE: i64 = 429_497;

/// The least length, in units of `1 / SCALE`, from which normalising is sure
/// to give a unit vector.
pub const SHORTEST_NORMALIZED: i64 = 10_000;

/// A point, a direction or a colour.
#[derive(Clone, Copy, Debug, PartialEq, Eq, Structural)]
pub struct Vec3 {
    pub x: Fixed,
    pub y: Fixed,
    pub z: Fixed,
}

impl Vec3 {
    /// The sum of the squares of the raw components.
    pub open spec fn norm_squared(self) -> int {
        self.x.raw * self.x.raw + self.y.raw * self.y.raw + self.z.raw * self.z.raw
    }

    /// The Euclidean length, rounded down, saturated at the largest number.
    pub open spec fn len_spec(self) -> Fixed {
        Fixed { raw: saturate(root(self.norm_squared())) as i64 }
    }

    /// The component-wise sum.
    pub open spec fn add_spec(self, rhs: Vec3) -> Vec3 {
        Vec3 {
            x: self.x.add_spec(rhs.x),
            y: self.y.add_spec(rhs.y),
            z: self.z.add_spec(rhs.z),
        }
    }

    /// The component-wise difference.
    pub open spec fn sub_spec(self, rhs: Vec3) -> Vec3 {
        Vec3 {
            x: self.x.sub_spec(rhs.x),
            y: self.y.sub_spec(rhs.y),
            z: self.z.sub_spec(rhs.z),
        }
    }

    /// Every component multiplied by `k`.
    pub open spec fn scale_spec(self, k: Fixed) -> Vec3 {
        Vec3 { x: self.x.mul_spec(k), y: self.y.mul_spec(k), z: self.z.mul_spec(k) }
    }

    /// The component-wise product.
    pub open spec fn mul_spec(self, rhs: Vec3) -> Vec3 {
        Vec3 {
            x: self.x.mul_spec(rhs.x),
            y: self.y.mul_spec(rhs.y),
            z: self.z.mul_spec(rhs.z),
        }
    }

    /// Every component divided by the length.
    pub open spec fn normalize_spec(self) -> Vec3
        recommends
            self.len_spec().raw > 0,
    {
        let l = self.len_spec();
        Vec3 { x: self.x.div_spec(l), y: self.y.div_spec(l), z: self.z.div_spec(l) }
    }

    /// The length is within `UNIT_TOLERANCE` of one.
    pub open spec fn is_unit_spec(self) -> bool {
        SCALE - UNIT_TOLERANCE <= self.len_spec().raw <= SCALE + UNIT_TOLERANCE
    }

    /// The 8-bit levels of the three components.
    pub open spec fn u8_rgb_spec(self) -> Seq<u8> {
        seq![self.x.to_byte_spec(), self.y.to_byte_spec(), self.z.to_byte_spec()]
    }

    /// The vector with the given components.
    pub fn new(x: Fixed, y: Fixed, z: Fixed) -> (v: Vec3)
        ensures
            v == (Vec3 { x, y, z }),
    {
        Vec3 { x, y, z }
    }

    /// The Euclidean length, rounded down to the grid of representable numbers.
    pub fn len(&self) -> (l: Fixed)
        ensures
            l == self.len_spec(),
            l.raw >= 0,
    {
        let n: u128 = square(self.x.raw) + square(self.y.raw) + square(self.z.raw);
        let r: u64 = isqrt(n);
        if r > i64::MAX as u64 {
            Fixed { raw: i64::MAX }
        } else {
            Fixed { raw: r as i64 }
        }
    }

    /// Whether the length is within `UNIT_TOLERANCE` of one.
    pub fn is_unit(&self) -> (ok: bool)
        ensures
            ok == self.is_unit_spec(),
    {
        let l = self.len();
        SCALE - UNIT_TOLERANCE <= l.raw && l.raw <= SCALE + UNIT_TOLERANCE
    }

    /// The vector of the same direction and length one: every component
    /// divided by the length, which must not be zero. The result is a unit
    /// vector wherever the length is at least `SHORTEST_NORMALIZED` and below
    /// the largest number.
    pub fn normalize(&self) -> (v: Vec3)
        requires
            self.len_spec().raw > 0,
        ensures
            v == self.normalize_spec(),
            SHORTEST_NORMALIZED <= self.len_spec().raw < i64::MAX ==> v.is_unit_spec(),
    {
        proof {
            if SHORTEST_NORMALIZED <= self.len_spec().raw < i64::MAX {
                lemma_normalize_is_unit(*self);
            }
        }
        let l = self.len();
        Vec3 { x: self.x.div(l), y: self.y.div(l), z: self.z.div(l) }
    }

    /// The colour as 8-bit red, green and blue: each component times 255,
    /// rounded down and held to `0..=255`.
    pub fn u8_rgb(&self) -> (rgb: [u8; 3])
        ensures
            rgb@ == self.u8_rgb_spec(),
    {
        let rgb = [self.x.to_byte(), self.y.to_byte(), self.z.to_byte()];
        assert(rgb@ =~= self.u8_rgb_spec());
        rgb
    }

    /// The component-wise sum.
    pub fn add(self, rhs: Vec3) -> (v: Vec3)
        ensures
            v == self.add_spec(rhs),
    {
        Vec3 { x: self.x.add(rhs.x), y: self.y.add(rhs.y), z: self.z.add(rhs.z) }
    }

    /// The component-wise difference.
    pub fn sub(self, rhs: Vec3) -> (v: Vec3)
        ensures
            v == self.sub_spec(rhs),
    {
        Vec3 { x: self.x.sub(rhs.x), y: self.y.sub(rhs.y), z: self.z.sub(rhs.z) }
    }

    /// Every component multiplied by `k`.
    pub fn scale(self, k: Fixed) -> (v: Vec3)
        ensures
            v == self.scale_spec(k),
    {
        Vec3 { x: self.x.mul(k), y: self.y.mul(k), z: self.z.mul(k) }
    }

    /// The component-wise product.
    pub fn mul(self, rhs: Vec3) -> (v: Vec3)
        ensures
            v == self.mul_spec(rhs),
    {
        Vec3 { x: self.x.mul(rhs.x), y: self.y.mul(rhs.y), z: self.z.mul(rhs.z) }
    }
}

/// What dividing one component `c` by the length `l` does: the quotient `q`
/// has a square that `l^2` carries to within `2 * l^2 * s` below `c^2 * s^2`.
proof fn lemma_component_quotient(c: int, l: int, s: int) -> (q: int)
    requires
        -l <= c <= l,
        l > 0,
        s > 0,
    ensures
        q == quotient(c * s, l),
        -s <= q <= s,
        (l * l) * (q * q) <= (c * c) * (s * s),
        (l * l) * (q * q) >= (c * c) * (s * s) - 2 * ((l * l) * s),
{
    let a = if c >= 0 { c } else { -c };
    let p = (a * s) / l;
    assert(a * s >= 0) by (nonlinear_arith)
        requires
            a >= 0,
            s > 0,
    ;
    assert(0 <= l * p <= a * s < l * p + l) by (nonlinear_arith)
        requires
            p == (a * s) / l,
            l > 0,
            a * s >= 0,
    ;
    assert(0 <= p <= s) by (nonlinear_arith)
        requires
            0 <= l * p <= a * s,
            a <= l,
            l > 0,
            s > 0,
    ;
    let q = if c >= 0 { p } else { -p };
    assert(q == quotient(c * s, l)) by {
        if c >= 0 {
            assert(c * s == a * s);
        } else {
            assert(-(c * s) == a * s) by (nonlinear_arith)
                requires
                    a == -c,
            ;
            if c * s >= 0 {
                assert(a * s == 0);
                assert(p == 0);
            }
        }
    }
    assert(q * q == p * p) by (nonlinear_arith)
        requires
            q == p || q == -p,
    ;
    assert(c * c == a * a) by (nonlinear_arith)
        requires
            a == c || a == -c,
    ;
    let lp = l * p;
    let w = a * s;
    assert((l * l) * (p * p) == lp * lp) by (nonlinear_arith)
        requires
            lp == l * p,
    ;
    assert((a * a) * (s * s) == w * w) by (nonlinear_arith)
        requires
            w == a * s,
    ;
    assert(lp * lp <= w * w) by (nonlinear_arith)
        requires
            0 <= lp <= w,
    ;
    assert(lp * lp >= w * w - 2 * (l * w)) by (nonlinear_arith)
        requires
            0 <= lp <= w,
            w < lp + l,
            l > 0,
    ;
    assert(l * w <= (l * l) * s) by (nonlinear_arith)
        requires
            w == a * s,
            0 <= a <= l,
            s > 0,
            l > 0,
    ;
    q
}

/// A component of a vector is no longer than the vector.
proof fn lemma_component_within(c: int, rest: int, l: int)
    requires
        rest >= 0,
        l >= 0,
        c * c + rest < (l + 1) * (l + 1),
    ensures
        -l <= c <= l,
{
    if c > l {
        assert(c * c >= (l + 1) * (l + 1)) by (nonlinear_arith)
            requires
                c >= l + 1,
                l >= 0,
        ;
    } else if c < -l {
        assert(c * c >= (l + 1) * (l + 1)) by (nonlinear_arith)
            requires
                -c >= l + 1,
                l >= 0,
        ;
    }
}

/// Normalising gives a unit vector: where the length of `v` is at least
/// `SHORTEST_NORMALIZED` and below the largest number, the length of the
/// normalised vector is within `UNIT_TOLERANCE` of one.
pub proof fn lemma_normalize_is_unit(v: Vec3)
    requires
        SHORTEST_NORMALIZED <= v.len_spec().raw < i64::MAX,
    ensures
        v.normalize_spec().is_unit_spec(),
{
    let s = SCALE as int;
    let t = UNIT_TOLERANCE as int;
    let n = v.norm_squared();
    assert(n >= 0) by (nonlinear_arith)
        requires
            n == v.x.raw * v.x.raw + v.y.raw * v.y.raw + v.z.raw * v.z.raw,
    ;
    lemma_root_exists(n);
    let l = root(n);
    assert(l == v.len_spec().raw);
    let xx = v.x.raw * v.x.raw;
    let yy = v.y.raw * v.y.raw;
    let zz = v.z.raw * v.z.raw;
    assert(xx >= 0 && yy >= 0 && zz >= 0) by (nonlinear_arith)
        requires
            xx == v.x.raw * v.x.raw,
            yy == v.y.raw * v.y.raw,
            zz == v.z.raw * v.z.raw,
    ;
    lemma_component_within(v.x.raw as int, yy + zz, l);
    lemma_component_within(v.y.raw as int, xx + zz, l);
    lemma_component_within(v.z.raw as int, xx + yy, l);
    let qx = lemma_component_quotient(v.x.raw as int, l, s);
    let qy = lemma_component_quotient(v.y.raw as int, l, s);
    let qz = lemma_component_quotient(v.z.raw as int, l, s);
    let u = v.normalize_spec();
    assert(u.x.raw == qx && u.y.raw == qy && u.z.raw == qz);
    let m = u.norm_squared();
    assert(m == qx * qx + qy * qy + qz * qz);
    let ll = l * l;
    let ss = s * s;
    assert(ll > 0 && ss > 0) by (nonlinear_arith)
        requires
            ll == l * l,
            ss == s * s,
            l > 0,
            s > 0,
    ;
    assert(ll * m == ll * (qx * qx) + ll * (qy * qy) + ll * (qz * qz)) by (nonlinear_arith)
        requires
            m == qx * qx + qy * qy + qz * qz,
    ;
    assert(n * ss == xx * ss + yy * ss + zz * ss) by (nonlinear_arith)
        requires
            n == xx + yy + zz,
    ;
    assert(ll * m <= n * ss);
    assert(ll * m >= n * ss - 6 * (ll * s));
    // From below: the square of the new length is at least `s^2 - 6 s`.
    assert(n * ss >= ll * ss) by (nonlinear_arith)
        requires
            n >= ll,
            ss > 0,
    ;
    assert(ll * m >= ll * (ss - 6 * s)) by (nonlinear_arith)
        requires
            ll * m >= n * ss - 6 * (ll * s),
            n * ss >= ll * ss,
    ;
    assert(m >= ss - 6 * s) by (nonlinear_arith)
        requires
            ll * m >= ll * (ss - 6 * s),
            ll > 0,
    ;
    assert((s - 4) * (s - 4) <= ss - 6 * s) by (nonlinear_arith)
        requires
            ss == s * s,
            s == 0x1_0000_0000,
    ;
    lemma_root_at_least(m, s - 4);
    // From above: the new length, times `l`, stays below `s * (l + 1)`.
    let bound = s + t + 1;
    assert(m < bound * bound) by {
        if m >= bound * bound {
            let lb = l * bound;
            let sl = s * (l + 1);
            assert(ll * m >= lb * lb) by (nonlinear_arith)
                requires
                    m >= bound * bound,
                    ll == l * l,
                    lb == l * bound,
                    l > 0,
            ;
            assert(n * ss < sl * sl) by (nonlinear_arith)
                requires
                    n < (l + 1) * (l + 1),
                    ss == s * s,
                    sl == s * (l + 1),
                    s > 0,
            ;
            assert(lb < sl) by (nonlinear_arith)
                requires
                    lb * lb < sl * sl,
                    lb >= 0,
                    sl >= 0,
            ;
            assert(lb >= sl) by (nonlinear_arith)
                requires
                    lb == l * (s + t + 1),
                    sl == s * (l + 1),
                    l >= 10_000,
                    t == 429_497,
                    s == 0x1_0000_0000,
            ;
        }
    }
    lemma_root_above(m, bound);
}

} // verus!
