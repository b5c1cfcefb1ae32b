//! Fixed-point vectors and quaternions, and the linear interpolation engine.

use vstd::prelude::*;
use vstd::arithmetic::div_mod::{lemma_div_is_ordered, lemma_div_multiples_vanish};
use crate::fixed::{
    ONE, add_spec, sub_spec, mul_spec, div_spec, fx_add, fx_sub, fx_mul, fx_div, saturate, sat,
};

verus! {

/// A point or direction in 3D space, each component in 16.16 fixed point.
#[derive(Clone, Copy, Debug, PartialEq, Eq, Structural)]
pub struct Vec3 {
    pub x: i64,
    pub y: i64,
    pub z: i64,
}

/// A rotation quaternion, each component in 16.16 fixed point.
#[derive(Clone, Copy, Debug, PartialEq, Eq, Structural)]
pub struct Quat {
    pub x: i64,
    pub y: i64,
    pub z: i64,
    pub w: i64,
}

/// A shaded screen vertex: integer pixel coordinates and an intensity in
/// 16.16 fixed point (`ONE` is full brightness).
#[derive(Clone, Copy, Debug, PartialEq, Eq, Structural)]
pub struct Xyh {
    pub x: i32,
    pub y: i32,
    pub h: i64,
}

impl Xyh {
    pub fn new(x: i32, y: i32, h: i64) -> (r: Xyh)
        ensures
            r == (Xyh { x, y, h }),
    {
        Xyh { x, y, h }
    }
}

pub open spec fn vec3(x: int, y: int, z: int) -> Vec3 {
    Vec3 { x: x as i64, y: y as i64, z: z as i64 }
}

pub open spec fn add3(a: Vec3, b: Vec3) -> Vec3 {
    vec3(add_spec(a.x as int, b.x as int), add_spec(a.y as int, b.y as int), add_spec(a.z as int, b.z as int))
}

pub open spec fn sub3(a: Vec3, b: Vec3) -> Vec3 {
    vec3(sub_spec(a.x as int, b.x as int), sub_spec(a.y as int, b.y as int), sub_spec(a.z as int, b.z as int))
}

pub open spec fn scale3(a: Vec3, s: int) -> Vec3 {
    vec3(mul_spec(a.x as int, s), mul_spec(a.y as int, s), mul_spec(a.z as int, s))
}

pub open spec fn cross3(a: Vec3, b: Vec3) -> Vec3 {
    vec3(
        sub_spec(mul_spec(a.y as int, b.z as int), mul_spec(a.z as int, b.y as int)),
        sub_spec(mul_spec(a.z as int, b.x as int), mul_spec(a.x as int, b.z as int)),
        sub_spec(mul_spec(a.x as int, b.y as int), mul_spec(a.y as int, b.x as int)),
    )
}

/// The vector part of a quaternion.
pub open spec fn axis(q: Quat) -> Vec3 {
    Vec3 { x: q.x, y: q.y, z: q.z }
}

/// Rotation of `v` by `q`: with `t = 2 (q.xyz × v)`, the result is
/// `v + w t + q.xyz × t`, which equals `q v q*` for a unit quaternion.
pub open spec fn rotate_spec(q: Quat, v: Vec3) -> Vec3 {
    let t = cross3(axis(q), v);
    let t2 = add3(t, t);
    add3(add3(v, scale3(t2, q.w as int)), cross3(axis(q), t2))
}

/// The Hamilton product `a b`: applying it rotates by `b`, then by `a`.
pub open spec fn qmul_spec(a: Quat, b: Quat) -> Quat {
    let (ax, ay, az, aw) = (a.x as int, a.y as int, a.z as int, a.w as int);
    let (bx, by, bz, bw) = (b.x as int, b.y as int, b.z as int, b.w as int);
    Quat {
        x: sat(mul_spec(aw, bx) + mul_spec(ax, bw) + mul_spec(ay, bz) - mul_spec(az, by)) as i64,
        y: sat(mul_spec(aw, by) - mul_spec(ax, bz) + mul_spec(ay, bw) + mul_spec(az, bx)) as i64,
        z: sat(mul_spec(aw, bz) + mul_spec(ax, by) - mul_spec(ay, bx) + mul_spec(az, bw)) as i64,
        w: sat(mul_spec(aw, bw) - mul_spec(ax, bx) - mul_spec(ay, by) - mul_spec(az, bz)) as i64,
    }
}

/// The conjugate, which is the inverse rotation of a unit quaternion.
pub open spec fn conj_spec(q: Quat) -> Quat {
    Quat { x: sat(-q.x) as i64, y: sat(-q.y) as i64, z: sat(-q.z) as i64, w: q.w }
}

pub open spec fn identity_quat() -> Quat {
    Quat { x: 0, y: 0, z: 0, w: ONE }
}

impl Vec3 {
    pub fn new(x: i64, y: i64, z: i64) -> (r: Vec3)
        ensures
            r == (Vec3 { x, y, z }),
    {
        Vec3 { x, y, z }
    }

    pub fn add(self, o: Vec3) -> (r: Vec3)
        ensures
            r == add3(self, o),
    {
        Vec3 { x: fx_add(self.x, o.x), y: fx_add(self.y, o.y), z: fx_add(self.z, o.z) }
    }

    pub fn sub(self, o: Vec3) -> (r: Vec3)
        ensures
            r == sub3(self, o),
    {
        Vec3 { x: fx_sub(self.x, o.x), y: fx_sub(self.y, o.y), z: fx_sub(self.z, o.z) }
    }

    /// Multiplies each component by the fixed-point scalar `s`.
    pub fn scale(self, s: i64) -> (r: Vec3)
        ensures
            r == scale3(self, s as int),
    {
        Vec3 { x: fx_mul(self.x, s), y: fx_mul(self.y, s), z: fx_mul(self.z, s) }
    }

    pub fn cross(self, o: Vec3) -> (r: Vec3)
        ensures
            r == cross3(self, o),
    {
        Vec3 {
            x: fx_sub(fx_mul(self.y, o.z), fx_mul(self.z, o.y)),
            y: fx_sub(fx_mul(self.z, o.x), fx_mul(self.x, o.z)),
            z: fx_sub(fx_mul(self.x, o.y), fx_mul(self.y, o.x)),
        }
    }
}

impl Quat {
    /// The identity rotation.
    pub fn identity() -> (r: Quat)
        ensures
            r == identity_quat(),
    {
        Quat { x: 0, y: 0, z: 0, w: ONE }
    }

    pub fn new(x: i64, y: i64, z: i64, w: i64) -> (r: Quat)
        ensures
            r == (Quat { x, y, z, w }),
    {
        Quat { x, y, z, w }
    }

    pub fn conjugate(self) -> (r: Quat)
        ensures
            r == conj_spec(self),
    {
        Quat {
            x: saturate(-(self.x as i128)),
            y: saturate(-(self.y as i128)),
            z: saturate(-(self.z as i128)),
            w: self.w,
        }
    }

    /// The Hamilton product `self * o`.
    pub fn mul(self, o: Quat) -> (r: Quat)
        ensures
            r == qmul_spec(self, o),
    {
        let (ax, ay, az, aw) = (self.x, self.y, self.z, self.w);
        let (bx, by, bz, bw) = (o.x, o.y, o.z, o.w);
        let x = fx_mul(aw, bx) as i128 + fx_mul(ax, bw) as i128 + fx_mul(ay, bz) as i128
            - fx_mul(az, by) as i128;
        let y = fx_mul(aw, by) as i128 - fx_mul(ax, bz) as i128 + fx_mul(ay, bw) as i128
            + fx_mul(az, bx) as i128;
        let z = fx_mul(aw, bz) as i128 + fx_mul(ax, by) as i128 - fx_mul(ay, bx) as i128
            + fx_mul(az, bw) as i128;
        let w = fx_mul(aw, bw) as i128 - fx_mul(ax, bx) as i128 - fx_mul(ay, by) as i128
            - fx_mul(az, bz) as i128;
        Quat { x: saturate(x), y: saturate(y), z: saturate(z), w: saturate(w) }
    }

    /// Rotates `v` by this quaternion.
    pub fn rotate(self, v: Vec3) -> (r: Vec3)
        ensures
            r == rotate_spec(self, v),
    {
        let a = Vec3 { x: self.x, y: self.y, z: self.z };
        let t = a.cross(v);
        let t2 = t.add(t);
        v.add(t2.scale(self.w)).add(a.cross(t2))
    }
}

/// Division truncating toward zero, for `d > 0`.
pub open spec fn tdiv(a: int, d: int) -> int {
    if a >= 0 {
        a / d
    } else {
        -((-a) / d)
    }
}

/// A quotient truncated toward zero stays within any integer bounds that
/// hold the exact quotient.
pub proof fn lemma_tdiv_between(a: int, d: int, lo: int, hi: int)
    requires
        0 < d,
        lo * d <= a <= hi * d,
    ensures
        lo <= tdiv(a, d) <= hi,
{
    assert(d * lo == lo * d && d * hi == hi * d) by (nonlinear_arith);
    lemma_div_multiples_vanish(lo, d);
    lemma_div_multiples_vanish(hi, d);
    lemma_div_multiples_vanish(-lo, d);
    lemma_div_multiples_vanish(-hi, d);
    assert(d * (-lo) == -(lo * d) && d * (-hi) == -(hi * d)) by (nonlinear_arith);
    if a >= 0 {
        lemma_div_is_ordered(lo * d, a, d);
        lemma_div_is_ordered(a, hi * d, d);
        lemma_div_is_ordered(0, a, d);
        lemma_div_multiples_vanish(0, d);
        if hi < 0 {
            assert(hi * d < 0) by (nonlinear_arith)
                requires
                    hi < 0,
                    d > 0,
            ;
        }
    } else {
        lemma_div_is_ordered(-(hi * d), -a, d);
        lemma_div_is_ordered(-a, -(lo * d), d);
    }
}

/// The value at step `k` of `d` on the way from `y1` to `y2`: the exact
/// rational `y1 + (y2 - y1) k / d`, truncated toward zero.
pub open spec fn interp(y1: int, y2: int, k: int, d: int) -> int {
    tdiv(y1 * d + (y2 - y1) * k, d)
}

/// The values of the line through `(x1, y1)` and `(x2, y2)` at every integer
/// `x` from `min(x1, x2)` to `max(x1, x2)`, in ascending `x`.
pub open spec fn lerp_seq(x1: int, y1: int, x2: int, y2: int) -> Seq<i64> {
    if x1 == x2 {
        seq![y1 as i64]
    } else if x1 < x2 {
        Seq::new((x2 - x1 + 1) as nat, |k: int| interp(y1, y2, k, x2 - x1) as i64)
    } else {
        Seq::new((x1 - x2 + 1) as nat, |k: int| interp(y2, y1, k, x1 - x2) as i64)
    }
}

/// An interpolated value lies between the two endpoints, and hits them at
/// the first and last step.
pub proof fn lemma_interp_bounds(y1: int, y2: int, k: int, d: int)
    requires
        0 <= k <= d,
        0 < d,
    ensures
        y1 <= y2 ==> y1 <= interp(y1, y2, k, d) <= y2,
        y2 < y1 ==> y2 <= interp(y1, y2, k, d) <= y1,
        interp(y1, y2, 0, d) == y1,
        interp(y1, y2, d, d) == y2,
{
    let lo = if y1 <= y2 { y1 } else { y2 };
    let hi = if y1 <= y2 { y2 } else { y1 };
    assert(lo * d <= y1 * d + (y2 - y1) * k <= hi * d) by (nonlinear_arith)
        requires
            0 <= k <= d,
            lo == (if y1 <= y2 { y1 } else { y2 }),
            hi == (if y1 <= y2 { y2 } else { y1 }),
    ;
    lemma_tdiv_between(y1 * d + (y2 - y1) * k, d, lo, hi);
    assert(y1 * d + (y2 - y1) * 0 == y1 * d) by (nonlinear_arith);
    assert(y1 * d + (y2 - y1) * d == y2 * d) by (nonlinear_arith);
    lemma_tdiv_between(y1 * d, d, y1, y1);
    lemma_tdiv_between(y2 * d, d, y2, y2);
}

/// `tdiv` on machine integers.
pub fn trunc_div(a: i128, d: i128) -> (r: i128)
    requires
        0 < d,
        a > i128::MIN,
    ensures
        r == tdiv(a as int, d as int),
{
    if a >= 0 {
        a / d
    } else {
        proof {
            vstd::arithmetic::div_mod::lemma_div_is_ordered(0, -a, d as int);
            vstd::arithmetic::div_mod::lemma_div_multiples_vanish(0, d as int);
            vstd::arithmetic::div_mod::lemma_div_is_ordered_by_denominator(-a, 1, d as int);
            vstd::arithmetic::div_mod::lemma_div_by_multiple(-a, 1);
        }
        -((-a) / d)
    }
}

/// `interp` on machine integers.
pub(crate) fn interp_at(y1: i64, y2: i64, k: i64, d: i64) -> (r: i64)
    requires
        0 <= k <= d,
        0 < d <= 0x1_0000_0000,
    ensures
        r == interp(y1 as int, y2 as int, k as int, d as int),
{
    proof {
        lemma_interp_bounds(y1 as int, y2 as int, k as int, d as int);
        assert(-0x1_0000_0000_0000_0000_0000_0000 <= y1 * d <= 0x1_0000_0000_0000_0000_0000_0000)
            by (nonlinear_arith)
            requires
                i64::MIN <= y1 <= i64::MAX,
                0 < d <= 0x1_0000_0000,
        ;
        assert(-0x1_0000_0000_0000_0000_0000_0000 <= (y2 - y1) * k <= 0x1_0000_0000_0000_0000_0000_0000)
            by (nonlinear_arith)
            requires
                i64::MIN <= y1 <= i64::MAX,
                i64::MIN <= y2 <= i64::MAX,
                0 <= k <= d <= 0x1_0000_0000,
        ;
    }
    let num = y1 as i128 * d as i128 + (y2 as i128 - y1 as i128) * k as i128;
    trunc_div(num, d as i128) as i64
}

/// Interpolates linearly between `(x1, y1)` and `(x2, y2)`: one value for
/// each integer `x` between `x1` and `x2` inclusive, in ascending `x`. When
/// `x1 == x2` the result is `[y1]`. Each value is the exact one truncated
/// toward zero.
pub fn lerp(x1: i32, y1: i64, x2: i32, y2: i64) -> (r: Vec<i64>)
    ensures
        r@ == lerp_seq(x1 as int, y1 as int, x2 as int, y2 as int),
{
    if x1 == x2 {
        return vec![y1];
    }
    let (lo, ylo, hi, yhi) = if x1 < x2 {
        (x1, y1, x2, y2)
    } else {
        (x2, y2, x1, y1)
    };
    let d: i64 = hi as i64 - lo as i64;
    let mut out: Vec<i64> = Vec::new();
    let mut k: i64 = 0;
    while k <= d
        invariant
            0 <= k <= d + 1,
            d == hi - lo,
            0 < d <= 0x1_0000_0000,
            out@.len() == k,
            forall|j: int| 0 <= j < k ==> out@[j] == interp(ylo as int, yhi as int, j, d as int) as i64,
        decreases d + 1 - k,
    {
        out.push(interp_at(ylo, yhi, k, d));
        k += 1;
    }
    assert(out@ =~= lerp_seq(x1 as int, y1 as int, x2 as int, y2 as int));
    out
}

/// Endpoint fidelity: the values start at exactly the value given at the
/// lower abscissa and end at exactly the value given at the higher one.
pub proof fn lemma_lerp_endpoints(x1: i32, y1: i64, x2: i32, y2: i64)
    requires
        x1 != x2,
    ensures
        x1 < x2 ==> lerp_seq(x1 as int, y1 as int, x2 as int, y2 as int)[0] == y1,
        x1 < x2 ==> lerp_seq(x1 as int, y1 as int, x2 as int, y2 as int).last() == y2,
        x2 < x1 ==> lerp_seq(x1 as int, y1 as int, x2 as int, y2 as int)[0] == y2,
        x2 < x1 ==> lerp_seq(x1 as int, y1 as int, x2 as int, y2 as int).last() == y1,
{
    if x1 < x2 {
        let d = x2 - x1;
        lemma_interp_bounds(y1 as int, y2 as int, 0, d);
        lemma_interp_bounds(y1 as int, y2 as int, d, d);
    } else {
        let d = x1 - x2;
        lemma_interp_bounds(y2 as int, y1 as int, 0, d);
        lemma_interp_bounds(y2 as int, y1 as int, d, d);
    }
}

/// A vertical (degenerate) segment gives exactly one value, `y1`.
pub proof fn lemma_lerp_degenerate(x1: i32, y1: i64, x2: i32, y2: i64)
    requires
        x1 == x2,
    ensures
        lerp_seq(x1 as int, y1 as int, x2 as int, y2 as int) == seq![y1],
{
}

/// One value per integer between the two abscissae: `|x2 - x1| + 1` values.
pub proof fn lemma_lerp_len(x1: i32, y1: i64, x2: i32, y2: i64)
    ensures
        lerp_seq(x1 as int, y1 as int, x2 as int, y2 as int).len() == if x1 <= x2 {
            x2 - x1 + 1
        } else {
            x1 - x2 + 1
        },
{
}

/// Every interpolated value lies between the two endpoint values.
pub proof fn lemma_lerp_between(x1: int, y1: int, x2: int, y2: int, i: int)
    requires
        0 <= i < lerp_seq(x1, y1, x2, y2).len(),
        i64::MIN <= y1 <= i64::MAX,
        i64::MIN <= y2 <= i64::MAX,
    ensures
        y1 <= y2 ==> y1 <= lerp_seq(x1, y1, x2, y2)[i] <= y2,
        y2 < y1 ==> y2 <= lerp_seq(x1, y1, x2, y2)[i] <= y1,
{
    if x1 < x2 {
        lemma_interp_bounds(y1, y2, i, x2 - x1);
    } else if x2 < x1 {
        lemma_interp_bounds(y2, y1, i, x1 - x2);
    }
}

/// `r` is the integer square root of `n`.
pub open spec fn is_root(r: int, n: int) -> bool {
    0 <= r && r * r <= n < (r + 1) * (r + 1)
}

/// The integer square root of `n` (for `n >= 0`).
pub open spec fn isqrt(n: int) -> int {
    choose|r: int| is_root(r, n)
}

/// The integer square root is unique.
pub proof fn lemma_root_unique(r1: int, r2: int, n: int)
    requires
        is_root(r1, n),
        is_root(r2, n),
    ensures
        r1 == r2,
{
    if r1 < r2 {
        assert((r1 + 1) * (r1 + 1) <= r2 * r2) by (nonlinear_arith)
            requires
                0 <= r1 < r2,
        ;
    } else if r2 < r1 {
        assert((r2 + 1) * (r2 + 1) <= r1 * r1) by (nonlinear_arith)
            requires
                0 <= r2 < r1,
        ;
    }
}

/// Integer square root by bisection, for `0 <= n < 2^82`.
pub fn int_sqrt(n: i128) -> (r: i128)
    requires
        0 <= n < 0x4_0000_0000_0000_0000_0000,
    ensures
        r == isqrt(n as int),
        is_root(r as int, n as int),
{
    let mut lo: i128 = 0;
    let mut hi: i128 = 0x200_0000_0000;
    assert(hi * hi > n);
    while lo + 1 < hi
        invariant
            0 <= lo < hi <= 0x200_0000_0000,
            lo * lo <= n < hi * hi,
        decreases hi - lo,
    {
        let mid = lo + (hi - lo) / 2;
        proof {
            assert(0 <= mid * mid <= 0x200_0000_0000 * 0x200_0000_0000) by (nonlinear_arith)
                requires
                    0 <= mid <= 0x200_0000_0000,
            ;
        }
        if mid * mid <= n {
            lo = mid;
        } else {
            hi = mid;
        }
    }
    proof {
        assert(hi == lo + 1);
        assert(is_root(lo as int, n as int));
        let c = isqrt(n as int);
        assert(is_root(c, n as int));
        lemma_root_unique(c, lo as int, n as int);
    }
    lo
}

/// The squared length of a quaternion, in fixed point.
pub open spec fn norm_sq(q: Quat) -> int {
    mul_spec(q.x as int, q.x as int) + mul_spec(q.y as int, q.y as int) + mul_spec(q.z as int, q.z as int)
        + mul_spec(q.w as int, q.w as int)
}

/// The length of a quaternion, in fixed point, rounded down.
pub open spec fn norm(q: Quat) -> int {
    isqrt(norm_sq(q) * ONE)
}

/// `q` divided by its length; a quaternion of length zero is left as it is.
pub open spec fn normalize_spec(q: Quat) -> Quat {
    let n = norm(q);
    if n == 0 {
        q
    } else {
        Quat {
            x: div_spec(q.x as int, n) as i64,
            y: div_spec(q.y as int, n) as i64,
            z: div_spec(q.z as int, n) as i64,
            w: div_spec(q.w as int, n) as i64,
        }
    }
}

impl Quat {
    /// Scales this quaternion to unit length, to undo the drift of repeated
    /// products. A quaternion of length zero is returned unchanged.
    pub fn normalize(self) -> (r: Quat)
        ensures
            r == normalize_spec(self),
    {
        let sq = fx_mul(self.x, self.x) as i128 + fx_mul(self.y, self.y) as i128
            + fx_mul(self.z, self.z) as i128 + fx_mul(self.w, self.w) as i128;
        proof {
            assert(mul_spec(self.x as int, self.x as int) >= 0) by {
                assert(self.x as int * self.x as int >= 0) by (nonlinear_arith);
                vstd::arithmetic::div_mod::lemma_div_pos_is_pos(self.x as int * self.x as int, ONE as int);
            }
            assert(mul_spec(self.y as int, self.y as int) >= 0) by {
                assert(self.y as int * self.y as int >= 0) by (nonlinear_arith);
                vstd::arithmetic::div_mod::lemma_div_pos_is_pos(self.y as int * self.y as int, ONE as int);
            }
            assert(mul_spec(self.z as int, self.z as int) >= 0) by {
                assert(self.z as int * self.z as int >= 0) by (nonlinear_arith);
                vstd::arithmetic::div_mod::lemma_div_pos_is_pos(self.z as int * self.z as int, ONE as int);
            }
            assert(mul_spec(self.w as int, self.w as int) >= 0) by {
                assert(self.w as int * self.w as int >= 0) by (nonlinear_arith);
                vstd::arithmetic::div_mod::lemma_div_pos_is_pos(self.w as int * self.w as int, ONE as int);
            }
        }
        let n = int_sqrt(sq * ONE as i128);
        if n == 0 {
            self
        } else {
            proof {
                assert(n * n <= sq * ONE);
                assert(n <= 0x200_0000_0000) by (nonlinear_arith)
                    requires
                        n >= 0,
                        n * n <= 0x4_0000_0000_0000_0000_0000,
                ;
            }
            let n = n as i64;
            Quat { x: fx_div(self.x, n), y: fx_div(self.y, n), z: fx_div(self.z, n), w: fx_div(self.w, n) }
        }
    }
}

/// The identity rotation leaves every vector where it is.
pub proof fn lemma_rotate_identity(v: Vec3)
    ensures
        rotate_spec(identity_quat(), v) == v,
{
    let z = Vec3 { x: 0, y: 0, z: 0 };
    assert(cross3(axis(identity_quat()), v) == z);
    assert(add3(z, z) == z);
    assert(scale3(z, ONE as int) == z);
    assert(cross3(axis(identity_quat()), z) == z);
    assert(add3(v, z) == v);
}

/// A hash of a vector's components.
///
/// Relies on `std::hash::BuildHasher::hash_one` with std's `DefaultHasher`,
/// which hashes the three components in order. std leaves that hasher's
/// algorithm unspecified, so nothing is stated of the result.
#[verifier::external_body]
pub fn vec3_hash(v: &Vec3) -> u64 {
    std::hash::BuildHasher::hash_one(
        &std::hash::BuildHasherDefault::<std::collections::hash_map::DefaultHasher>::default(),
        (v.x, v.y, v.z),
    )
}

} // verus!
