//! The scalar domain of the library: a signed binary fixed-point number.
//!
//! A value is a 64-bit mantissa read at the scale `FX_ONE` (2^36), so the
//! representable range is about +/- 1.3e8 with a resolution of about
//! 1.5e-11. Every operation is total: results outside the range saturate at
//! the ends, and every contract states the exact mantissa returned.

use vstd::prelude::*;

verus! {

/// The mantissa that stands for 1: the fixed-point scale, 2^36.
pub const FX_ONE: i64 = 0x10_0000_0000;

/// Saturation of a mathematical integer into the mantissa range.
pub open spec fn clamp(v: int) -> int {
    if v > i64::MAX {
        i64::MAX as int
    } else if v < i64::MIN {
        i64::MIN as int
    } else {
        v
    }
}

/// Division by a positive divisor, rounding toward zero.
pub open spec fn tdiv(a: int, b: int) -> int {
    if a >= 0 {
        a / b
    } else {
        -((-a) / b)
    }
}

/// Mantissa of the sum of two fixed-point values.
pub open spec fn fx_add(a: int, b: int) -> int {
    clamp(a + b)
}

/// Mantissa of the difference of two fixed-point values.
pub open spec fn fx_sub(a: int, b: int) -> int {
    clamp(a - b)
}

/// Mantissa of the product of two fixed-point values: the wide product is
/// rescaled by `FX_ONE`, rounding toward zero, then saturated.
pub open spec fn fx_mul(a: int, b: int) -> int {
    clamp(tdiv(a * b, FX_ONE as int))
}

/// Mantissa of the negation of a fixed-point value.
pub open spec fn fx_neg(a: int) -> int {
    clamp(-a)
}

/// Mantissa of the absolute value of a fixed-point value.
pub open spec fn fx_abs(a: int) -> int {
    if a < 0 {
        clamp(-a)
    } else {
        a
    }
}

/// Mantissa of the average of two fixed-point values, rounding toward zero.
pub open spec fn fx_mid(a: int, b: int) -> int {
    tdiv(a + b, 2)
}

/// Mantissa of the quotient of two fixed-point values, rounding toward
/// zero, saturated; the divisor must not be zero.
pub open spec fn fx_div(a: int, b: int) -> int {
    if b > 0 {
        clamp(tdiv(a * FX_ONE, b))
    } else {
        clamp(tdiv(-(a * FX_ONE), -b))
    }
}

/// The mantissas of a sequence of scalars.
pub open spec fn seq_views(s: Seq<Fx>) -> Seq<int> {
    s.map_values(|f: Fx| f@)
}

/// Mantissa of the fixed-point image of the integer `i`.
pub open spec fn fx_int(i: int) -> int {
    clamp(i * FX_ONE)
}

/// Mantissa of the fixed-point image of the fraction `n / d`, for `d > 0`.
pub open spec fn fx_ratio(n: int, d: int) -> int {
    clamp(tdiv(n * FX_ONE, d))
}

/// `r` is the floor of the exact square root of `n`.
pub open spec fn is_sqrt_floor(n: int, r: int) -> bool {
    0 <= r && r * r <= n && n < (r + 1) * (r + 1)
}

/// The floor of the exact square root of `n`.
pub open spec fn sqrt_floor_of(n: int) -> int {
    choose|r: int| is_sqrt_floor(n, r)
}

/// Mantissa of the square root of the nonnegative value with mantissa `a`:
/// the floor square root of the mantissa brought back to scale.
pub open spec fn fx_sqrt(a: int) -> int {
    sqrt_floor_of(a * FX_ONE)
}

/// The floor square root is unique.
pub proof fn lemma_sqrt_floor_unique(n: int, r1: int, r2: int)
    requires
        is_sqrt_floor(n, r1),
        is_sqrt_floor(n, r2),
    ensures
        r1 == r2,
{
    assert(r1 == r2) by (nonlinear_arith)
        requires
            0 <= r1 && r1 * r1 <= n && n < (r1 + 1) * (r1 + 1),
            0 <= r2 && r2 * r2 <= n && n < (r2 + 1) * (r2 + 1),
    ;
}

/// Floor square root of `n` by bisection.
pub(crate) fn isqrt(n: u128) -> (r: u64)
    requires
        n <= 0x4000_0000_0000_0000_0000_0000_0000_0000,
    ensures
        is_sqrt_floor(n as int, r as int),
{
    let mut lo: u128 = 0;
    let mut hi: u128 = 0x8000_0000_0000_0001;
    proof {
        assert((0x8000_0000_0000_0001 as int) * (0x8000_0000_0000_0001 as int)
            > 0x4000_0000_0000_0000_0000_0000_0000_0000) by (nonlinear_arith);
    }
    while lo + 1 < hi
        invariant
            0 <= lo < hi <= 0x8000_0000_0000_0001,
            (lo as int) * (lo as int) <= n as int,
            (n as int) < (hi as int) * (hi as int),
        decreases hi - lo,
    {
        let mid: u128 = lo + (hi - lo) / 2;
        proof {
            assert((mid as int) * (mid as int) <= 0x4000_0000_0000_0000_0000_0000_0000_0000)
                by (nonlinear_arith)
                requires
                    0 <= mid as int <= 0x8000_0000_0000_0000,
            ;
        }
        if mid * mid <= n {
            lo = mid;
        } else {
            hi = mid;
        }
    }
    lo as u64
}

/// A fixed-point scalar: `m` counts units of 2^-36.
#[derive(Clone, Copy, PartialEq, Eq, Structural, Debug)]
pub struct Fx {
    pub m: i64,
}

impl View for Fx {
    type V = int;

    open spec fn view(&self) -> int {
        self.m as int
    }
}

/// Scaling zero gives zero.
pub proof fn lemma_fx_mul_zero(a: int)
    ensures
        fx_mul(a, 0) == 0,
        fx_mul(0, a) == 0,
{
    vstd::arithmetic::div_mod::lemma_div_basics(FX_ONE as int);
    assert(a * 0 == 0);
    assert(0 * a == 0);
    assert(tdiv(0, FX_ONE as int) == 0);
}

/// The midpoint rounded toward zero sits between its ends, and doubling it
/// recovers the sum up to one unit.
pub proof fn lemma_fx_mid_between(a: int, b: int)
    ensures
        a + b - 1 <= 2 * fx_mid(a, b) <= a + b + 1,
        a <= b ==> a <= fx_mid(a, b) <= b,
{
    let s = a + b;
    if s >= 0 {
        vstd::arithmetic::div_mod::lemma_fundamental_div_mod(s, 2);
        vstd::arithmetic::div_mod::lemma_mod_bound(s, 2);
        assert(fx_mid(a, b) == s / 2);
    } else {
        vstd::arithmetic::div_mod::lemma_fundamental_div_mod(-s, 2);
        vstd::arithmetic::div_mod::lemma_mod_bound(-s, 2);
        assert(fx_mid(a, b) == -((-s) / 2));
    }
}

/// The product of two mantissas stays well inside the 128-bit range.
proof fn lemma_i64_product_bounded(a: int, b: int)
    requires
        -0x8000_0000_0000_0000 <= a <= 0x7fff_ffff_ffff_ffff,
        -0x8000_0000_0000_0000 <= b <= 0x7fff_ffff_ffff_ffff,
    ensures
        -0x4000_0000_0000_0000_0000_0000_0000_0000 <= a * b
            <= 0x4000_0000_0000_0000_0000_0000_0000_0000,
{
    assert(-0x4000_0000_0000_0000_0000_0000_0000_0000 <= a * b
        <= 0x4000_0000_0000_0000_0000_0000_0000_0000) by (nonlinear_arith)
        requires
            -0x8000_0000_0000_0000 <= a <= 0x7fff_ffff_ffff_ffff,
            -0x8000_0000_0000_0000 <= b <= 0x7fff_ffff_ffff_ffff,
    ;
}

/// Saturates a wide intermediate into the mantissa range.
fn clamp_narrow(v: i128) -> (r: i64)
    ensures
        r as int == clamp(v as int),
{
    if v > i64::MAX as i128 {
        i64::MAX
    } else if v < i64::MIN as i128 {
        i64::MIN
    } else {
        v as i64
    }
}

/// Quotient of a wide signed value by a positive divisor, rounding toward
/// zero, saturated into the mantissa range.
fn tdiv_narrow(p: i128, d: u128) -> (r: i64)
    requires
        d > 0,
        -0x4000_0000_0000_0000_0000_0000_0000_0000 <= (p as int),
        (p as int) <= 0x4000_0000_0000_0000_0000_0000_0000_0000,
    ensures
        r as int == clamp(tdiv(p as int, d as int)),
{
    if p >= 0 {
        let q: u128 = (p as u128) / d;
        if q > i64::MAX as u128 {
            i64::MAX
        } else {
            q as i64
        }
    } else {
        let mag: u128 = (-p) as u128;
        let q: u128 = mag / d;
        if q >= 0x8000_0000_0000_0000u128 {
            i64::MIN
        } else {
            -(q as i64)
        }
    }
}

impl Fx {
    /// The raw mantissa, for callers that serialize or convert the value.
    pub fn raw(&self) -> (r: i64)
        ensures
            r as int == self@,
    {
        self.m
    }

    /// The value whose mantissa is `m`, that is `m / 2^36`.
    pub fn from_raw(m: i64) -> (r: Fx)
        ensures
            r@ == m as int,
    {
        Fx { m }
    }

    /// The fixed-point image of a small integer, saturated at the range ends.
    pub fn from_int(i: i64) -> (r: Fx)
        ensures
            r@ == fx_int(i as int),
    {
        proof {
            lemma_i64_product_bounded(i as int, FX_ONE as int);
        }
        let p: i128 = (i as i128) * (FX_ONE as i128);
        Fx { m: clamp_narrow(p) }
    }

    /// The nearest-toward-zero fixed-point image of the fraction `num / den`.
    pub fn ratio(num: i64, den: i64) -> (r: Fx)
        requires
            den > 0,
        ensures
            r@ == fx_ratio(num as int, den as int),
    {
        proof {
            lemma_i64_product_bounded(num as int, FX_ONE as int);
        }
        let p: i128 = (num as i128) * (FX_ONE as i128);
        Fx { m: tdiv_narrow(p, den as u128) }
    }

    pub fn zero() -> (r: Fx)
        ensures
            r@ == 0,
    {
        Fx { m: 0 }
    }

    pub fn one() -> (r: Fx)
        ensures
            r@ == FX_ONE as int,
    {
        Fx { m: FX_ONE }
    }

    pub fn plus(self, o: Fx) -> (r: Fx)
        ensures
            r@ == fx_add(self@, o@),
    {
        let s: i128 = self.m as i128 + o.m as i128;
        Fx { m: clamp_narrow(s) }
    }

    pub fn minus(self, o: Fx) -> (r: Fx)
        ensures
            r@ == fx_sub(self@, o@),
    {
        let s: i128 = self.m as i128 - o.m as i128;
        Fx { m: clamp_narrow(s) }
    }

    pub fn times(self, o: Fx) -> (r: Fx)
        ensures
            r@ == fx_mul(self@, o@),
    {
        proof {
            lemma_i64_product_bounded(self.m as int, o.m as int);
        }
        let p: i128 = (self.m as i128) * (o.m as i128);
        Fx { m: tdiv_narrow(p, FX_ONE as u128) }
    }

    pub fn neg(self) -> (r: Fx)
        ensures
            r@ == fx_neg(self@),
    {
        if self.m == i64::MIN {
            Fx { m: i64::MAX }
        } else {
            Fx { m: -self.m }
        }
    }

    pub fn abs_val(self) -> (r: Fx)
        ensures
            r@ == fx_abs(self@),
    {
        if self.m < 0 {
            self.neg()
        } else {
            self
        }
    }

    /// The average of two values, rounding toward zero.
    pub fn midpoint(self, o: Fx) -> (r: Fx)
        ensures
            r@ == fx_mid(self@, o@),
    {
        let s: i128 = self.m as i128 + o.m as i128;
        if s >= 0 {
            let q: u128 = (s as u128) / 2;
            Fx { m: q as i64 }
        } else {
            let q: u128 = ((-s) as u128) / 2;
            if q >= 0x8000_0000_0000_0000u128 {
                Fx { m: i64::MIN }
            } else {
                Fx { m: -(q as i64) }
            }
        }
    }

    /// Half of the value, rounding toward zero.
    pub fn half(self) -> (r: Fx)
        ensures
            r@ == tdiv(self@, 2),
    {
        self.midpoint(Fx { m: 0 })
    }

    /// The quotient of two values, rounding toward zero.
    pub fn div(self, o: Fx) -> (r: Fx)
        requires
            o@ != 0,
        ensures
            r@ == fx_div(self@, o@),
    {
        proof {
            lemma_i64_product_bounded(self.m as int, FX_ONE as int);
        }
        let p: i128 = (self.m as i128) * (FX_ONE as i128);
        if o.m > 0 {
            Fx { m: tdiv_narrow(p, o.m as u128) }
        } else {
            let mag: u128 = if o.m == i64::MIN {
                0x8000_0000_0000_0000u128
            } else {
                (-o.m) as u128
            };
            Fx { m: tdiv_narrow(-p, mag) }
        }
    }

    /// The value divided by a positive integer, rounding toward zero.
    pub fn div_int(self, d: i64) -> (r: Fx)
        requires
            d > 0,
        ensures
            r@ == tdiv(self@, d as int),
    {
        Fx { m: tdiv_narrow(self.m as i128, d as u128) }
    }

    /// The square root of a nonnegative value.
    pub fn sqrt_val(self) -> (r: Fx)
        requires
            self@ >= 0,
        ensures
            r@ == fx_sqrt(self@),
            is_sqrt_floor(self@ * FX_ONE, r@),
    {
        proof {
            lemma_i64_product_bounded(self.m as int, FX_ONE as int);
        }
        let wide: u128 = ((self.m as i128) * (FX_ONE as i128)) as u128;
        let root: u64 = isqrt(wide);
        proof {
            assert(is_sqrt_floor(self@ * FX_ONE, root as int));
            lemma_sqrt_floor_unique(self@ * FX_ONE, root as int, fx_sqrt(self@));
            assert((root as int) * (root as int) <= self@ * FX_ONE);
            assert(self@ * FX_ONE < 0x4000_0000_0000_0000_0000_0000_0000_0000) by (nonlinear_arith)
                requires
                    0 <= self@ <= 0x7fff_ffff_ffff_ffff,
            ;
            assert(root as int <= 0x7fff_ffff_ffff_ffff) by (nonlinear_arith)
                requires
                    (root as int) * (root as int) <= self@ * FX_ONE,
                    self@ * FX_ONE < 0x4000_0000_0000_0000_0000_0000_0000_0000,
                    root as int >= 0,
            ;
        }
        Fx { m: root as i64 }
    }

    pub fn le(self, o: Fx) -> (r: bool)
        ensures
            r == (self@ <= o@),
    {
        self.m <= o.m
    }

    pub fn lt(self, o: Fx) -> (r: bool)
        ensures
            r == (self@ < o@),
    {
        self.m < o.m
    }

    pub fn min_val(self, o: Fx) -> (r: Fx)
        ensures
            r@ == if self@ <= o@ {
                self@
            } else {
                o@
            },
    {
        if self.m <= o.m {
            self
        } else {
            o
        }
    }

    pub fn max_val(self, o: Fx) -> (r: Fx)
        ensures
            r@ == if self@ >= o@ {
                self@
            } else {
                o@
            },
    {
        if self.m >= o.m {
            self
        } else {
            o
        }
    }
}

} // verus!
