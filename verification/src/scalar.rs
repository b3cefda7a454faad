//! Fixed-point scalars.
//!
//! A [`Scalar`] holds a signed numerator over the fixed denominator
//! [`SCALE`]: the number it denotes is its numerator over `SCALE`, with nine
//! decimal places. Numbers reach from minus to plus a hundred million
//! million million. Every operation is total on its stated domain and
//! saturates at the ends of that range, so the largest numerator plays the
//! part of positive infinity. Nothing saturates before the exact result
//! leaves the range.
//!
//! Products are rounded toward zero. Quotients are rounded away from zero,
//! so that a quotient is zero only where the dividend is.
//!
//! The view of a `Scalar` is its numerator as a mathematical integer, and the
//! spec functions of this module say, on integers, what each operation
//! returns.
use vstd::prelude::*;

verus! {

/// The denominator shared by all numerators: nine decimal places.
pub const SCALE: i128 = 1_000_000_000;

/// The numerator of positive infinity.
pub const RAW_INFINITY: i128 = 100_000_000_000_000_000_000_000_000_000;

/// The numerator of negative infinity.
pub const RAW_NEG_INFINITY: i128 = -100_000_000_000_000_000_000_000_000_000;

/// The nearest numerator to `x` that a `Scalar` can hold.
pub open spec fn clamp(x: int) -> int {
    if x < RAW_NEG_INFINITY {
        RAW_NEG_INFINITY as int
    } else if x > RAW_INFINITY {
        RAW_INFINITY as int
    } else {
        x
    }
}

/// The quotient of `x` by `d`, rounded toward zero, for `d > 0`.
pub open spec fn trunc_div(x: int, d: int) -> int
    recommends
        d > 0,
{
    if x >= 0 {
        x / d
    } else {
        -((-x) / d)
    }
}

/// Whether `r` is the integer square root of `n`: the largest integer whose
/// square does not exceed `n`.
pub open spec fn is_isqrt(n: int, r: int) -> bool {
    0 <= r && r * r <= n && n < (r + 1) * (r + 1)
}

/// The integer square root of `n`, for `n >= 0`.
pub open spec fn isqrt(n: int) -> int
    recommends
        n >= 0,
{
    choose|r: int| is_isqrt(n, r)
}

/// The numerator of the whole number `n`.
pub open spec fn from_int_spec(n: int) -> int {
    clamp(n * SCALE)
}

/// The numerator of `a + b`.
pub open spec fn add_spec(a: int, b: int) -> int {
    clamp(a + b)
}

/// The numerator of `a - b`.
pub open spec fn sub_spec(a: int, b: int) -> int {
    clamp(a - b)
}

/// The numerator of `-a`.
pub open spec fn neg_spec(a: int) -> int {
    clamp(-a)
}

/// The numerator of `a * b`, rounded toward zero.
pub open spec fn mul_spec(a: int, b: int) -> int {
    clamp(trunc_div(a * b, SCALE as int))
}

/// The quotient of `x` by `d`, rounded away from zero, for `d > 0`.
pub open spec fn away_div(x: int, d: int) -> int
    recommends
        d > 0,
{
    if x >= 0 {
        (x + d - 1) / d
    } else {
        -((-x + d - 1) / d)
    }
}

/// The numerator of `a / b`, rounded away from zero, for `b != 0`.
pub open spec fn div_spec(a: int, b: int) -> int
    recommends
        b != 0,
{
    if b > 0 {
        clamp(away_div(a * SCALE, b))
    } else {
        clamp(away_div(-(a * SCALE), -b))
    }
}

/// The numerator of the square root of `a`, rounded down, for `a >= 0`.
pub open spec fn sqrt_spec(a: int) -> int
    recommends
        a >= 0,
{
    isqrt(a * SCALE)
}

/// The numerator of `a` raised to the power `n`: the product of `n` factors
/// `a`, multiplied from the left, each product rounded as `mul_spec` rounds.
pub open spec fn powi_spec(a: int, n: nat) -> int
    decreases n,
{
    if n == 0 {
        SCALE as int
    } else {
        mul_spec(powi_spec(a, (n - 1) as nat), a)
    }
}

/// The largest whole number that does not exceed the number with numerator
/// `a`.
pub open spec fn floor_spec(a: int) -> int {
    a / (SCALE as int)
}

/// A fixed-point number.
#[derive(Clone, Copy, Debug, PartialEq, Eq, Structural)]
pub struct Scalar {
    raw: i128,
}

impl View for Scalar {
    type V = int;

    /// The numerator, which never leaves the range between the two
    /// infinities.
    closed spec fn view(&self) -> int {
        clamp(self.raw as int)
    }
}

/// The numerator of a number lies between those of the two infinities.
pub proof fn lemma_in_range(s: Scalar)
    ensures
        RAW_NEG_INFINITY <= s@ <= RAW_INFINITY,
{
}

/// At most one integer is the integer square root of `n`.
pub proof fn lemma_isqrt_unique(n: int, r: int)
    requires
        is_isqrt(n, r),
    ensures
        isqrt(n) == r,
{
    let s = isqrt(n);
    assert(is_isqrt(n, s));
    assert(s == r) by (nonlinear_arith)
        requires
            0 <= r,
            r * r <= n,
            n < (r + 1) * (r + 1),
            0 <= s,
            s * s <= n,
            n < (s + 1) * (s + 1),
    {
        if s < r {
            assert((s + 1) * (s + 1) <= r * r);
        } else if r < s {
            assert((r + 1) * (r + 1) <= s * s);
        }
    }
}

/// Every number that is not negative has an integer square root.
pub proof fn lemma_isqrt_exists(n: int)
    requires
        n >= 0,
    ensures
        is_isqrt(n, isqrt(n)),
    decreases n,
{
    if n == 0 {
        assert(is_isqrt(0, 0));
    } else {
        lemma_isqrt_exists(n - 1);
        let r = isqrt(n - 1);
        if n < (r + 1) * (r + 1) {
            assert(is_isqrt(n, r));
        } else {
            assert(is_isqrt(n, r + 1)) by (nonlinear_arith)
                requires
                    0 <= r,
                    n - 1 < (r + 1) * (r + 1),
                    n >= (r + 1) * (r + 1),
            ;
        }
    }
}

/// The integer square root does not fall where its argument grows.
pub proof fn lemma_isqrt_monotonic(a: int, b: int)
    requires
        0 <= a <= b,
    ensures
        0 <= isqrt(a) <= isqrt(b),
{
    lemma_isqrt_exists(a);
    lemma_isqrt_exists(b);
    let r = isqrt(a);
    let s = isqrt(b);
    assert(r <= s) by (nonlinear_arith)
        requires
            0 <= r,
            0 <= s,
            r * r <= a,
            a <= b,
            b < (s + 1) * (s + 1),
    {
        if s < r {
            assert((s + 1) * (s + 1) <= r * r);
        }
    }
}

/// The product of a whole number and a number is exact, as long as it
/// stays between the two infinities.
pub proof fn lemma_whole_product(n: int, y: int)
    requires
        RAW_NEG_INFINITY <= n * y <= RAW_INFINITY,
    ensures
        mul_spec(n * SCALE, y) == n * y,
        mul_spec(y, n * SCALE) == n * y,
{
    let p = (n * SCALE) * y;
    let q = n * y;
    assert(p == q * 1_000_000_000 && y * (n * SCALE) == p) by (nonlinear_arith)
        requires
            p == (n * SCALE) * y,
            q == n * y,
            SCALE == 1_000_000_000,
    ;
    assert(trunc_div(q * 1_000_000_000, 1_000_000_000) == q);
}

/// The number that `x` is, brought into the range.
fn saturate(x: i128) -> (r: Scalar)
    ensures
        r@ == clamp(x as int),
        r.raw == r@,
{
    if x < RAW_NEG_INFINITY {
        Scalar { raw: RAW_NEG_INFINITY }
    } else if x > RAW_INFINITY {
        Scalar { raw: RAW_INFINITY }
    } else {
        Scalar { raw: x }
    }
}

/// The number with the size `size` and the sign that `negative` tells,
/// brought into the range.
fn signed(size: u128, negative: bool) -> (r: Scalar)
    ensures
        r@ == clamp(if negative { -(size as int) } else { size as int }),
{
    let top: u128 = RAW_INFINITY as u128;
    let held: i128 = if size > top { RAW_INFINITY } else { size as i128 };
    if negative {
        saturate(0 - held)
    } else {
        saturate(held)
    }
}

/// The size of the product of two sizes over `SCALE`, rounded down, or
/// none where it is beyond the range.
fn size_of_product(ua: u128, ub: u128) -> (r: Option<u128>)
    requires
        ua <= RAW_INFINITY,
        ub <= RAW_INFINITY,
    ensures
        match r {
            Some(size) => size == (ua * ub) / (SCALE as int),
            None => (ua * ub) / (SCALE as int) > RAW_INFINITY,
        },
{
    let scale: u128 = SCALE as u128;
    let a_hi: u128 = ua / scale;
    let a_lo: u128 = ua % scale;
    let b_hi: u128 = ub / scale;
    let b_lo: u128 = ub % scale;
    let most: u128 = 100_000_000_000_000_000_000;
    proof {
        assert(ua == a_hi * 1_000_000_000 + a_lo && ub == b_hi * 1_000_000_000 + b_lo);
        assert(ua * ub == 1_000_000_000 * (a_hi * b_hi * 1_000_000_000 + a_hi * b_lo + a_lo
            * b_hi) + a_lo * b_lo) by (nonlinear_arith)
            requires
                ua == a_hi * 1_000_000_000 + a_lo,
                ub == b_hi * 1_000_000_000 + b_lo,
        ;
        assert(0 <= a_lo * b_lo <= 1_000_000_000 * 1_000_000_000) by (nonlinear_arith)
            requires
                0 <= a_lo < 1_000_000_000,
                0 <= b_lo < 1_000_000_000,
        ;
        assert(0 <= a_hi * b_lo <= 100_000_000_000_000_000_000 * 1_000_000_000)
            by (nonlinear_arith)
            requires
                0 <= a_hi <= 100_000_000_000_000_000_000,
                0 <= b_lo < 1_000_000_000,
        ;
        assert(0 <= a_lo * b_hi <= 1_000_000_000 * 100_000_000_000_000_000_000)
            by (nonlinear_arith)
            requires
                0 <= b_hi <= 100_000_000_000_000_000_000,
                0 <= a_lo < 1_000_000_000,
        ;
        assert(0 <= a_hi * b_hi) by (nonlinear_arith)
            requires
                0 <= a_hi,
                0 <= b_hi,
        ;
    }
    let ghost whole: int = a_hi * b_hi * 1_000_000_000 + a_hi * b_lo + a_lo * b_hi;
    proof {
        assert((ua * ub) / 1_000_000_000 == whole + (a_lo * b_lo) / 1_000_000_000) by {
            let low = a_lo * b_lo;
            assert(ua * ub == 1_000_000_000 * whole + low);
        }
    }
    if a_hi != 0 && b_hi > most / a_hi {
        proof {
            let cap = (most / a_hi) as int;
            assert(a_hi * b_hi > 100_000_000_000_000_000_000) by (nonlinear_arith)
                requires
                    a_hi > 0,
                    b_hi >= cap + 1,
                    cap == 100_000_000_000_000_000_000int / (a_hi as int),
            ;
            assert(a_hi * b_hi * 1_000_000_000 > 100_000_000_000_000_000_000 * 1_000_000_000)
                by (nonlinear_arith)
                requires
                    a_hi * b_hi > 100_000_000_000_000_000_000,
            ;
        }
        None
    } else {
        proof {
            assert(a_hi * b_hi <= 100_000_000_000_000_000_000) by (nonlinear_arith)
                requires
                    a_hi == 0 || b_hi <= 100_000_000_000_000_000_000int / (a_hi as int),
                    0 <= a_hi,
                    0 <= b_hi,
            ;
            assert(a_hi * b_hi * 1_000_000_000 <= 100_000_000_000_000_000_000 * 1_000_000_000)
                by (nonlinear_arith)
                requires
                    a_hi * b_hi <= 100_000_000_000_000_000_000,
            ;
        }
        let total: u128 = a_hi * b_hi * scale + a_hi * b_lo + a_lo * b_hi + (a_lo * b_lo) / scale;
        if total > RAW_INFINITY as u128 {
            None
        } else {
            Some(total)
        }
    }
}

impl Scalar {
    /// The number with the given numerator, or the nearest end of the
    /// range where the numerator is beyond it.
    pub fn from_raw(raw: i128) -> (r: Scalar)
        ensures
            r@ == clamp(raw as int),
    {
        saturate(raw)
    }

    /// The numerator of this number.
    pub fn raw(self) -> (r: i128)
        ensures
            r == self@,
            RAW_NEG_INFINITY <= r <= RAW_INFINITY,
    {
        saturate(self.raw).raw
    }

    /// Zero.
    pub fn zero() -> (r: Scalar)
        ensures
            r@ == 0,
    {
        Scalar { raw: 0 }
    }

    /// One.
    pub fn one() -> (r: Scalar)
        ensures
            r@ == SCALE,
    {
        Scalar { raw: SCALE }
    }

    /// Positive infinity: the largest number there is.
    pub fn infinity() -> (r: Scalar)
        ensures
            r@ == RAW_INFINITY,
    {
        Scalar { raw: RAW_INFINITY }
    }

    /// Whether this number is below zero.
    pub fn is_negative(self) -> (r: bool)
        ensures
            r == (self@ < 0),
    {
        self.raw < 0
    }

    /// Whether this number is above zero.
    pub fn is_positive(self) -> (r: bool)
        ensures
            r == (self@ > 0),
    {
        self.raw > 0
    }

    /// Whether this number is zero.
    pub fn is_zero(self) -> (r: bool)
        ensures
            r == (self@ == 0),
    {
        self.raw == 0
    }

    /// Whether this number is below `rhs`.
    pub fn lt(self, rhs: Scalar) -> (r: bool)
        ensures
            r == (self@ < rhs@),
    {
        self.raw() < rhs.raw()
    }

    /// Whether this number is `rhs` or below it.
    pub fn le(self, rhs: Scalar) -> (r: bool)
        ensures
            r == (self@ <= rhs@),
    {
        self.raw() <= rhs.raw()
    }

    /// The whole number `n`.
    pub fn from_int(n: i64) -> (r: Scalar)
        ensures
            r@ == from_int_spec(n as int),
            r@ == n * SCALE,
    {
        saturate((n as i128) * SCALE)
    }

    /// The number `n / 1000`.
    pub fn from_thousandths(n: i32) -> (r: Scalar)
        ensures
            r@ == n * (SCALE / 1000),
    {
        Scalar { raw: (n as i128) * (SCALE / 1000) }
    }

    /// The sum of two numbers.
    pub fn add(self, rhs: Scalar) -> (r: Scalar)
        ensures
            r@ == add_spec(self@, rhs@),
    {
        saturate(self.raw() + rhs.raw())
    }

    /// The difference of two numbers.
    pub fn sub(self, rhs: Scalar) -> (r: Scalar)
        ensures
            r@ == sub_spec(self@, rhs@),
    {
        saturate(self.raw() - rhs.raw())
    }

    /// The number with the opposite sign.
    pub fn neg(self) -> (r: Scalar)
        ensures
            r@ == neg_spec(self@),
    {
        saturate(0 - self.raw())
    }

    /// The product of two numbers, rounded toward zero.
    pub fn mul(self, rhs: Scalar) -> (r: Scalar)
        ensures
            r@ == mul_spec(self@, rhs@),
    {
        let a = self.raw();
        let b = rhs.raw();
        let ua: u128 = if a < 0 { (0 - a) as u128 } else { a as u128 };
        let ub: u128 = if b < 0 { (0 - b) as u128 } else { b as u128 };
        let negative = (a < 0) != (b < 0);
        proof {
            assert(a * b == (if negative { -(ua * ub) } else { ua * ub })) by (nonlinear_arith)
                requires
                    ua == (if a < 0 { -a } else { a as int }),
                    ub == (if b < 0 { -b } else { b as int }),
                    negative == ((a < 0) != (b < 0)),
            ;
            assert(ua * ub >= 0) by (nonlinear_arith)
                requires
                    ua >= 0,
                    ub >= 0,
            ;
        }
        match size_of_product(ua, ub) {
            Some(size) => signed(size, negative),
            None => signed(RAW_INFINITY as u128, negative),
        }
    }

    /// The quotient of two numbers, rounded away from zero.
    pub fn div(self, rhs: Scalar) -> (r: Scalar)
        requires
            rhs@ != 0,
        ensures
            r@ == div_spec(self@, rhs@),
    {
        let a = self.raw();
        let b = rhs.raw();
        let ua: u128 = if a < 0 { (0 - a) as u128 } else { a as u128 };
        let ub: u128 = if b < 0 { (0 - b) as u128 } else { b as u128 };
        let negative = (a < 0) != (b < 0);
        let scaled: u128 = ua * 1_000_000_000;
        let size: u128 = (scaled + ub - 1) / ub;
        proof {
            let x = a * SCALE;
            assert(x == a * 1_000_000_000);
            if b > 0 {
                if a >= 0 {
                    assert(away_div(x, b as int) == size);
                } else {
                    assert(-x == scaled);
                    assert(away_div(x, b as int) == -(size as int));
                }
            } else {
                if a <= 0 {
                    assert(-x == scaled);
                    assert(away_div(-x, -b) == size);
                } else {
                    assert(away_div(-x, -b) == -(size as int));
                }
            }
            if a == 0 {
                vstd::arithmetic::div_mod::lemma_basic_div(ub - 1, ub as int);
            }
            let want = if negative { -(size as int) } else { size as int };
            assert(b > 0 ==> away_div(x, b as int) == want);
            assert(b < 0 ==> away_div(-x, -b) == want);
            assert(div_spec(a as int, b as int) == clamp(want));
        }
        let r = signed(size, negative);
        assert(r@ == clamp(if negative { -(size as int) } else { size as int }));
        r
    }

    /// The square root of a number that is not negative, rounded down.
    pub fn sqrt(self) -> (r: Scalar)
        requires
            self@ >= 0,
        ensures
            r@ == sqrt_spec(self@),
            is_isqrt(self@ * SCALE, r@),
    {
        let n: u128 = (self.raw() as u128) * (SCALE as u128);
        let r = isqrt_u128(n);
        proof {
            lemma_isqrt_unique(n as int, r as int);
            assert(r <= 10_000_000_000_000_000_000) by (nonlinear_arith)
                requires
                    r * r <= n,
                    n <= 100_000_000_000_000_000_000_000_000_000_000_000_000,
                    0 <= r,
            {
                if r > 10_000_000_000_000_000_000 {
                    assert(r * r >= 10_000_000_000_000_000_001 * 10_000_000_000_000_000_001);
                }
            }
        }
        Scalar { raw: r as i128 }
    }

    /// This number raised to the power `n`: `n` factors, multiplied from
    /// the left.
    pub fn powi(self, n: u32) -> (r: Scalar)
        ensures
            r@ == powi_spec(self@, n as nat),
    {
        let mut acc = Scalar::one();
        let mut i: u32 = 0;
        while i < n
            invariant
                i <= n,
                acc@ == powi_spec(self@, i as nat),
            decreases n - i,
        {
            acc = acc.mul(self);
            i = i + 1;
        }
        acc
    }

    /// The largest whole number that does not exceed this number.
    pub fn floor(self) -> (r: i128)
        ensures
            r == floor_spec(self@),
            -100_000_000_000_000_000_000 <= r <= 100_000_000_000_000_000_000,
    {
        let a = self.raw();
        let q: i128 = a / SCALE;
        if a % SCALE < 0 {
            q - 1
        } else {
            q
        }
    }
}

/// The integer square root of `n`.
pub fn isqrt_u128(n: u128) -> (r: u128)
    ensures
        is_isqrt(n as int, r as int),
        r == isqrt(n as int),
{
    let mut lo: u128 = 0;
    let mut hi: u128 = 0x1_0000_0000_0000_0000;
    assert(n < hi * hi) by (nonlinear_arith)
        requires
            n <= 0xffff_ffff_ffff_ffff_ffff_ffff_ffff_ffff,
            hi == 0x1_0000_0000_0000_0000,
    ;
    while hi - lo > 1
        invariant
            lo < hi <= 0x1_0000_0000_0000_0000,
            lo * lo <= n < hi * hi,
        decreases hi - lo,
    {
        let mid: u128 = lo + (hi - lo) / 2;
        assert(mid * mid <= 0xffff_ffff_ffff_ffff * 0xffff_ffff_ffff_ffff) by (nonlinear_arith)
            requires
                0 <= mid <= 0xffff_ffff_ffff_ffff,
        ;
        if mid * mid <= n {
            lo = mid;
        } else {
            hi = mid;
        }
    }
    proof {
        lemma_isqrt_unique(n as int, lo as int);
    }
    lo
}

} // verus!
