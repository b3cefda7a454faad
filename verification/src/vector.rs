//! Three-component vectors over fixed-point scalars.
use crate::scalar::{
    add_spec, clamp, is_isqrt, isqrt, isqrt_u128, lemma_isqrt_exists, lemma_isqrt_unique,
    mul_spec, sub_spec, trunc_div, Scalar, RAW_INFINITY, SCALE,
};
use crate::rounding::lemma_scaled_length;
use vstd::prelude::*;

verus! {

/// The mathematical value of a [`Vector`]: the numerators of its three
/// components.
pub struct VectorView {
    pub x: int,
    pub y: int,
    pub z: int,
}

/// The absolute value of `x`.
pub open spec fn abs_spec(x: int) -> int {
    if x < 0 {
        -x
    } else {
        x
    }
}

/// The quotient of `x` by `d`, rounded to the nearest integer, halves away
/// from zero, for `d > 0`.
pub open spec fn nearest_div(x: int, d: int) -> int
    recommends
        d > 0,
{
    if x >= 0 {
        (2 * x + d) / (2 * d)
    } else {
        -((-2 * x + d) / (2 * d))
    }
}

/// The numerator from which on a component is measured coarsely: ten
/// thousand million units.
pub open spec fn fine_limit() -> int {
    10_000_000_000_000_000_000
}

/// The step of the coarse measure: ten units.
pub open spec fn coarse_step() -> int {
    10_000_000_000
}

/// The size that the largest component has at least when a direction is
/// taken: a thousand million units.
pub open spec fn working_size() -> int {
    1_000_000_000_000_000_000
}

impl VectorView {
    /// This vector with every component multiplied by `k`.
    pub open spec fn times(self, k: int) -> VectorView {
        VectorView { x: mul_spec(k, self.x), y: mul_spec(k, self.y), z: mul_spec(k, self.z) }
    }

    /// The component-wise sum.
    pub open spec fn plus(self, v: VectorView) -> VectorView {
        VectorView { x: add_spec(self.x, v.x), y: add_spec(self.y, v.y), z: add_spec(self.z, v.z) }
    }

    /// The component-wise difference.
    pub open spec fn minus(self, v: VectorView) -> VectorView {
        VectorView { x: sub_spec(self.x, v.x), y: sub_spec(self.y, v.y), z: sub_spec(self.z, v.z) }
    }

    /// The dot product.
    pub open spec fn dot(self, v: VectorView) -> int {
        add_spec(add_spec(mul_spec(self.x, v.x), mul_spec(self.y, v.y)), mul_spec(self.z, v.z))
    }

    /// The cross product.
    pub open spec fn cross(self, v: VectorView) -> VectorView {
        VectorView {
            x: sub_spec(mul_spec(self.y, v.z), mul_spec(self.z, v.y)),
            y: sub_spec(mul_spec(self.z, v.x), mul_spec(self.x, v.z)),
            z: sub_spec(mul_spec(self.x, v.y), mul_spec(self.y, v.x)),
        }
    }

    /// Whether every component is zero.
    pub open spec fn is_zero(self) -> bool {
        self.x == 0 && self.y == 0 && self.z == 0
    }

    /// The sum of the squares of the numerators, exact.
    pub open spec fn square(self) -> int {
        self.x * self.x + self.y * self.y + self.z * self.z
    }

    /// The size of the largest component.
    pub open spec fn largest(self) -> int {
        let a = abs_spec(self.x);
        let b = abs_spec(self.y);
        let c = abs_spec(self.z);
        if a >= b && a >= c {
            a
        } else if b >= c {
            b
        } else {
            c
        }
    }

    /// This vector in steps of ten units: every numerator over the coarse
    /// step, rounded toward zero.
    pub open spec fn coarse(self) -> VectorView {
        VectorView {
            x: trunc_div(self.x, coarse_step()),
            y: trunc_div(self.y, coarse_step()),
            z: trunc_div(self.z, coarse_step()),
        }
    }

    /// This vector with every numerator multiplied by ten.
    pub open spec fn tenfold(self) -> VectorView {
        VectorView { x: 10 * self.x, y: 10 * self.y, z: 10 * self.z }
    }

    /// By how much the largest component falls short of the working size.
    pub open spec fn short_of_working(self) -> int {
        if self.largest() >= working_size() {
            0
        } else {
            working_size() - self.largest()
        }
    }

    /// This vector multiplied by ten as often as it takes for its largest
    /// component to reach the working size. The direction stays the same.
    pub open spec fn lifted(self) -> VectorView
        decreases self.short_of_working(),
        via Self::lifted_decreases
    {
        if self.largest() <= 0 || self.largest() >= working_size() {
            self
        } else {
            self.tenfold().lifted()
        }
    }

    #[via_fn]
    proof fn lifted_decreases(self) {
        lemma_tenfold_largest(self);
    }

    /// The vector that stands for this one where a length is taken: itself
    /// where every component is below the fine limit, else its coarse form.
    pub open spec fn measured(self) -> VectorView {
        if self.largest() < fine_limit() {
            self
        } else {
            self.coarse()
        }
    }

    /// The length, rounded down: the integer square root of the exact sum
    /// of squares. Where a component reaches the fine limit the length is
    /// taken of the coarse form and is a multiple of the coarse step.
    pub open spec fn mag(self) -> int {
        if self.largest() < fine_limit() {
            isqrt(self.square())
        } else {
            clamp(coarse_step() * isqrt(self.coarse().square()))
        }
    }

    /// The vector in the same direction whose length has the numerator
    /// `len`: every component times `len` over the length, rounded to the
    /// nearest numerator. The quotient is taken of the lifted vector, so
    /// that short vectors keep their direction. The zero vector has no
    /// direction: the scale is then infinite, and so is every component of
    /// the result.
    pub open spec fn with_length(self, len: int) -> VectorView {
        if self.is_zero() {
            VectorView { x: RAW_INFINITY as int, y: RAW_INFINITY as int, z: RAW_INFINITY as int }
        } else {
            let w = self.measured().lifted();
            let m = isqrt(w.square());
            VectorView {
                x: nearest_div(w.x * len, m),
                y: nearest_div(w.y * len, m),
                z: nearest_div(w.z * len, m),
            }
        }
    }

    /// The vector scaled to unit length.
    pub open spec fn norm(self) -> VectorView {
        self.with_length(SCALE as int)
    }
}

/// The vector whose components are the given numbers of thousandths.
pub open spec fn thousandths_spec(x: int, y: int, z: int) -> VectorView {
    VectorView { x: x * (SCALE / 1000), y: y * (SCALE / 1000), z: z * (SCALE / 1000) }
}

/// A vector in space, or a direction.
#[derive(Clone, Copy, Debug, PartialEq, Eq, Structural)]
pub struct Vector {
    pub x: Scalar,
    pub y: Scalar,
    pub z: Scalar,
}

impl View for Vector {
    type V = VectorView;

    open spec fn view(&self) -> VectorView {
        VectorView { x: self.x@, y: self.y@, z: self.z@ }
    }
}

/// The size of a numerator.
fn size_of(c: i128) -> (r: u128)
    requires
        -RAW_INFINITY <= c <= RAW_INFINITY,
    ensures
        r == abs_spec(c as int),
{
    if c < 0 {
        (0 - c) as u128
    } else {
        c as u128
    }
}

/// The exact sum of the squares of three numerators of moderate size.
fn sum_of_squares(x: i128, y: i128, z: i128) -> (r: u128)
    requires
        abs_spec(x as int) <= fine_limit(),
        abs_spec(y as int) <= fine_limit(),
        abs_spec(z as int) <= fine_limit(),
    ensures
        r == (VectorView { x: x as int, y: y as int, z: z as int }).square(),
        r <= 3 * (fine_limit() * fine_limit()),
{
    let (a, b, c) = (size_of(x), size_of(y), size_of(z));
    proof {
        lemma_square_of_size(x as int);
        lemma_square_of_size(y as int);
        lemma_square_of_size(z as int);
        lemma_square_bound(a as int, fine_limit());
        lemma_square_bound(b as int, fine_limit());
        lemma_square_bound(c as int, fine_limit());
    }
    a * a + b * b + c * c
}

/// The numerator of `c * len` over `m`, rounded to the nearest.
fn nearest(c: i128, len: u128, m: u128) -> (r: i128)
    requires
        abs_spec(c as int) <= fine_limit(),
        0 < len <= 2 * SCALE,
        0 < m <= 2 * fine_limit(),
    ensures
        r == nearest_div(c * len, m as int),
{
    let size = size_of(c);
    proof {
        assert(0 <= size * len <= fine_limit() * (2 * SCALE)) by (nonlinear_arith)
            requires
                0 <= size <= fine_limit(),
                0 < len <= 2 * SCALE,
        ;
        assert((c >= 0 ==> c * len == size * len) && (c < 0 ==> -2 * (c * len) == 2 * (size
            * len) && c * len < 0)) by (nonlinear_arith)
            requires
                size == (if c < 0 { -c } else { c as int }),
                len > 0,
        ;
    }
    let q: u128 = (2 * (size * len) + m) / (2 * m);
    proof {
        assert(q <= 2 * (size * len) + m) by (nonlinear_arith)
            requires
                q == (2 * (size * len) + m) / (2 * m),
                m > 0,
                size * len >= 0,
        ;
    }
    if c < 0 {
        0 - (q as i128)
    } else {
        q as i128
    }
}

/// The square of a number is the square of its size.
pub proof fn lemma_square_of_size(x: int)
    ensures
        abs_spec(x) * abs_spec(x) == x * x,
        x * x >= 0,
{
    assert(abs_spec(x) * abs_spec(x) == x * x && x * x >= 0) by (nonlinear_arith)
        requires
            abs_spec(x) == x || abs_spec(x) == -x,
    ;
}

/// The square of a size within a bound is within the square of the bound.
pub proof fn lemma_square_bound(a: int, bound: int)
    requires
        0 <= a <= bound,
    ensures
        0 <= a * a <= bound * bound,
{
    assert(0 <= a * a <= bound * bound) by (nonlinear_arith)
        requires
            0 <= a <= bound,
    ;
}

/// Ten times a vector has ten times its largest component.
pub proof fn lemma_tenfold_largest(v: VectorView)
    ensures
        v.tenfold().largest() == 10 * v.largest(),
{
}

/// The integer square root of a number is zero only for zero.
pub proof fn lemma_isqrt_positive(n: int)
    requires
        n >= 1,
    ensures
        isqrt(n) >= 1,
{
    lemma_isqrt_exists(n);
    let r = isqrt(n);
    if r == 0 {
        assert((r + 1) * (r + 1) == 1) by (nonlinear_arith)
            requires
                r == 0,
        ;
    }
}

/// The exact sum of squares is zero only for the zero vector.
pub proof fn lemma_square_zero(v: VectorView)
    ensures
        v.square() >= 0,
        v.square() == 0 <==> v.is_zero(),
        v.square() >= v.largest() * v.largest(),
{
    lemma_square_of_size(v.x);
    lemma_square_of_size(v.y);
    lemma_square_of_size(v.z);
    assert(v.x != 0 ==> v.x * v.x >= 1) by (nonlinear_arith);
    assert(v.y != 0 ==> v.y * v.y >= 1) by (nonlinear_arith);
    assert(v.z != 0 ==> v.z * v.z >= 1) by (nonlinear_arith);
    assert(0 * 0 == 0);
}

/// The length is not negative, and zero only for the zero vector.
pub proof fn lemma_mag_zero(v: VectorView)
    ensures
        v.mag() >= 0,
        v.mag() == 0 <==> v.is_zero(),
{
    if v.largest() < fine_limit() {
        lemma_square_zero(v);
        lemma_isqrt_exists(v.square());
        if !v.is_zero() {
            lemma_isqrt_positive(v.square());
        } else {
            assert(is_isqrt(0, 0));
            lemma_isqrt_unique(0, 0);
        }
    } else {
        let c = v.coarse();
        lemma_square_zero(c);
        assert(c.largest() >= 1);
        assert(c.largest() * c.largest() >= 1) by (nonlinear_arith)
            requires
                c.largest() >= 1,
        ;
        lemma_isqrt_positive(c.square());
    }
}

/// The length of a vector whose largest component has the working size
/// is at least that size and at most twice the fine limit.
pub proof fn lemma_working_length(w: VectorView)
    requires
        working_size() <= w.largest() <= fine_limit(),
    ensures
        working_size() <= isqrt(w.square()) <= 2 * fine_limit(),
        is_isqrt(w.square(), isqrt(w.square())),
{
    lemma_square_zero(w);
    lemma_square_of_size(w.x);
    lemma_square_of_size(w.y);
    lemma_square_of_size(w.z);
    lemma_square_bound(abs_spec(w.x), fine_limit());
    lemma_square_bound(abs_spec(w.y), fine_limit());
    lemma_square_bound(abs_spec(w.z), fine_limit());
    lemma_square_bound(working_size(), w.largest());
    lemma_isqrt_exists(w.square());
    let m = isqrt(w.square());
    if m < working_size() {
        lemma_square_bound(m + 1, working_size());
    }
    if m > 2 * fine_limit() {
        lemma_square_bound(2 * fine_limit(), m);
    }
}

impl Vector {
    /// The vector with the given components.
    pub fn new(x: Scalar, y: Scalar, z: Scalar) -> (r: Vector)
        ensures
            r@ == (VectorView { x: x@, y: y@, z: z@ }),
    {
        Vector { x, y, z }
    }

    /// The vector whose components are the given numbers of thousandths.
    pub fn from_thousandths(x: i32, y: i32, z: i32) -> (r: Vector)
        ensures
            r@ == thousandths_spec(x as int, y as int, z as int),
    {
        Vector {
            x: Scalar::from_thousandths(x),
            y: Scalar::from_thousandths(y),
            z: Scalar::from_thousandths(z),
        }
    }

    /// This vector with every component multiplied by `k`.
    pub fn times(&self, k: Scalar) -> (r: Vector)
        ensures
            r@ == self@.times(k@),
    {
        Vector { x: k.mul(self.x), y: k.mul(self.y), z: k.mul(self.z) }
    }

    /// The component-wise sum.
    pub fn plus(&self, v: &Vector) -> (r: Vector)
        ensures
            r@ == self@.plus(v@),
    {
        Vector { x: self.x.add(v.x), y: self.y.add(v.y), z: self.z.add(v.z) }
    }

    /// The component-wise difference.
    pub fn minus(&self, v: &Vector) -> (r: Vector)
        ensures
            r@ == self@.minus(v@),
    {
        Vector { x: self.x.sub(v.x), y: self.y.sub(v.y), z: self.z.sub(v.z) }
    }

    /// The dot product.
    pub fn dot(&self, v: &Vector) -> (r: Scalar)
        ensures
            r@ == self@.dot(v@),
    {
        self.x.mul(v.x).add(self.y.mul(v.y)).add(self.z.mul(v.z))
    }

    /// The cross product.
    pub fn cross(&self, v: &Vector) -> (r: Vector)
        ensures
            r@ == self@.cross(v@),
    {
        Vector {
            x: self.y.mul(v.z).sub(self.z.mul(v.y)),
            y: self.z.mul(v.x).sub(self.x.mul(v.z)),
            z: self.x.mul(v.y).sub(self.y.mul(v.x)),
        }
    }

    /// The length of the vector.
    pub fn mag(&self) -> (r: Scalar)
        ensures
            r@ == self@.mag(),
            r@ >= 0,
            r@ == 0 <==> self@.is_zero(),
    {
        let (x, y, z) = (self.x.raw(), self.y.raw(), self.z.raw());
        proof {
            lemma_mag_zero(self@);
        }
        if size_of(x) < 10_000_000_000_000_000_000 && size_of(y) < 10_000_000_000_000_000_000
            && size_of(z) < 10_000_000_000_000_000_000 {
            let total: u128 = sum_of_squares(x, y, z);
            let root = isqrt_u128(total);
            proof {
                assert(root < 0x1_0000_0000_0000_0000) by (nonlinear_arith)
                    requires
                        root * root <= total,
                        total <= 0xffff_ffff_ffff_ffff_ffff_ffff_ffff_ffff,
                        root >= 0,
                {
                    if root >= 0x1_0000_0000_0000_0000 {
                        assert(root * root >= 0x1_0000_0000_0000_0000 * 0x1_0000_0000_0000_0000);
                    }
                }
            }
            Scalar::from_raw(root as i128)
        } else {
            let step: i128 = 10_000_000_000;
            let (cx, cy, cz) = (x / step, y / step, z / step);
            let total: u128 = sum_of_squares(cx, cy, cz);
            let root = isqrt_u128(total);
            proof {
                assert(root < 0x1_0000_0000_0000_0000) by (nonlinear_arith)
                    requires
                        root * root <= total,
                        total <= 0xffff_ffff_ffff_ffff_ffff_ffff_ffff_ffff,
                        root >= 0,
                {
                    if root >= 0x1_0000_0000_0000_0000 {
                        assert(root * root >= 0x1_0000_0000_0000_0000 * 0x1_0000_0000_0000_0000);
                    }
                }
            }
            Scalar::from_raw((root as i128) * step)
        }
    }

    /// The vector scaled to unit length. Where every component is zero the
    /// scale is infinite and every component of the result is infinity.
    pub fn norm(&self) -> (r: Vector)
        ensures
            r@ == self@.norm(),
            !self@.is_zero() ==> abs_spec(r@.mag() - SCALE) <= 1,
    {
        self.with_length(Scalar::one())
    }

    /// The vector in the same direction with the length `len`, for a
    /// length from one to two. Where every component is zero the scale is
    /// infinite and every component of the result is infinity.
    pub(crate) fn with_length(&self, len: Scalar) -> (r: Vector)
        requires
            SCALE <= len@ <= 2 * SCALE,
        ensures
            r@ == self@.with_length(len@),
            !self@.is_zero() ==> abs_spec(r@.mag() - len@) <= 1,
    {
        let (x, y, z) = (self.x.raw(), self.y.raw(), self.z.raw());
        if x == 0 && y == 0 && z == 0 {
            let inf = Scalar::infinity();
            return Vector { x: inf, y: inf, z: inf };
        }
        let step: i128 = 10_000_000_000;
        let fine = size_of(x) < 10_000_000_000_000_000_000 && size_of(y)
            < 10_000_000_000_000_000_000 && size_of(z) < 10_000_000_000_000_000_000;
        let (mut wx, mut wy, mut wz) = if fine {
            (x, y, z)
        } else {
            (x / step, y / step, z / step)
        };
        let ghost start = VectorView { x: wx as int, y: wy as int, z: wz as int };
        assert(start == self@.measured());
        assert(start.largest() > 0);
        while size_of(wx) < 1_000_000_000_000_000_000 && size_of(wy) < 1_000_000_000_000_000_000
            && size_of(wz) < 1_000_000_000_000_000_000
            invariant
                (VectorView { x: wx as int, y: wy as int, z: wz as int }).lifted() == start.lifted(),
                0 < (VectorView { x: wx as int, y: wy as int, z: wz as int }).largest()
                    <= 10_000_000_000_000_000_000,
            decreases (VectorView { x: wx as int, y: wy as int, z: wz as int }).short_of_working(),
        {
            proof {
                lemma_tenfold_largest(VectorView { x: wx as int, y: wy as int, z: wz as int });
            }
            wx = wx * 10;
            wy = wy * 10;
            wz = wz * 10;
        }
        let ghost w = VectorView { x: wx as int, y: wy as int, z: wz as int };
        assert(w == start.lifted());
        let total: u128 = sum_of_squares(wx, wy, wz);
        let m = isqrt_u128(total);
        let l: u128 = len.raw() as u128;
        proof {
            lemma_working_length(w);
            lemma_scaled_length(w, m as int, l as int);
        }
        Vector {
            x: Scalar::from_raw(nearest(wx, l, m)),
            y: Scalar::from_raw(nearest(wy, l, m)),
            z: Scalar::from_raw(nearest(wz, l, m)),
        }
    }

    /// Computes the dot product with `v` and hands it to `pos` if it is
    /// positive, to `neg` otherwise; a product of zero goes to `neg`.
    pub fn dot_pos_neg<T, F1, F2>(&self, v: &Vector, pos: F1, neg: F2) -> (r: T) where
        F1: FnOnce(Scalar) -> T,
        F2: FnOnce(Scalar) -> T,

        requires
            forall|d: Scalar| d@ == self@.dot(v@) && d@ > 0 ==> pos.requires((d,)),
            forall|d: Scalar| d@ == self@.dot(v@) && d@ <= 0 ==> neg.requires((d,)),
        ensures
            self@.dot(v@) > 0 ==> exists|d: Scalar| d@ == self@.dot(v@) && pos.ensures((d,), r),
            self@.dot(v@) <= 0 ==> exists|d: Scalar| d@ == self@.dot(v@) && neg.ensures((d,), r),
    {
        let d = self.dot(v);
        if d.is_positive() {
            pos(d)
        } else {
            neg(d)
        }
    }
}

} // verus!
