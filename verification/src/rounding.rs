//! How far rounding moves the vector algebra from exact arithmetic.
//!
//! Products are rounded to nine decimal places, so the cross product of
//! two vectors is orthogonal to them only up to a few units of the last
//! place. This module states that with its error, for vectors whose
//! components lie within a million units of zero, where nothing saturates.
//! It also shows that scaling to unit length gives a length of one to a
//! unit of the last place, for every vector that is not zero.
use crate::scalar::{
    is_isqrt, isqrt, lemma_isqrt_unique, mul_spec, trunc_div, RAW_INFINITY, SCALE,
};
use crate::vector::{
    abs_spec, fine_limit, lemma_square_bound, lemma_square_of_size, lemma_tenfold_largest,
    lemma_working_length, nearest_div, working_size, VectorView,
};
use vstd::prelude::*;

verus! {

/// The largest numerator, a million units, up to which the products in a
/// cross product followed by a dot product stay clear of saturation.
pub open spec fn moderate_limit() -> int {
    1_000_000 * SCALE
}

/// Whether every component of `v` lies within a million units of zero.
pub open spec fn is_moderate(v: VectorView) -> bool {
    &&& abs_spec(v.x) <= moderate_limit()
    &&& abs_spec(v.y) <= moderate_limit()
    &&& abs_spec(v.z) <= moderate_limit()
}

/// Rounding a product loses less than one unit of the last place, and
/// never moves it away from zero.
proof fn lemma_product_error(x: int, y: int, bound: int)
    requires
        abs_spec(x * y) <= bound * SCALE,
        0 <= bound <= RAW_INFINITY,
    ensures
        mul_spec(x, y) == trunc_div(x * y, SCALE as int),
        abs_spec(mul_spec(x, y)) <= bound,
        abs_spec(x * y - SCALE * mul_spec(x, y)) < SCALE,
        SCALE * abs_spec(mul_spec(x, y)) <= abs_spec(x * y),
        x * y >= 0 ==> 0 <= x * y - SCALE * mul_spec(x, y),
{
    let p = x * y;
    let t = trunc_div(p, SCALE as int);
    assert(abs_spec(p - SCALE * t) < SCALE);
    assert(abs_spec(t) * SCALE <= abs_spec(p));
}

/// The size of a product is the product of the sizes.
proof fn lemma_abs_product(x: int, y: int, bx: int, by: int)
    requires
        abs_spec(x) <= bx,
        abs_spec(y) <= by,
    ensures
        abs_spec(x * y) <= bx * by,
{
    assert(abs_spec(x * y) <= bx * by) by (nonlinear_arith)
        requires
            -bx <= x <= bx,
            -by <= y <= by,
            abs_spec(x * y) == if x * y < 0 {
                -(x * y)
            } else {
                x * y
            },
    ;
}

/// Where `c` is, up to two units of the last place in each component, an
/// exact vector `e` over `SCALE` that is orthogonal to `w`, the rounded
/// dot product of `c` and `w` is small.
proof fn lemma_near_orthogonal(c: VectorView, e: VectorView, w: VectorView)
    requires
        is_moderate(w),
        abs_spec(c.x) <= 2 * (moderate_limit() * 1_000_000),
        abs_spec(c.y) <= 2 * (moderate_limit() * 1_000_000),
        abs_spec(c.z) <= 2 * (moderate_limit() * 1_000_000),
        abs_spec(SCALE * c.x - e.x) < 2 * SCALE,
        abs_spec(SCALE * c.y - e.y) < 2 * SCALE,
        abs_spec(SCALE * c.z - e.z) < 2 * SCALE,
        e.x * w.x + e.y * w.y + e.z * w.z == 0,
    ensures
        SCALE * abs_spec(c.dot(w)) <= 3 * SCALE + 2 * (abs_spec(w.x) + abs_spec(w.y) + abs_spec(
            w.z,
        )),
{
    let limit = moderate_limit();
    let bound = 2 * (limit * 1_000_000);
    lemma_abs_product(c.x, w.x, bound, limit);
    lemma_abs_product(c.y, w.y, bound, limit);
    lemma_abs_product(c.z, w.z, bound, limit);
    let reach = 2_000_000_000_000_000_000_000_000_000int;
    assert(bound * limit == reach * SCALE) by (nonlinear_arith)
        requires
            limit == 1_000_000 * SCALE,
            bound == 2 * (limit * 1_000_000),
            SCALE == 1_000_000_000,
            reach == 2_000_000_000_000_000_000_000_000_000,
    ;
    lemma_product_error(c.x, w.x, reach);
    lemma_product_error(c.y, w.y, reach);
    lemma_product_error(c.z, w.z, reach);
    let ux = mul_spec(c.x, w.x);
    let uy = mul_spec(c.y, w.y);
    let uz = mul_spec(c.z, w.z);
    let dot = ux + uy + uz;
    assert(c.dot(w) == dot);
    let sx = c.x * w.x - SCALE * ux;
    let sy = c.y * w.y - SCALE * uy;
    let sz = c.z * w.z - SCALE * uz;
    let rx = SCALE * c.x - e.x;
    let ry = SCALE * c.y - e.y;
    let rz = SCALE * c.z - e.z;
    assert(SCALE * (SCALE * dot) == rx * w.x + ry * w.y + rz * w.z - SCALE * (sx + sy + sz))
        by (nonlinear_arith)
        requires
            sx == c.x * w.x - SCALE * ux,
            sy == c.y * w.y - SCALE * uy,
            sz == c.z * w.z - SCALE * uz,
            rx == SCALE * c.x - e.x,
            ry == SCALE * c.y - e.y,
            rz == SCALE * c.z - e.z,
            dot == ux + uy + uz,
            e.x * w.x + e.y * w.y + e.z * w.z == 0,
    ;
    lemma_abs_product(rx, w.x, 2 * SCALE, abs_spec(w.x));
    lemma_abs_product(ry, w.y, 2 * SCALE, abs_spec(w.y));
    lemma_abs_product(rz, w.z, 2 * SCALE, abs_spec(w.z));
    let total = abs_spec(w.x) + abs_spec(w.y) + abs_spec(w.z);
    assert(abs_spec(SCALE * (SCALE * dot)) <= (2 * SCALE) * total + SCALE * (3 * SCALE))
        by (nonlinear_arith)
        requires
            SCALE * (SCALE * dot) == rx * w.x + ry * w.y + rz * w.z - SCALE * (sx + sy + sz),
            abs_spec(rx * w.x) <= (2 * SCALE) * abs_spec(w.x),
            abs_spec(ry * w.y) <= (2 * SCALE) * abs_spec(w.y),
            abs_spec(rz * w.z) <= (2 * SCALE) * abs_spec(w.z),
            total == abs_spec(w.x) + abs_spec(w.y) + abs_spec(w.z),
            abs_spec(sx) < SCALE,
            abs_spec(sy) < SCALE,
            abs_spec(sz) < SCALE,
            SCALE == 1_000_000_000,
    ;
    assert(SCALE * abs_spec(dot) <= 2 * total + 3 * SCALE) by (nonlinear_arith)
        requires
            abs_spec(SCALE * (SCALE * dot)) <= (2 * SCALE) * total + SCALE * (3 * SCALE),
            SCALE == 1_000_000_000,
    ;
}

/// The cross product of two vectors is orthogonal to both of them, as
/// nearly as rounding allows: for vectors whose components lie within a
/// million units of zero, its dot product with either factor is at most
/// three units of the last place, and two more for each whole unit in the
/// components of that factor.
pub proof fn lemma_cross_is_orthogonal(a: VectorView, b: VectorView)
    requires
        is_moderate(a),
        is_moderate(b),
    ensures
        SCALE * abs_spec(a.cross(b).dot(a)) <= 3 * SCALE + 2 * (abs_spec(a.x) + abs_spec(a.y)
            + abs_spec(a.z)),
        SCALE * abs_spec(a.cross(b).dot(b)) <= 3 * SCALE + 2 * (abs_spec(b.x) + abs_spec(b.y)
            + abs_spec(b.z)),
{
    let limit = moderate_limit();
    lemma_abs_product(a.y, b.z, limit, limit);
    lemma_abs_product(a.z, b.y, limit, limit);
    lemma_abs_product(a.z, b.x, limit, limit);
    lemma_abs_product(a.x, b.z, limit, limit);
    lemma_abs_product(a.x, b.y, limit, limit);
    lemma_abs_product(a.y, b.x, limit, limit);
    assert(limit * limit == (limit * 1_000_000) * SCALE) by (nonlinear_arith)
        requires
            limit == 1_000_000 * SCALE,
    ;
    let bound = limit * 1_000_000;
    lemma_product_error(a.y, b.z, bound);
    lemma_product_error(a.z, b.y, bound);
    lemma_product_error(a.z, b.x, bound);
    lemma_product_error(a.x, b.z, bound);
    lemma_product_error(a.x, b.y, bound);
    lemma_product_error(a.y, b.x, bound);
    let c = a.cross(b);
    let e = VectorView {
        x: a.y * b.z - a.z * b.y,
        y: a.z * b.x - a.x * b.z,
        z: a.x * b.y - a.y * b.x,
    };
    assert(c.x == mul_spec(a.y, b.z) - mul_spec(a.z, b.y));
    assert(c.y == mul_spec(a.z, b.x) - mul_spec(a.x, b.z));
    assert(c.z == mul_spec(a.x, b.y) - mul_spec(a.y, b.x));
    assert(e.x * a.x + e.y * a.y + e.z * a.z == 0) by (nonlinear_arith)
        requires
            e.x == a.y * b.z - a.z * b.y,
            e.y == a.z * b.x - a.x * b.z,
            e.z == a.x * b.y - a.y * b.x,
    ;
    assert(e.x * b.x + e.y * b.y + e.z * b.z == 0) by (nonlinear_arith)
        requires
            e.x == a.y * b.z - a.z * b.y,
            e.y == a.z * b.x - a.x * b.z,
            e.z == a.x * b.y - a.y * b.x,
    ;
    lemma_near_orthogonal(c, e, a);
    lemma_near_orthogonal(c, e, b);
}

/// The quotient of `a * s` by `m`, rounded to the nearest, lies within
/// half of `m` of the exact quotient: its square, times the square of
/// twice `m`, lies close to the square of twice `a * s`.
proof fn lemma_nearest_square(a: int, m: int, s: int)
    requires
        a >= 0,
        m > 0,
        s >= 0,
    ensures
        ({
            let k = (2 * (a * s) + m) / (2 * m);
            &&& k >= 0
            &&& 4 * (m * m) * (k * k) >= 4 * (a * a) * (s * s) - 4 * (a * s) * m
            &&& 4 * (m * m) * (k * k) <= 4 * (a * a) * (s * s) + 4 * (a * s) * m + m * m
        }),
{
    let p = a * s;
    let num = 2 * p + m;
    let den = 2 * m;
    let k = num / den;
    let e = num % den;
    assert(p >= 0) by (nonlinear_arith)
        requires
            a >= 0,
            s >= 0,
            p == a * s,
    ;
    vstd::arithmetic::div_mod::lemma_fundamental_div_mod(num, den);
    vstd::arithmetic::div_mod::lemma_mod_pos_bound(num, den);
    vstd::arithmetic::div_mod::lemma_div_pos_is_pos(num, den);
    let g = m - e;
    assert(den * k == 2 * p + g);
    assert((den * k) * (den * k) == 4 * (m * m) * (k * k)) by (nonlinear_arith)
        requires
            den == 2 * m,
    ;
    assert((2 * p + g) * (2 * p + g) == 4 * (p * p) + 4 * p * g + g * g) by (nonlinear_arith);
    assert(p * p == (a * a) * (s * s)) by (nonlinear_arith)
        requires
            p == a * s,
    ;
    assert(-(p * m) <= p * g <= p * m && 0 <= g * g <= m * m) by (nonlinear_arith)
        requires
            p >= 0,
            -m < g <= m,
    ;
    assert(4 * p * g == 4 * (p * g) && 4 * (a * s) * m == 4 * (p * m) && 4 * (a * a) * (s * s)
        == 4 * (p * p)) by (nonlinear_arith)
        requires
            p == a * s,
            p * p == (a * a) * (s * s),
    ;
    assert(k >= 0);
    assert(4 * (m * m) * (k * k) == 4 * (p * p) + 4 * (p * g) + g * g);
}

/// The square of a sum of three numbers is at most three times the sum of
/// their squares.
proof fn lemma_sum_square(a: int, b: int, c: int)
    ensures
        (a + b + c) * (a + b + c) <= 3 * (a * a + b * b + c * c),
{
    assert((a - b) * (a - b) >= 0 && (a - c) * (a - c) >= 0 && (b - c) * (b - c) >= 0)
        by (nonlinear_arith);
    assert((a + b + c) * (a + b + c) <= 3 * (a * a + b * b + c * c)) by (nonlinear_arith)
        requires
            (a - b) * (a - b) >= 0,
            (a - c) * (a - c) >= 0,
            (b - c) * (b - c) >= 0,
    ;
}

/// The heart of the length law, on plain integers: `big_w` is the exact
/// sum of squares of a vector of rounded length `m`, `t` the sum of the
/// sizes of its components, `s` the length asked for, and `big_n` the sum
/// of squares of the rounded quotients. Then `big_n` lies between the
/// squares of one unit of the last place less than `s` and of one more.
proof fn lemma_length_square(m: int, big_w: int, t: int, big_n: int, s: int)
    requires
        m >= 1_000_000_000_000_000_000,
        1_000_000_000 <= s <= 2_000_000_000,
        m * m <= big_w < (m + 1) * (m + 1),
        0 <= t,
        t * t <= 3 * big_w,
        0 <= big_n,
        4 * (m * m) * big_n >= 4 * big_w * (s * s) - 4 * (t * s) * m,
        4 * (m * m) * big_n <= 4 * big_w * (s * s) + 4 * (t * s) * m + 3 * (m * m),
    ensures
        (s - 1) * (s - 1) <= big_n < (s + 1) * (s + 1),
{
    let mm = m * m;
    let ss = s * s;
    let tsm = (t * s) * m;
    let smm = s * mm;
    assert(mm > 0 && big_w <= mm + 2 * m) by (nonlinear_arith)
        requires
            m >= 1,
            mm == m * m,
            big_w < (m + 1) * (m + 1),
    ;
    assert(100 * t <= 174 * m) by (nonlinear_arith)
        requires
            t * t <= 3 * big_w,
            big_w <= m * m + 2 * m,
            m >= 1_000_000_000_000_000_000,
            t >= 0,
    {
        if 100 * t > 174 * m {
            assert((100 * t) * (100 * t) >= (174 * m + 1) * (174 * m + 1));
            assert(30000 * big_w <= 30000 * (m * m) + 60000 * m);
        }
    }
    assert(0 <= 100 * tsm <= 174 * smm) by (nonlinear_arith)
        requires
            100 * t <= 174 * m,
            t >= 0,
            m >= 1,
            s >= 1,
            mm == m * m,
            tsm == (t * s) * m,
            smm == s * mm,
    {
        assert((t * s) * m == (s * m) * t);
        assert(s * (m * m) == (s * m) * m);
        assert((s * m) * (100 * t) <= (s * m) * (174 * m));
    }
    assert(big_w * ss >= mm * ss && big_w * ss <= mm * ss + 2 * (m * ss)) by (nonlinear_arith)
        requires
            mm <= big_w <= mm + 2 * m,
            ss >= 0,
    ;
    assert(ss >= 0 && smm >= 1_000_000_000 * mm) by (nonlinear_arith)
        requires
            ss == s * s,
            smm == s * mm,
            s >= 1_000_000_000,
            mm > 0,
    ;
    assert(100 * (m * ss) <= smm) by (nonlinear_arith)
        requires
            m >= 1_000_000_000_000_000_000,
            s <= 2_000_000_000,
            s >= 1,
            mm == m * m,
            ss == s * s,
            smm == s * mm,
    {
        assert(m * (s * s) == (m * s) * s);
        assert(s * (m * m) == (m * s) * m);
        assert((m * s) * (100 * s) <= (m * s) * m);
    }
    let low = (s - 1) * (s - 1);
    let high = (s + 1) * (s + 1);
    assert(mm * low == mm * ss - 2 * smm + mm && mm * high == mm * ss + 2 * smm + mm)
        by (nonlinear_arith)
        requires
            low == (s - 1) * (s - 1),
            high == (s + 1) * (s + 1),
            ss == s * s,
            smm == s * mm,
    ;
    assert(4 * mm * big_n == 4 * (mm * big_n) && 4 * big_w * ss == 4 * (big_w * ss) && 4 * (t * s)
        * m == 4 * tsm) by (nonlinear_arith)
        requires
            tsm == (t * s) * m,
    ;
    assert(mm * big_n >= mm * low);
    assert(mm * big_n < mm * high);
    assert(mm * big_n == big_n * mm && mm * low == low * mm && mm * high == high * mm)
        by (nonlinear_arith);
    vstd::arithmetic::mul::lemma_mul_inequality_converse(low, big_n, mm);
    vstd::arithmetic::mul::lemma_mul_strict_inequality_converse(big_n, high, mm);
}

/// Scaling a lifted vector to a length `s` between one and two gives a
/// vector of that length, to a unit of the last place: the components
/// are no larger than `s`, and the rounded length is `s` or one unit of
/// the last place less.
pub proof fn lemma_scaled_length(w: VectorView, m: int, s: int)
    requires
        working_size() <= w.largest() <= fine_limit(),
        m == isqrt(w.square()),
        SCALE <= s <= 2 * SCALE,
    ensures
        ({
            let n = VectorView {
                x: nearest_div(w.x * s, m),
                y: nearest_div(w.y * s, m),
                z: nearest_div(w.z * s, m),
            };
            &&& abs_spec(n.x) <= s
            &&& abs_spec(n.y) <= s
            &&& abs_spec(n.z) <= s
            &&& s - 1 <= n.mag() <= s
        }),
{
    let n = VectorView {
        x: nearest_div(w.x * s, m),
        y: nearest_div(w.y * s, m),
        z: nearest_div(w.z * s, m),
    };
    lemma_working_length(w);
    let (a, b, c) = (abs_spec(w.x), abs_spec(w.y), abs_spec(w.z));
    let kx = (2 * (a * s) + m) / (2 * m);
    let ky = (2 * (b * s) + m) / (2 * m);
    let kz = (2 * (c * s) + m) / (2 * m);
    lemma_nearest_square(a, m, s);
    lemma_nearest_square(b, m, s);
    lemma_nearest_square(c, m, s);
    assert(abs_spec(n.x) == kx && abs_spec(n.y) == ky && abs_spec(n.z) == kz) by {
        lemma_signed_product(w.x, s);
        lemma_signed_product(w.y, s);
        lemma_signed_product(w.z, s);
    }
    lemma_square_of_size(n.x);
    lemma_square_of_size(n.y);
    lemma_square_of_size(n.z);
    lemma_square_of_size(w.x);
    lemma_square_of_size(w.y);
    lemma_square_of_size(w.z);
    lemma_sum_square(a, b, c);
    let big_n = n.square();
    let big_w = w.square();
    let t = a + b + c;
    let mm = m * m;
    let ss = s * s;
    assert(4 * mm * big_n == 4 * mm * (kx * kx) + 4 * mm * (ky * ky) + 4 * mm * (kz * kz))
        by (nonlinear_arith)
        requires
            big_n == kx * kx + ky * ky + kz * kz,
    ;
    assert(4 * big_w * ss == 4 * (a * a) * ss + 4 * (b * b) * ss + 4 * (c * c) * ss)
        by (nonlinear_arith)
        requires
            big_w == a * a + b * b + c * c,
    ;
    assert(4 * (t * s) * m == 4 * (a * s) * m + 4 * (b * s) * m + 4 * (c * s) * m)
        by (nonlinear_arith)
        requires
            t == a + b + c,
    ;
    lemma_length_square(m, big_w, t, big_n, s);
    if kx > s {
        lemma_square_bound(s + 1, kx);
    }
    if ky > s {
        lemma_square_bound(s + 1, ky);
    }
    if kz > s {
        lemma_square_bound(s + 1, kz);
    }
    assert(n.largest() < fine_limit());
    if big_n >= s * s {
        assert(is_isqrt(big_n, s));
        lemma_isqrt_unique(big_n, s);
    } else {
        assert(is_isqrt(big_n, s - 1));
        lemma_isqrt_unique(big_n, s - 1);
    }
}

/// The product of a number with a positive one has the sign of the number
/// and the size of the product of the sizes.
proof fn lemma_signed_product(x: int, s: int)
    requires
        s > 0,
    ensures
        x >= 0 ==> x * s >= 0 && x * s == abs_spec(x) * s,
        x < 0 ==> x * s < 0 && -2 * (x * s) == 2 * (abs_spec(x) * s),
{
    assert((x >= 0 ==> x * s >= 0) && (x < 0 ==> x * s < 0 && -2 * (x * s) == 2 * ((-x) * s)))
        by (nonlinear_arith)
        requires
            s > 0,
    ;
}

/// Lifting a vector that is not zero brings its largest component to the
/// working size without passing the fine limit.
pub proof fn lemma_lifted_size(u: VectorView)
    requires
        0 < u.largest() <= fine_limit(),
    ensures
        working_size() <= u.lifted().largest() <= fine_limit(),
    decreases u.short_of_working(),
{
    if u.largest() < working_size() {
        lemma_tenfold_largest(u);
        lemma_lifted_size(u.tenfold());
    }
}

/// Scaling to a length between one and two gives a vector of that length,
/// to a unit of the last place: for every vector that is not zero and
/// whose components lie between the two infinities, the length of the
/// scaled vector is the length asked for or one unit of the last place
/// less, and no component is larger than that length.
pub proof fn lemma_with_length(v: VectorView, len: int)
    requires
        !v.is_zero(),
        v.largest() <= RAW_INFINITY,
        SCALE <= len <= 2 * SCALE,
    ensures
        len - 1 <= v.with_length(len).mag() <= len,
        v.with_length(len).largest() <= len,
{
    let u = v.measured();
    assert(0 < u.largest() <= fine_limit());
    lemma_lifted_size(u);
    let w = u.lifted();
    lemma_scaled_length(w, isqrt(w.square()), len);
}

/// Scaling to unit length gives a vector of length one, to a unit of the
/// last place: for every vector that is not zero and whose components lie
/// between the two infinities, the length of the scaled vector is one or
/// one unit of the last place less, and no component is larger than one.
pub proof fn lemma_norm_has_unit_length(v: VectorView)
    requires
        !v.is_zero(),
        v.largest() <= RAW_INFINITY,
    ensures
        SCALE - 1 <= v.norm().mag() <= SCALE,
        v.norm().largest() <= SCALE,
{
    lemma_with_length(v, SCALE as int);
}

/// Lifting keeps what is zero at zero and the sign of what is not.
pub proof fn lemma_lifted_signs(u: VectorView)
    requires
        0 < u.largest() <= fine_limit(),
    ensures
        (u.x == 0 <==> u.lifted().x == 0) && (u.x > 0 <==> u.lifted().x > 0),
        (u.y == 0 <==> u.lifted().y == 0) && (u.y > 0 <==> u.lifted().y > 0),
        (u.z == 0 <==> u.lifted().z == 0) && (u.z > 0 <==> u.lifted().z > 0),
    decreases u.short_of_working(),
{
    if u.largest() < working_size() {
        lemma_tenfold_largest(u);
        lemma_lifted_signs(u.tenfold());
    }
}

/// The quotient of `a * len` by the size of `a`, rounded to the nearest,
/// is `len` with the sign of `a`.
proof fn lemma_nearest_of_itself(a: int, len: int)
    requires
        a != 0,
        len >= 0,
    ensures
        nearest_div(a * len, abs_spec(a)) == (if a > 0 { len } else { -len }),
        nearest_div(0 * len, abs_spec(a)) == 0,
{
    let m = abs_spec(a);
    let x = 2 * (m * len) + m;
    assert(x == len * (2 * m) + m && m * len >= 0) by (nonlinear_arith)
        requires
            x == 2 * (m * len) + m,
            m > 0,
            len >= 0,
    ;
    vstd::arithmetic::div_mod::lemma_fundamental_div_mod_converse(x, 2 * m, len, m);
    lemma_signed_product_any(a, len);
    vstd::arithmetic::div_mod::lemma_basic_div(m, 2 * m);
    assert(0 * len == 0);
}

/// The product of a number with one that is not negative has the size of
/// the product of the sizes, and the sign of the number unless it is zero.
proof fn lemma_signed_product_any(x: int, s: int)
    requires
        s >= 0,
    ensures
        x >= 0 ==> x * s >= 0 && 2 * (x * s) == 2 * (abs_spec(x) * s),
        x < 0 ==> x * s <= 0 && -2 * (x * s) == 2 * (abs_spec(x) * s),
{
    assert((x >= 0 ==> x * s >= 0) && (x < 0 ==> x * s <= 0 && -2 * (x * s) == 2 * ((-x) * s)))
        by (nonlinear_arith)
        requires
            s >= 0,
    ;
}

/// Along an axis, scaling to a length is exact: a vector with one
/// component that is not zero is scaled to the vector with the length
/// asked for in that component, with the same sign, and zero in the other
/// two.
pub proof fn lemma_along_an_axis(v: VectorView, len: int)
    requires
        !v.is_zero(),
        v.largest() <= RAW_INFINITY,
        len >= 0,
    ensures
        v.y == 0 && v.z == 0 ==> v.with_length(len) == (VectorView {
            x: if v.x > 0 {
                len
            } else {
                -len
            },
            y: 0,
            z: 0,
        }),
        v.x == 0 && v.z == 0 ==> v.with_length(len) == (VectorView {
            x: 0,
            y: if v.y > 0 {
                len
            } else {
                -len
            },
            z: 0,
        }),
        v.x == 0 && v.y == 0 ==> v.with_length(len) == (VectorView {
            x: 0,
            y: 0,
            z: if v.z > 0 {
                len
            } else {
                -len
            },
        }),
{
    let u = v.measured();
    assert(0 < u.largest() <= fine_limit());
    assert((v.x == 0 <==> u.x == 0) || v.largest() != abs_spec(v.x));
    lemma_lifted_size(u);
    lemma_lifted_signs(u);
    let w = u.lifted();
    lemma_square_of_size(w.x);
    lemma_square_of_size(w.y);
    lemma_square_of_size(w.z);
    assert(w.x == 0 ==> w.x * w.x == 0) by (nonlinear_arith);
    assert(w.y == 0 ==> w.y * w.y == 0) by (nonlinear_arith);
    assert(w.z == 0 ==> w.z * w.z == 0) by (nonlinear_arith);
    if v.y == 0 && v.z == 0 {
        assert(u.y == 0 && u.z == 0 && (u.x > 0 <==> v.x > 0) && u.x != 0);
        lemma_root_of_square(w.x);
        assert(w.square() == w.x * w.x);
        lemma_nearest_of_itself(w.x, len);
    }
    if v.x == 0 && v.z == 0 {
        assert(u.x == 0 && u.z == 0 && (u.y > 0 <==> v.y > 0) && u.y != 0);
        lemma_root_of_square(w.y);
        assert(w.square() == w.y * w.y);
        lemma_nearest_of_itself(w.y, len);
    }
    if v.x == 0 && v.y == 0 {
        assert(u.x == 0 && u.y == 0 && (u.z > 0 <==> v.z > 0) && u.z != 0);
        lemma_root_of_square(w.z);
        assert(w.square() == w.z * w.z);
        lemma_nearest_of_itself(w.z, len);
    }
}

/// The integer square root of a square is the size of its root.
proof fn lemma_root_of_square(a: int)
    ensures
        isqrt(a * a) == abs_spec(a),
{
    let m = abs_spec(a);
    assert(is_isqrt(a * a, m)) by (nonlinear_arith)
        requires
            m >= 0,
            m == a || m == -a,
    ;
    lemma_isqrt_unique(a * a, m);
}

} // verus!
