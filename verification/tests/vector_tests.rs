use raytracer::scalar::Scalar;
use raytracer::vector::Vector;

const INF: i128 = 100_000_000_000_000_000_000_000_000_000;

fn v(x: i32, y: i32, z: i32) -> Vector {
    Vector::from_thousandths(x, y, z)
}

fn raws(x: i128, y: i128, z: i128) -> Vector {
    Vector::new(Scalar::from_raw(x), Scalar::from_raw(y), Scalar::from_raw(z))
}

fn whole(x: i64, y: i64, z: i64) -> Vector {
    Vector::new(Scalar::from_int(x), Scalar::from_int(y), Scalar::from_int(z))
}

fn from_float(x: f64, y: f64, z: f64) -> Vector {
    let s = |a: f64| Scalar::from_raw((a * 1e9).round() as i128);
    Vector::new(s(x), s(y), s(z))
}

#[test]
fn new_keeps_the_components() {
    let a = raws(1, -2, 3);
    assert_eq!(a.x.raw(), 1);
    assert_eq!(a.y.raw(), -2);
    assert_eq!(a.z.raw(), 3);
    assert_eq!(v(1000, -2000, 500).y.raw(), -2_000_000_000);
}

#[test]
fn times_scales_every_component() {
    let a = v(1000, -2000, 500).times(Scalar::from_thousandths(1500));
    assert_eq!(a, v(1500, -3000, 750));
    assert_eq!(v(1000, 2000, 3000).times(Scalar::zero()), v(0, 0, 0));
}

#[test]
fn plus_and_minus_work_by_component() {
    assert_eq!(v(1000, 2000, 3000).plus(&v(500, -500, 250)), v(1500, 1500, 3250));
    assert_eq!(v(1000, 2000, 3000).minus(&v(500, -500, 250)), v(500, 2500, 2750));
}

#[test]
fn dot_of_axes_and_of_a_general_pair() {
    assert_eq!(v(1000, 0, 0).dot(&v(0, 1000, 0)).raw(), 0);
    assert_eq!(v(1000, 2000, 3000).dot(&v(4000, -5000, 6000)).raw(), 12_000_000_000);
    assert_eq!(v(500, 500, 500).dot(&v(500, 500, 500)).raw(), 750_000_000);
}

#[test]
fn cross_of_axes_follows_the_right_hand() {
    let i = v(1000, 0, 0);
    let j = v(0, 1000, 0);
    let k = v(0, 0, 1000);
    assert_eq!(i.cross(&j), k);
    assert_eq!(j.cross(&k), i);
    assert_eq!(k.cross(&i), j);
    assert_eq!(j.cross(&i), v(0, 0, -1000));
}

#[test]
fn cross_of_a_general_pair() {
    assert_eq!(v(1000, 2000, 3000).cross(&v(4000, 5000, 6000)), v(-3000, 6000, -3000));
}

#[test]
fn cross_is_orthogonal_to_both_factors() {
    let samples = [
        (from_float(1.0, 2.0, 3.0), from_float(-4.0, 5.5, 6.25)),
        (from_float(0.123456789, -0.987654321, 0.5), from_float(0.333333333, 0.666666667, -1.0)),
        (from_float(12.5, -7.75, 3.2), from_float(0.001, 0.002, -0.003)),
        (from_float(-100.0, 250.0, 75.5), from_float(33.3, -44.4, 55.5)),
        (from_float(2000.0, 2000.0, 2000.0), from_float(2000.0, -2000.0, 1000.0)),
        (from_float(999999.123456789, -1000000.0, 123456.789), from_float(-1000000.0, 0.5, 999999.999999999)),
    ];
    let allowed = |w: &Vector| 3 + 2 * (w.x.raw().abs() + w.y.raw().abs() + w.z.raw().abs()) / 1_000_000_000;
    for (a, b) in samples {
        let c = a.cross(&b);
        assert!(c.dot(&a).raw().abs() <= allowed(&a), "{:?} {:?}", a, b);
        assert!(c.dot(&b).raw().abs() <= allowed(&b), "{:?} {:?}", a, b);
    }
}

#[test]
fn cross_of_factors_up_to_a_million_does_not_saturate() {
    let a = from_float(100000.0, 0.01, 0.0);
    let b = whole(0, 0, 1_000_000);
    let c = a.cross(&b);
    assert_eq!(c, whole(10_000, -100_000_000_000, 0));
    assert_eq!(c.dot(&a).raw(), 0);
    assert_eq!(c.dot(&b).raw(), 0);
    let d = b.cross(&a);
    assert_eq!(d, whole(-10_000, 100_000_000_000, 0));
    assert_eq!(d.dot(&a).raw(), 0);
    assert_eq!(d.dot(&b).raw(), 0);
    let e = whole(1_000_000, 1_000_000, 1_000_000).cross(&whole(1_000_000, -1_000_000, 1_000_000));
    assert_eq!(e, whole(2_000_000_000_000, 0, -2_000_000_000_000));
    assert_eq!(e.dot(&whole(1_000_000, 1_000_000, 1_000_000)).raw(), 0);
}

#[test]
fn cross_of_very_large_vectors_saturates() {
    let a = whole(100_000_000_000, 0, 0);
    let b = whole(0, 100_000_000_000, 0);
    assert_eq!(a.cross(&b), raws(0, 0, INF));
}

#[test]
fn mag_of_pythagorean_triples() {
    assert_eq!(v(3000, 4000, 0).mag().raw(), 5_000_000_000);
    assert_eq!(v(0, -1000, 0).mag().raw(), 1_000_000_000);
    assert_eq!(v(2000, 3000, 6000).mag().raw(), 7_000_000_000);
    assert_eq!(v(0, 0, 0).mag().raw(), 0);
    assert_eq!(v(1000, 1000, 0).mag().raw(), 1_414_213_562);
    assert_eq!(whole(3_000_000, 4_000_000, 0).mag(), Scalar::from_int(5_000_000));
}

#[test]
fn mag_is_the_length_rounded_down_for_short_and_long_vectors() {
    assert_eq!(raws(1, 0, 0).mag().raw(), 1);
    assert_eq!(raws(5, -3, 1).mag().raw(), 5);
    assert_eq!(raws(1, 1, 1).mag().raw(), 1);
    assert_eq!(raws(40_000, 0, 0).mag().raw(), 40_000);
    assert_eq!(whole(1000, 1000, 1000).mag().raw(), 1_732_050_807_568);
    assert_eq!(whole(30_000_000_000, 40_000_000_000, 0).mag(), Scalar::from_int(50_000_000_000));
    assert_eq!(raws(INF, 0, 0).mag().raw(), INF);
    assert_eq!(raws(INF, INF, 0).mag().raw(), INF);
}

#[test]
fn norm_scales_to_unit_length() {
    assert_eq!(v(3000, 4000, 0).norm(), v(600, 800, 0));
    assert_eq!(v(0, 0, -4000).norm(), v(0, 0, -1000));
    assert_eq!(v(0, 2000, 0).norm(), v(0, 1000, 0));
    assert_eq!(raws(1_000_000_000, 2_000_000_000, 3_000_000_000).norm(), raws(267_261_242, 534_522_484, 801_783_726));
}

#[test]
fn norm_along_an_axis_is_exact() {
    assert_eq!(v(3000, 0, 0).norm(), v(1000, 0, 0));
    assert_eq!(v(0, 0, -3000).norm(), v(0, 0, -1000));
    assert_eq!(v(0, 1500, 0).norm(), v(0, 1000, 0));
    assert_eq!(v(3000, 0, 0).norm().mag(), Scalar::one());
    assert_eq!(raws(1, 0, 0).norm(), v(1000, 0, 0));
    assert_eq!(raws(0, -7, 0).norm(), v(0, -1000, 0));
    assert_eq!(raws(10_000, 0, 0).norm(), v(1000, 0, 0));
    assert_eq!(whole(0, 0, 100_000).norm(), v(0, 0, 1000));
    assert_eq!(raws(INF, 0, 0).norm(), v(1000, 0, 0));
    assert_eq!(raws(0, -INF, 0).norm(), v(0, -1000, 0));
}

#[test]
fn norm_of_nonzero_vectors_has_length_one() {
    let samples = [
        from_float(1.0, 2.0, 3.0),
        from_float(-0.3, 0.4, 0.5),
        from_float(10.0, -20.0, 30.0),
        from_float(0.1, 0.0, 0.0),
        from_float(0.001, 0.002, 0.003),
        from_float(123.456, -654.321, 0.5),
        from_float(4.0, 1.5, 4.0),
        from_float(1000.0, -1000.0, 1000.0),
        raws(5, -3, 1),
        raws(1, 1, 1),
        raws(0, 1, -1),
        raws(40_000, 1, 0),
        whole(100_000, 0, 1),
        whole(1_000_000_000_000, -1, 77),
        raws(INF, INF, INF),
        raws(INF, -INF, 12345),
        raws(-INF + 1, 3, 9_999_999_999_999_999_999),
    ];
    for a in samples {
        let len = a.norm().mag().raw();
        assert!((len - 1_000_000_000).abs() <= 1, "{:?}: {}", a, len);
    }
}

#[test]
fn norm_of_the_shortest_vectors_keeps_the_direction() {
    assert_eq!(raws(5, -3, 1).norm(), raws(845_154_255, -507_092_553, 169_030_851));
    assert_eq!(raws(-300_000_000, 400_000_000, 500_000_000).norm(), raws(-424_264_069, 565_685_425, 707_106_781));
    assert_eq!(raws(INF, INF, 0).norm(), raws(707_106_781, 707_106_781, 0));
}

#[test]
fn norm_of_the_zero_vector_is_all_infinity() {
    let inf = Scalar::infinity();
    assert_eq!(v(0, 0, 0).norm(), Vector::new(inf, inf, inf));
}

#[test]
fn dot_pos_neg_takes_the_positive_branch_above_zero() {
    let r = v(1000, 0, 0).dot_pos_neg(&v(2000, 0, 0), |d| d.raw(), |_| -1);
    assert_eq!(r, 2_000_000_000);
}

#[test]
fn dot_pos_neg_takes_the_negative_branch_below_zero() {
    let r = v(1000, 0, 0).dot_pos_neg(&v(-2000, 0, 0), |_| 1, |d| d.raw());
    assert_eq!(r, -2_000_000_000);
}

#[test]
fn dot_pos_neg_sends_zero_to_the_negative_branch() {
    let r = v(1000, 0, 0).dot_pos_neg(&v(0, 1000, 0), |_| "positive", |_| "negative");
    assert_eq!(r, "negative");
}

