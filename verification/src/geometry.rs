//! Rays and the objects they hit: spheres and planes.
use crate::scalar::{
    add_spec, clamp, div_spec, is_isqrt, lemma_isqrt_monotonic, lemma_isqrt_unique, mul_spec,
    neg_spec, sqrt_spec, sub_spec, Scalar, SCALE,
};
use crate::surface::Surface;
use crate::rounding::lemma_norm_has_unit_length;
use crate::vector::{abs_spec, Vector, VectorView};
use vstd::prelude::*;

verus! {

/// The mathematical value of a [`Ray`].
pub struct RayView {
    pub start: VectorView,
    pub dir: VectorView,
}

/// A half-line: a starting point and a direction. The direction need not
/// have unit length.
#[derive(Clone, Copy, Debug, PartialEq, Eq, Structural)]
pub struct Ray {
    pub start: Vector,
    pub dir: Vector,
}

impl View for Ray {
    type V = RayView;

    open spec fn view(&self) -> RayView {
        RayView { start: self.start@, dir: self.dir@ }
    }
}

/// The mathematical value of an optional distance.
pub open spec fn distance_view(d: Option<Scalar>) -> Option<int> {
    match d {
        Some(s) => Some(s@),
        None => None,
    }
}

/// The mathematical value of a [`Sphere`].
pub struct SphereView {
    pub center: VectorView,
    pub radius: int,
    pub surface: Surface,
}

impl SphereView {
    /// The outward direction at `pos`: from the center to `pos`, at unit
    /// length.
    pub open spec fn normal(self, pos: VectorView) -> VectorView {
        pos.minus(self.center).norm()
    }

    /// The discriminant of the intersection with a ray, where `eo` leads
    /// from the ray's start to the center and `v` is the projection of `eo`
    /// on the ray's direction: the square of the radius, less the square of
    /// the length of `eo`, plus the square of `v`.
    pub open spec fn discriminant(self, eo: VectorView, v: int) -> int {
        add_spec(sub_spec(mul_spec(self.radius, self.radius), eo.dot(eo)), mul_spec(v, v))
    }

    /// The nearer of the two distances at which the ray's line meets the
    /// sphere, with `eo` and `v` as for the discriminant. There is none
    /// where the discriminant is negative.
    pub open spec fn near_root(self, eo: VectorView, v: int) -> Option<int> {
        if self.discriminant(eo, v) < 0 {
            None
        } else {
            Some(sub_spec(v, sqrt_spec(self.discriminant(eo, v))))
        }
    }

    /// The distance along `ray` at which it enters the sphere. There is
    /// none where the center does not lie ahead of the ray's start, nor
    /// where the discriminant is negative. Only the near root is taken, so
    /// for a ray that starts inside the sphere the distance is negative.
    pub open spec fn intersect(self, ray: RayView) -> Option<int> {
        let eo = self.center.minus(ray.start);
        let v = eo.dot(ray.dir);
        if v <= 0 {
            None
        } else {
            self.near_root(eo, v)
        }
    }
}

/// The mathematical value of a [`Plane`].
pub struct PlaneView {
    pub norm: VectorView,
    pub offset: int,
    pub surface: Surface,
}

impl PlaneView {
    /// The direction the plane faces, the same at every position.
    pub open spec fn normal(self, pos: VectorView) -> VectorView {
        self.norm
    }

    /// The height of `start` over the plane, along the normal.
    pub open spec fn height(self, start: VectorView) -> int {
        add_spec(self.norm.dot(start), self.offset)
    }

    /// The distance along `ray` at which it meets the plane, where `denom`
    /// is the dot product of the plane's normal and the ray's direction:
    /// the height of the ray's start over the plane, divided by the
    /// opposite of `denom`. There is none where `denom` is zero, nor where
    /// the distance is not above zero: the plane is not hit behind the
    /// start of the ray, nor at it.
    pub open spec fn crossing(self, ray: RayView, denom: int) -> Option<int> {
        if denom == 0 {
            None
        } else if div_spec(self.height(ray.start), neg_spec(denom)) > 0 {
            Some(div_spec(self.height(ray.start), neg_spec(denom)))
        } else {
            None
        }
    }

    /// The distance along `ray` at which it meets the plane. There is none
    /// unless the ray runs against the plane's normal, toward its front,
    /// and starts in front of the plane.
    pub open spec fn intersect(self, ray: RayView) -> Option<int> {
        let denom = self.norm.dot(ray.dir);
        if denom >= 0 {
            None
        } else {
            self.crossing(ray, denom)
        }
    }
}

/// The mathematical value of a [`Thing`].
pub enum ThingView {
    Sphere(SphereView),
    Plane(PlaneView),
}

impl ThingView {
    /// The direction the surface faces at `pos`.
    pub open spec fn normal(self, pos: VectorView) -> VectorView {
        match self {
            ThingView::Sphere(s) => s.normal(pos),
            ThingView::Plane(p) => p.normal(pos),
        }
    }

    /// The distance along `ray` at which it hits the object, if it does.
    pub open spec fn intersect(self, ray: RayView) -> Option<int> {
        match self {
            ThingView::Sphere(s) => s.intersect(ray),
            ThingView::Plane(p) => p.intersect(ray),
        }
    }

    /// The material of the object.
    pub open spec fn surface(self) -> Surface {
        match self {
            ThingView::Sphere(s) => s.surface,
            ThingView::Plane(p) => p.surface,
        }
    }
}

/// A sphere.
#[derive(Clone, Copy, Debug, PartialEq, Eq, Structural)]
pub struct Sphere {
    pub center: Vector,
    pub radius: Scalar,
    pub surface: Surface,
}

impl View for Sphere {
    type V = SphereView;

    open spec fn view(&self) -> SphereView {
        SphereView { center: self.center@, radius: self.radius@, surface: self.surface }
    }
}

impl Sphere {
    /// The material of the sphere.
    pub fn surface(&self) -> (s: Surface)
        ensures
            s == self@.surface,
    {
        self.surface
    }

    /// The outward direction at `pos`.
    pub fn normal(&self, pos: &Vector) -> (n: Vector)
        ensures
            n@ == self@.normal(pos@),
            !pos@.minus(self@.center).is_zero() ==> abs_spec(n@.mag() - SCALE) <= 1,
    {
        pos.minus(&self.center).norm()
    }

    /// The distance along `ray` at which it enters the sphere, if it does.
    pub fn intersect(&self, ray: &Ray) -> (hit: Option<Scalar>)
        ensures
            distance_view(hit) == self@.intersect(ray@),
    {
        let eo = self.center.minus(&ray.start);
        let ahead = |v: Scalar| -> (hit: Option<Scalar>)
            ensures
                distance_view(hit) == self@.near_root(eo@, v@),
            {
                let disc = self.radius.mul(self.radius).sub(eo.dot(&eo)).add(v.mul(v));
                if disc.is_negative() {
                    None
                } else {
                    Some(v.sub(disc.sqrt()))
                }
            };
        let behind = |v: Scalar| -> (hit: Option<Scalar>)
            ensures
                hit.is_none(),
            { None };
        eo.dot_pos_neg(&ray.dir, ahead, behind)
    }
}

/// A plane, given by the unit vector it faces and its signed offset along
/// that vector.
#[derive(Clone, Copy, Debug, PartialEq, Eq, Structural)]
pub struct Plane {
    pub norm: Vector,
    pub offset: Scalar,
    pub surface: Surface,
}

impl View for Plane {
    type V = PlaneView;

    open spec fn view(&self) -> PlaneView {
        PlaneView { norm: self.norm@, offset: self.offset@, surface: self.surface }
    }
}

impl Plane {
    /// The material of the plane.
    pub fn surface(&self) -> (s: Surface)
        ensures
            s == self@.surface,
    {
        self.surface
    }

    /// The direction the plane faces, whatever the position.
    pub fn normal(&self, pos: &Vector) -> (n: Vector)
        ensures
            n@ == self@.normal(pos@),
    {
        self.norm
    }

    /// The distance along `ray` at which it meets the plane. The plane is
    /// hit where the ray runs toward its front and starts in front of it,
    /// and only there; the distance is then above zero.
    pub fn intersect(&self, ray: &Ray) -> (hit: Option<Scalar>)
        ensures
            distance_view(hit) == self@.intersect(ray@),
            hit is Some ==> hit.unwrap()@ > 0,
            hit is Some <==> self@.norm.dot(ray@.dir) < 0 && self@.height(ray@.start) > 0,
    {
        proof {
            lemma_plane_hit_ahead(self@, ray@);
        }
        let away = |denom: Scalar| -> (hit: Option<Scalar>)
            ensures
                hit.is_none(),
            { None };
        let toward = |denom: Scalar| -> (hit: Option<Scalar>)
            ensures
                distance_view(hit) == self@.crossing(ray@, denom@),
            {
                if denom.is_zero() {
                    None
                } else {
                    let dist = self.norm.dot(&ray.start).add(self.offset).div(denom.neg());
                    if dist.is_positive() {
                        Some(dist)
                    } else {
                        None
                    }
                }
            };
        self.norm.dot_pos_neg(&ray.dir, away, toward)
    }
}

/// An object of the scene.
#[derive(Clone, Copy, Debug, PartialEq, Eq, Structural)]
pub enum Thing {
    Sphere(Sphere),
    Plane(Plane),
}

impl View for Thing {
    type V = ThingView;

    open spec fn view(&self) -> ThingView {
        match self {
            Thing::Sphere(s) => ThingView::Sphere(s@),
            Thing::Plane(p) => ThingView::Plane(p@),
        }
    }
}

impl Thing {
    /// The direction the surface faces at `pos`.
    pub fn normal(&self, pos: &Vector) -> (n: Vector)
        ensures
            n@ == self@.normal(pos@),
    {
        match self {
            Thing::Sphere(s) => s.normal(pos),
            Thing::Plane(p) => p.normal(pos),
        }
    }

    /// The distance along `ray` at which it hits the object, if it does.
    pub fn intersect(&self, ray: &Ray) -> (hit: Option<Scalar>)
        ensures
            distance_view(hit) == self@.intersect(ray@),
    {
        match self {
            Thing::Sphere(s) => s.intersect(ray),
            Thing::Plane(p) => p.intersect(ray),
        }
    }

    /// The material of the object.
    pub fn surface(&self) -> (s: Surface)
        ensures
            s == self@.surface(),
    {
        match self {
            Thing::Sphere(s) => s.surface(),
            Thing::Plane(p) => p.surface(),
        }
    }
}

/// A ray that starts on a sphere or outside it does not hit it at a
/// negative distance.
pub proof fn lemma_sphere_hit_ahead(sphere: SphereView, ray: RayView)
    requires
        mul_spec(sphere.radius, sphere.radius) <= sphere.center.minus(ray.start).dot(
            sphere.center.minus(ray.start),
        ),
    ensures
        match sphere.intersect(ray) {
            Some(d) => d >= 0,
            None => true,
        },
{
    let eo = sphere.center.minus(ray.start);
    let v = eo.dot(ray.dir);
    if v > 0 && sphere.discriminant(eo, v) >= 0 {
        let disc = sphere.discriminant(eo, v);
        let square = mul_spec(v, v);
        lemma_product_nonnegative(v);
        assert(disc <= square);
        assert(square * SCALE <= v * v) by (nonlinear_arith)
            requires
                square == clamp((v * v) / (SCALE as int)),
                square >= 0,
                SCALE == 1_000_000_000,
                v * v >= 0,
        ;
        assert(disc * SCALE <= square * SCALE) by (nonlinear_arith)
            requires
                disc <= square,
                SCALE == 1_000_000_000,
        ;
        assert(0 <= disc * SCALE) by (nonlinear_arith)
            requires
                0 <= disc,
                SCALE == 1_000_000_000,
        ;
        lemma_isqrt_monotonic(disc * SCALE, v * v);
        assert(is_isqrt(v * v, v)) by (nonlinear_arith)
            requires
                v > 0,
        ;
        lemma_isqrt_unique(v * v, v);
    }
}

/// A sphere is hit at the nearer of the two places where the ray's line
/// meets it: the distance of a hit is the projection of the way to the
/// center on the ray less the square root of the discriminant, which is
/// not negative, so it is no larger than that projection, and the other
/// place is no nearer.
pub proof fn lemma_sphere_hit_is_near_root(sphere: SphereView, ray: RayView)
    ensures
        match sphere.intersect(ray) {
            Some(d) => {
                let eo = sphere.center.minus(ray.start);
                let v = eo.dot(ray.dir);
                let root = sqrt_spec(sphere.discriminant(eo, v));
                &&& root >= 0
                &&& d == sub_spec(v, root)
                &&& d <= v
                &&& d <= add_spec(v, root)
            },
            None => true,
        },
{
    let eo = sphere.center.minus(ray.start);
    let v = eo.dot(ray.dir);
    if v > 0 && sphere.discriminant(eo, v) >= 0 {
        let disc = sphere.discriminant(eo, v);
        assert(disc * SCALE >= 0) by (nonlinear_arith)
            requires
                disc >= 0,
                SCALE == 1_000_000_000,
        ;
        crate::scalar::lemma_isqrt_exists(disc * SCALE);
    }
}

/// The square of a number is not negative, however it is rounded.
pub proof fn lemma_product_nonnegative(a: int)
    ensures
        mul_spec(a, a) >= 0,
{
    assert(a * a >= 0) by (nonlinear_arith);
    assert((a * a) / (SCALE as int) >= 0) by (nonlinear_arith)
        requires
            a * a >= 0,
            SCALE == 1_000_000_000,
    ;
}

/// The quotient of a positive number by a positive number is positive:
/// rounding never takes it down to zero.
pub proof fn lemma_quotient_positive(a: int, b: int)
    requires
        a > 0,
        b > 0,
    ensures
        div_spec(a, b) > 0,
{
    let x = a * SCALE;
    assert(x > 0) by (nonlinear_arith)
        requires
            a > 0,
            x == a * SCALE,
            SCALE == 1_000_000_000,
    ;
    vstd::arithmetic::div_mod::lemma_div_is_ordered(b, x + b - 1, b);
    vstd::arithmetic::div_mod::lemma_div_basics(b);
}

/// The quotient of a number that is not positive by a positive number is
/// not positive.
pub proof fn lemma_quotient_not_positive(a: int, b: int)
    requires
        a <= 0,
        b > 0,
    ensures
        div_spec(a, b) <= 0,
{
    let x = a * SCALE;
    assert(x <= 0) by (nonlinear_arith)
        requires
            a <= 0,
            x == a * SCALE,
            SCALE == 1_000_000_000,
    ;
    if x < 0 {
        vstd::arithmetic::div_mod::lemma_div_pos_is_pos(-x + b - 1, b);
    } else {
        vstd::arithmetic::div_mod::lemma_basic_div(b - 1, b);
    }
}

/// A plane is hit exactly by the rays that run toward its front and start
/// in front of it, and the distance of a hit is above zero.
pub proof fn lemma_plane_hit_ahead(plane: PlaneView, ray: RayView)
    ensures
        plane.intersect(ray) is Some <==> plane.norm.dot(ray.dir) < 0 && plane.height(ray.start)
            > 0,
        match plane.intersect(ray) {
            Some(d) => d > 0,
            None => true,
        },
{
    let denom = plane.norm.dot(ray.dir);
    if denom < 0 {
        let d = neg_spec(denom);
        assert(d > 0);
        if plane.height(ray.start) > 0 {
            lemma_quotient_positive(plane.height(ray.start), d);
        } else {
            lemma_quotient_not_positive(plane.height(ray.start), d);
        }
    }
}

/// A plane is not hit by a ray that runs along it or away from its front.
pub proof fn lemma_plane_missed_from_behind(plane: PlaneView, ray: RayView)
    requires
        plane.norm.dot(ray.dir) >= 0,
    ensures
        plane.intersect(ray) is None,
{
}

/// A sphere is not hit by a ray whose start has its center beside or
/// behind it.
pub proof fn lemma_sphere_missed_when_behind(sphere: SphereView, ray: RayView)
    requires
        sphere.center.minus(ray.start).dot(ray.dir) <= 0,
    ensures
        sphere.intersect(ray) is None,
{
}

/// The normal of a sphere has unit length, to a unit of the last place,
/// at every position but the center.
pub proof fn lemma_sphere_normal_has_unit_length(sphere: SphereView, pos: VectorView)
    requires
        !pos.minus(sphere.center).is_zero(),
    ensures
        SCALE - 1 <= sphere.normal(pos).mag() <= SCALE,
{
    lemma_norm_has_unit_length(pos.minus(sphere.center));
}

} // verus!
