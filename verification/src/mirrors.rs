//! Two mirrors that face each other.
//!
//! A floor at height zero that faces up and a ceiling above it that faces
//! down, both polished: a ray between them is thrown back and forth until
//! the tracer stops following it. This module shows that every such ray
//! and every mirrored ray after it hits a mirror, so that the grey which
//! stands for what lies beyond the last level always reaches the eye.
use crate::geometry::{PlaneView, RayView, ThingView};
use crate::scalar::{
    away_div, div_spec, lemma_whole_product, mul_spec, trunc_div, RAW_INFINITY, SCALE,
};
use crate::scene::SceneView;
use crate::surface::Surface;
use crate::tracer::{
    at_least, closest_among, closest_intersection_spec, hit_position, lemma_grey_reaches_the_eye,
    lemma_mirror_floor, lights_non_negative, mirror_floor, mirror_spec, mirrors_on, remaining,
    trace_ray_spec, IntersectView, MAX_DEPTH,
};
use crate::vector::{abs_spec, VectorView};
use vstd::prelude::*;

verus! {

/// The polished floor at height zero, facing up.
pub open spec fn floor_mirror() -> ThingView {
    ThingView::Plane(
        PlaneView {
            norm: VectorView { x: 0, y: SCALE as int, z: 0 },
            offset: 0,
            surface: Surface::Shiny,
        },
    )
}

/// The polished ceiling at height `gap`, facing down.
pub open spec fn ceiling_mirror(gap: int) -> ThingView {
    ThingView::Plane(
        PlaneView {
            norm: VectorView { x: 0, y: -SCALE, z: 0 },
            offset: gap,
            surface: Surface::Shiny,
        },
    )
}

/// The largest height of the ceiling that the law covers: a million units.
pub open spec fn widest_gap() -> int {
    1_000_000 * SCALE
}

/// Whether the objects of the scene are the floor and, `gap` above it, the
/// ceiling, and nothing else.
pub open spec fn two_mirrors(scene: SceneView, gap: int) -> bool {
    &&& 0 < gap <= widest_gap()
    &&& scene.things.len() == 2
    &&& scene.things[0] == floor_mirror()
    &&& scene.things[1] == ceiling_mirror(gap)
}

/// Whether `ray` runs between the two mirrors toward one of them: it
/// starts between them, or on the one it runs away from, and it rises or
/// falls by at least a tenth and at most one for each unit of its way.
pub open spec fn runs_between(ray: RayView, gap: int) -> bool {
    &&& 0 <= ray.start.y <= gap
    &&& SCALE / 10 <= abs_spec(ray.dir.y) <= SCALE
    &&& ray.dir.y < 0 ==> ray.start.y > 0
    &&& ray.dir.y > 0 ==> ray.start.y < gap
}

/// The distance from a height `h` over a plane to the plane, along a ray
/// that falls by `b` for each unit of its way, leads back onto the plane
/// exactly: what is lost by rounding the quotient up, rounding the product
/// down wins back.
proof fn lemma_back_on_the_plane(h: int, b: int)
    requires
        0 < h <= widest_gap(),
        SCALE / 10 <= b <= SCALE,
    ensures
        0 < div_spec(h, b) < RAW_INFINITY,
        mul_spec(div_spec(h, b), b) == h,
        mul_spec(div_spec(h, b), -b) == -h,
{
    let x = h * SCALE;
    assert(x == h * 1_000_000_000);
    let d = (x + b - 1) / b;
    vstd::arithmetic::div_mod::lemma_fundamental_div_mod(x + b - 1, b);
    vstd::arithmetic::div_mod::lemma_mod_pos_bound(x + b - 1, b);
    vstd::arithmetic::div_mod::lemma_div_pos_is_pos(x + b - 1, b);
    vstd::arithmetic::mul::lemma_mul_is_commutative(b, d);
    assert(x <= d * b < x + b);
    assert(d > 0) by (nonlinear_arith)
        requires
            x <= d * b,
            x > 0,
            b > 0,
            d >= 0,
    ;
    assert(d <= 10 * h + 10) by (nonlinear_arith)
        requires
            d * b < h * 1_000_000_000 + b,
            b >= 100_000_000,
            d >= 0,
            h > 0,
    {
        if d > 10 * h + 10 {
            assert(d * b >= (10 * h + 11) * 100_000_000);
        }
    }
    assert(away_div(x, b) == d);
    assert(div_spec(h, b) == d);
    assert((d * b) / 1_000_000_000 == h);
    assert(d * (-b) == -(d * b)) by (nonlinear_arith);
    assert(trunc_div(d * (-b), SCALE as int) == -h);
}

/// The product of a small whole number and a height is exact.
proof fn lemma_whole_height(n: int, y: int)
    requires
        -2 <= n <= 2,
        -2 * SCALE <= y <= widest_gap(),
    ensures
        mul_spec(n * SCALE, y) == n * y,
        mul_spec(y, n * SCALE) == n * y,
{
    let q = n * y;
    assert(-2_000_000_000_000_000 <= q <= 2_000_000_000_000_000) by (nonlinear_arith)
        requires
            q == n * y,
            -2 <= n <= 2,
            -2_000_000_000 <= y <= 1_000_000_000_000_000,
    ;
    lemma_whole_product(n, y);
}

/// The dot product of a vector with the direction straight up, or straight
/// down, is its height, or the opposite of its height.
proof fn lemma_axis_dot(v: VectorView)
    requires
        -SCALE <= v.y <= widest_gap(),
    ensures
        (VectorView { x: 0, y: SCALE as int, z: 0 }).dot(v) == v.y,
        (VectorView { x: 0, y: -SCALE, z: 0 }).dot(v) == -v.y,
{
    assert(0 * v.x == 0 && 0 * v.z == 0);
    lemma_whole_height(1, v.y);
    lemma_whole_height(-1, v.y);
    assert(1 * SCALE == SCALE && (-1) * SCALE == -SCALE);
}

/// A direction mirrored at the floor or at the ceiling rises as fast as it
/// fell, or falls as fast as it rose.
proof fn lemma_mirrored(dir: VectorView)
    requires
        -SCALE <= dir.y <= SCALE,
    ensures
        mirror_spec(dir, VectorView { x: 0, y: SCALE as int, z: 0 }).y == -dir.y,
        mirror_spec(dir, VectorView { x: 0, y: -SCALE, z: 0 }).y == -dir.y,
{
    lemma_axis_dot(dir);
    lemma_whole_height(2, dir.y);
    lemma_whole_height(2, -dir.y);
    lemma_whole_height(1, 2 * dir.y);
    lemma_whole_height(-1, -2 * dir.y);
    assert(1 * SCALE == SCALE && (-1) * SCALE == -SCALE && 2 * SCALE == SCALE + SCALE);
}

/// A ray between the two mirrors hits one of them, and so does every
/// mirrored ray after it, down to the last level.
pub proof fn lemma_between_mirrors(ray: RayView, scene: SceneView, gap: int, depth: nat)
    requires
        two_mirrors(scene, gap),
        runs_between(ray, gap),
    ensures
        mirrors_on(ray, scene, depth),
    decreases remaining(depth),
{
    let things = scene.things;
    let dy = ray.dir.y;
    let y = ray.start.y;
    let up = VectorView { x: 0, y: SCALE as int, z: 0 };
    let down = VectorView { x: 0, y: -SCALE, z: 0 };
    lemma_axis_dot(ray.dir);
    lemma_axis_dot(ray.start);
    assert(up.dot(ray.dir) == dy && down.dot(ray.dir) == -dy);
    assert(up.dot(ray.start) == y && down.dot(ray.start) == -y);
    reveal_with_fuel(closest_among, 3);
    if dy < 0 {
        let b = -dy;
        lemma_back_on_the_plane(y, b);
        let d = div_spec(y, b);
        assert(things[0].intersect(ray) == Some(d));
        assert(things[1].intersect(ray) is None);
        assert(closest_intersection_spec(ray, scene) == Some(IntersectView { thing: 0, dist: d }));
        let pos = hit_position(ray, d);
        assert(pos.y == 0);
        let next = RayView { start: pos, dir: mirror_spec(ray.dir, up) };
        lemma_mirrored(ray.dir);
        assert(next.dir.y == -dy);
        assert(runs_between(next, gap));
        if depth < MAX_DEPTH {
            lemma_between_mirrors(next, scene, gap, depth + 1);
        }
    } else {
        let h = gap - y;
        lemma_back_on_the_plane(h, dy);
        let d = div_spec(h, dy);
        assert(things[0].intersect(ray) is None);
        assert(things[1].intersect(ray) == Some(d));
        assert(closest_intersection_spec(ray, scene) == Some(IntersectView { thing: 1, dist: d }));
        let pos = hit_position(ray, d);
        assert(pos.y == gap);
        let next = RayView { start: pos, dir: mirror_spec(ray.dir, down) };
        lemma_mirrored(ray.dir);
        assert(next.dir.y == -dy);
        assert(runs_between(next, gap));
        if depth < MAX_DEPTH {
            lemma_between_mirrors(next, scene, gap, depth + 1);
        }
    }
}

/// Between two mirrors the tracer always comes to an end, and the grey
/// that stands for what lies beyond the last level reaches the eye: for
/// every ray between the mirrors, whatever the lights as long as none has
/// a negative channel, every channel of what the ray sees is at least one
/// half times 0.7 for each of the levels, which from the first level is
/// 0.084035. What the lights give only adds to it.
pub proof fn lemma_two_mirrors_show_grey(ray: RayView, scene: SceneView, gap: int, depth: nat)
    requires
        two_mirrors(scene, gap),
        runs_between(ray, gap),
        lights_non_negative(scene),
    ensures
        at_least(trace_ray_spec(ray, scene, depth), mirror_floor(depth)),
        depth == 0 ==> at_least(trace_ray_spec(ray, scene, depth), 84_035_000),
{
    lemma_between_mirrors(ray, scene, gap, depth);
    lemma_grey_reaches_the_eye(ray, scene, depth);
    lemma_mirror_floor(depth);
}

} // verus!
