//! The tracer: what color a ray sees.
//!
//! A ray sees the nearest object it hits. The color there is the sum of
//! what the lights give it directly and of what a mirrored ray sees in turn,
//! weighed by the reflectivity of the surface. Mirrored rays are followed
//! down to [`MAX_DEPTH`]; below that a fixed grey stands for what they see.
use crate::color::{background_spec, black_spec, color_view, grey_spec, Color, ColorView};
use crate::geometry::{distance_view, Ray, RayView, Thing, ThingView};
use crate::scalar::{mul_spec, powi_spec, Scalar, RAW_INFINITY, SCALE};
use crate::scene::{Light, LightView, Scene, SceneView};
use crate::vector::{Vector, VectorView};
use vstd::prelude::*;

verus! {

/// The depth from which mirrored rays are no longer followed.
pub const MAX_DEPTH: u32 = 5;

/// The mathematical value of an [`Intersect`].
pub struct IntersectView {
    pub thing: int,
    pub dist: int,
}

/// A hit: the place in the scene's list of the object that was hit, and
/// the distance along the ray.
#[derive(Clone, Copy, Debug, PartialEq, Eq, Structural)]
pub struct Intersect {
    pub thing: usize,
    pub dist: Scalar,
}

impl View for Intersect {
    type V = IntersectView;

    open spec fn view(&self) -> IntersectView {
        IntersectView { thing: self.thing as int, dist: self.dist@ }
    }
}

/// The mathematical value of an optional hit.
pub open spec fn intersect_view(hit: Option<Intersect>) -> Option<IntersectView> {
    match hit {
        Some(i) => Some(i@),
        None => None,
    }
}

/// The distance that a new hit must stay under to replace `best`.
pub open spec fn distance_to_beat(best: Option<IntersectView>) -> int {
    match best {
        Some(b) => b.dist,
        None => RAW_INFINITY as int,
    }
}

/// The nearest hit of `ray` among the first `n` objects: each object in
/// turn replaces the best hit so far if its own lies ahead of the ray's
/// start and is strictly nearer. A hit at the start or behind it does not
/// count.
pub open spec fn closest_among(things: Seq<ThingView>, ray: RayView, n: nat) -> Option<
    IntersectView,
>
    decreases n,
{
    if n == 0 {
        None
    } else {
        let best = closest_among(things, ray, (n - 1) as nat);
        match things[n - 1].intersect(ray) {
            Some(d) => if 0 < d && d < distance_to_beat(best) {
                Some(IntersectView { thing: n - 1, dist: d })
            } else {
                best
            },
            None => best,
        }
    }
}

/// The nearest hit of `ray` in the scene.
pub open spec fn closest_intersection_spec(ray: RayView, scene: SceneView) -> Option<
    IntersectView,
> {
    closest_among(scene.things, ray, scene.things.len())
}

/// The distance of the nearest hit of `ray` in the scene.
pub open spec fn test_ray_spec(ray: RayView, scene: SceneView) -> Option<int> {
    match closest_intersection_spec(ray, scene) {
        Some(i) => Some(i.dist),
        None => None,
    }
}

/// Whether a point is in the shadow of a light at distance `light_distance`,
/// given what the ray from the point toward the light hits first.
pub open spec fn in_shadow_spec(hit: Option<int>, light_distance: int) -> bool {
    match hit {
        Some(d) => d <= light_distance,
        None => false,
    }
}

/// The diffuse part of what a light gives: the light's color, weighed by
/// the cosine `illum` of the angle between the light and the normal, or
/// black where the light is behind the surface.
pub open spec fn lambert_spec(light: LightView, illum: int) -> ColorView {
    if illum > 0 {
        light.color.scale(illum)
    } else {
        black_spec()
    }
}

/// The highlight that a light gives: the light's color, weighed by the
/// cosine `spec` of the angle between the light and the mirrored ray,
/// raised to the power `roughness`, or black where that cosine is not
/// positive.
pub open spec fn phong_spec(light: LightView, spec: int, roughness: int) -> ColorView {
    if spec > 0 {
        light.color.scale(powi_spec(spec, roughness as nat))
    } else {
        black_spec()
    }
}

/// What one light gives to the point `pos` of `thing`, where the surface
/// faces `normal` and the mirrored ray leaves along `dir`: nothing where
/// an object stands between the point and the light.
pub open spec fn color_light_spec(
    light: LightView,
    thing: ThingView,
    pos: VectorView,
    normal: VectorView,
    dir: VectorView,
    scene: SceneView,
) -> Option<ColorView> {
    let light_dist = light.pos.minus(pos);
    let light_norm = light_dist.norm();
    let hit = test_ray_spec(RayView { start: pos, dir: light_norm }, scene);
    if in_shadow_spec(hit, light_dist.mag()) {
        None
    } else {
        let light_color = lambert_spec(light, light_norm.dot(normal));
        let spec_color = phong_spec(
            light,
            light_norm.dot(dir.norm()),
            thing.surface().roughness_spec(),
        );
        Some(
            light_color.times(thing.surface().diffuse_spec(pos)).plus(
                spec_color.times(thing.surface().specular_spec(pos)),
            ),
        )
    }
}

/// The sum of what the first `n` lights give.
pub open spec fn natural_among(
    thing: ThingView,
    pos: VectorView,
    normal: VectorView,
    dir: VectorView,
    scene: SceneView,
    n: nat,
) -> ColorView
    decreases n,
{
    if n == 0 {
        black_spec()
    } else {
        let sum = natural_among(thing, pos, normal, dir, scene, (n - 1) as nat);
        match color_light_spec(scene.lights[n - 1], thing, pos, normal, dir, scene) {
            Some(c) => c.plus(sum),
            None => sum,
        }
    }
}

/// The sum of what all lights of the scene give.
pub open spec fn natural_color_spec(
    thing: ThingView,
    pos: VectorView,
    normal: VectorView,
    dir: VectorView,
    scene: SceneView,
) -> ColorView {
    natural_among(thing, pos, normal, dir, scene, scene.lights.len())
}

/// How many more mirrored rays may follow one at `depth`. The three
/// functions of the tracer call each other in a circle; every turn of it
/// either lowers this number or, once it is zero, ends within the turn.
pub open spec fn remaining(depth: nat) -> nat {
    if depth >= MAX_DEPTH {
        0
    } else {
        (MAX_DEPTH - depth) as nat
    }
}

/// The point that `ray` reaches after `dist`.
pub open spec fn hit_position(ray: RayView, dist: int) -> VectorView {
    ray.dir.times(dist).plus(ray.start)
}

/// The direction `dir` mirrored at a surface that faces `normal`.
pub open spec fn mirror_spec(dir: VectorView, normal: VectorView) -> VectorView {
    dir.minus(normal.times(mul_spec(2 * SCALE, normal.dot(dir))))
}

/// The color that `ray` sees at `depth`: the background where it hits
/// nothing, else the shade of the nearest hit.
pub open spec fn trace_ray_spec(ray: RayView, scene: SceneView, depth: nat) -> ColorView
    decreases remaining(depth), (if depth < MAX_DEPTH { 3int } else { 2int }),
{
    match closest_intersection_spec(ray, scene) {
        Some(isect) => shade_spec(isect, scene, ray, depth),
        None => background_spec(),
    }
}

/// The color at a hit: what the lights give, plus what the mirrored ray
/// sees, or grey in its place from `MAX_DEPTH` on.
pub open spec fn shade_spec(
    isect: IntersectView,
    scene: SceneView,
    ray: RayView,
    depth: nat,
) -> ColorView
    decreases remaining(depth), (if depth < MAX_DEPTH { 2int } else { 1int }),
{
    let thing = scene.things[isect.thing];
    let pos = hit_position(ray, isect.dist);
    let normal = thing.normal(pos);
    let reflect_dir = mirror_spec(ray.dir, normal);
    let natural = background_spec().plus(
        natural_color_spec(thing, pos, normal, reflect_dir, scene),
    );
    let reflection = if depth >= MAX_DEPTH {
        grey_spec()
    } else {
        reflection_color_spec(thing, pos, reflect_dir, scene, depth)
    };
    natural.plus(reflection)
}

/// What the mirrored ray from `pos` along `dir` sees one level deeper,
/// weighed by the reflectivity of `thing` at `pos`.
pub open spec fn reflection_color_spec(
    thing: ThingView,
    pos: VectorView,
    dir: VectorView,
    scene: SceneView,
    depth: nat,
) -> ColorView
    decreases remaining(depth), (if depth < MAX_DEPTH { 1int } else { 3int }),
{
    trace_ray_spec(RayView { start: pos, dir }, scene, depth + 1).scale(
        thing.surface().reflect_spec(pos),
    )
}

/// The nearest hit of `ray` in the scene, among those at a distance above
/// zero. Of two objects hit at the same distance the earlier in the
/// scene's list is returned. A hit at infinite distance does not count.
pub fn closest_intersection(ray: &Ray, scene: &Scene) -> (hit: Option<Intersect>)
    ensures
        intersect_view(hit) == closest_intersection_spec(ray@, scene@),
        match intersect_view(hit) {
            Some(best) => is_nearest(scene@.things, ray@, scene@.things.len(), best),
            None => none_hit(scene@.things, ray@, scene@.things.len()),
        },
        hit is Some ==> hit.unwrap().thing < scene.things.len(),
{
    let mut closest = Scalar::infinity();
    let mut best: Option<Intersect> = None;
    let mut i: usize = 0;
    while i < scene.things.len()
        invariant
            i <= scene.things.len(),
            intersect_view(best) == closest_among(scene@.things, ray@, i as nat),
            closest@ == distance_to_beat(intersect_view(best)),
            best is Some ==> best.unwrap().thing < i,
        decreases scene.things.len() - i,
    {
        assert(scene@.things[i as int] == scene.things@[i as int]@);
        match scene.things[i].intersect(ray) {
            Some(d) => {
                if d.is_positive() && d.lt(closest) {
                    closest = d;
                    best = Some(Intersect { thing: i, dist: d });
                }
            },
            None => {},
        }
        i = i + 1;
    }
    proof {
        lemma_closest_is_nearest(scene@.things, ray@, scene@.things.len());
    }
    best
}

/// The distance of the nearest hit of `ray` in the scene.
pub fn test_ray(ray: &Ray, scene: &Scene) -> (dist: Option<Scalar>)
    ensures
        distance_view(dist) == test_ray_spec(ray@, scene@),
{
    match closest_intersection(ray, scene) {
        Some(isect) => Some(isect.dist),
        None => None,
    }
}

/// What one light gives to the point `pos` of `thing`, where the surface
/// faces `normal` and the mirrored ray leaves along `dir`. The point is in
/// shadow, and the light gives nothing, where the ray from the point toward
/// the light hits an object no farther away than the light.
pub fn color_light(
    light: &Light,
    thing: &Thing,
    pos: &Vector,
    normal: &Vector,
    dir: &Vector,
    scene: &Scene,
) -> (c: Option<Color>)
    ensures
        color_view(c) == color_light_spec(light@, thing@, pos@, normal@, dir@, scene@),
{
    let light_dist = light.pos.minus(pos);
    let light_norm = light_dist.norm();
    let isect = test_ray(&Ray { start: *pos, dir: light_norm }, scene);
    let in_shadow = match isect {
        Some(d) => d.le(light_dist.mag()),
        None => false,
    };
    if in_shadow {
        None
    } else {
        let surface = thing.surface();
        let roughness = surface.roughness();
        let lit = |illum: Scalar| -> (c: Color)
            ensures
                c@ == light@.color.scale(illum@),
            { light.color.scale(illum) };
        let unlit = |illum: Scalar| -> (c: Color)
            ensures
                c@ == black_spec(),
            { Color::black() };
        let light_color = light_norm.dot_pos_neg(normal, lit, unlit);
        let gleam = |spec: Scalar| -> (c: Color)
            ensures
                c@ == light@.color.scale(powi_spec(spec@, roughness as nat)),
            { light.color.scale(spec.powi(roughness as u32)) };
        let dull = |spec: Scalar| -> (c: Color)
            ensures
                c@ == black_spec(),
            { Color::black() };
        let spec_color = light_norm.dot_pos_neg(&dir.norm(), gleam, dull);
        Some(
            light_color.times(&surface.diffuse(pos)).plus(
                &spec_color.times(&surface.specular(pos)),
            ),
        )
    }
}

/// The sum of what all lights of the scene give to the point `pos` of
/// `thing`. Distance does not weaken a light.
pub fn natural_color(
    thing: &Thing,
    pos: &Vector,
    normal: &Vector,
    dir: &Vector,
    scene: &Scene,
) -> (c: Color)
    ensures
        c@ == natural_color_spec(thing@, pos@, normal@, dir@, scene@),
        sums_in_range(thing@, pos@, normal@, dir@, scene@, scene@.lights.len()) ==> c@
            == natural_exact(thing@, pos@, normal@, dir@, scene@, scene@.lights.len()),
{
    proof {
        if sums_in_range(thing@, pos@, normal@, dir@, scene@, scene@.lights.len()) {
            lemma_natural_color_exact(thing@, pos@, normal@, dir@, scene@, scene@.lights.len());
        }
    }
    let mut sum = Color::black();
    let mut i: usize = 0;
    while i < scene.lights.len()
        invariant
            i <= scene.lights.len(),
            sum@ == natural_among(thing@, pos@, normal@, dir@, scene@, i as nat),
        decreases scene.lights.len() - i,
    {
        assert(scene@.lights[i as int] == scene.lights@[i as int]@);
        match color_light(&scene.lights[i], thing, pos, normal, dir, scene) {
            Some(c) => {
                sum = c.plus(&sum);
            },
            None => {},
        }
        i = i + 1;
    }
    sum
}

/// The color that `ray` sees in the scene at `depth`: the background where
/// it hits nothing, else the shade of the nearest hit.
pub fn trace_ray(ray: &Ray, scene: &Scene, depth: u32) -> (c: Color)
    ensures
        c@ == trace_ray_spec(ray@, scene@, depth as nat),
    decreases remaining(depth as nat), (if depth < MAX_DEPTH { 3int } else { 2int }),
{
    match closest_intersection(ray, scene) {
        Some(isect) => shade(&isect, scene, ray, depth),
        None => Color::background(),
    }
}

/// The color at the hit `isect` of `ray`: what the lights give there, plus
/// what the mirrored ray sees. From `MAX_DEPTH` on the mirrored ray is not
/// followed and grey stands in its place.
pub fn shade(isect: &Intersect, scene: &Scene, ray: &Ray, depth: u32) -> (c: Color)
    requires
        isect.thing < scene.things.len(),
    ensures
        c@ == shade_spec(isect@, scene@, ray@, depth as nat),
    decreases remaining(depth as nat), (if depth < MAX_DEPTH { 2int } else { 1int }),
{
    assert(scene@.things[isect.thing as int] == scene.things@[isect.thing as int]@);
    let thing = &scene.things[isect.thing];
    let pos = ray.dir.times(isect.dist).plus(&ray.start);
    let normal = thing.normal(&pos);
    let reflect_dir = ray.dir.minus(
        &normal.times(Scalar::from_raw(2 * SCALE).mul(normal.dot(&ray.dir))),
    );
    let natural = Color::background().plus(
        &natural_color(thing, &pos, &normal, &reflect_dir, scene),
    );
    let reflection = if depth >= MAX_DEPTH {
        Color::grey()
    } else {
        reflection_color(thing, &pos, &reflect_dir, scene, depth)
    };
    natural.plus(&reflection)
}

/// What the mirrored ray from `pos` along `dir` sees one level deeper,
/// weighed by the reflectivity of `thing` at `pos`.
pub fn reflection_color(
    thing: &Thing,
    pos: &Vector,
    dir: &Vector,
    scene: &Scene,
    depth: u32,
) -> (c: Color)
    requires
        depth < u32::MAX,
    ensures
        c@ == reflection_color_spec(thing@, pos@, dir@, scene@, depth as nat),
    decreases remaining(depth as nat), (if depth < MAX_DEPTH { 1int } else { 3int }),
{
    let ray = Ray { start: *pos, dir: *dir };
    trace_ray(&ray, scene, depth + 1).scale(thing.surface().reflect(pos))
}

/// Whether `best` is the nearest hit among the first `n` objects: it is
/// the hit of the object it names, at a distance above zero and less than
/// infinite; no other of them is hit nearer ahead of the start; and those
/// before it are hit farther away, if ahead at all.
pub open spec fn is_nearest(
    things: Seq<ThingView>,
    ray: RayView,
    n: nat,
    best: IntersectView,
) -> bool {
    &&& 0 <= best.thing < n
    &&& things[best.thing].intersect(ray) == Some(best.dist)
    &&& 0 < best.dist < RAW_INFINITY
    &&& forall|j: int|
        0 <= j < n ==> match #[trigger] things[j].intersect(ray) {
            Some(d) => d <= 0 || (best.dist <= d && (j < best.thing ==> best.dist < d)),
            None => true,
        }
}

/// Whether none of the first `n` objects is hit ahead of the start at
/// less than infinite distance.
pub open spec fn none_hit(things: Seq<ThingView>, ray: RayView, n: nat) -> bool {
    forall|j: int|
        0 <= j < n ==> match #[trigger] things[j].intersect(ray) {
            Some(d) => d <= 0 || d >= RAW_INFINITY,
            None => true,
        }
}

/// The closest hit is the nearest one ahead of the start, and of several
/// at the same distance the first in the list; there is none exactly where
/// nothing is hit ahead at less than infinite distance.
pub proof fn lemma_closest_is_nearest(things: Seq<ThingView>, ray: RayView, n: nat)
    requires
        n <= things.len(),
    ensures
        match closest_among(things, ray, n) {
            Some(best) => is_nearest(things, ray, n, best),
            None => none_hit(things, ray, n),
        },
    decreases n,
{
    if n > 0 {
        lemma_closest_is_nearest(things, ray, (n - 1) as nat);
    }
}

/// In a scene without objects every ray sees the background at every
/// depth, whatever the lights.
pub proof fn lemma_empty_scene_is_background(ray: RayView, scene: SceneView, depth: nat)
    requires
        scene.things.len() == 0,
    ensures
        trace_ray_spec(ray, scene, depth) == background_spec(),
        trace_ray_spec(ray, scene, depth) == black_spec(),
{
}

/// A ray that hits nothing at less than infinite distance sees the
/// background.
pub proof fn lemma_miss_is_background(ray: RayView, scene: SceneView, depth: nat)
    requires
        none_hit(scene.things, ray, scene.things.len()),
    ensures
        trace_ray_spec(ray, scene, depth) == background_spec(),
{
    lemma_closest_is_nearest(scene.things, ray, scene.things.len());
}

/// From `MAX_DEPTH` on no mirrored ray is followed: the shade of a hit is
/// what the lights give plus grey, and what a ray sees no longer depends on
/// the depth.
pub proof fn lemma_depth_limit(
    isect: IntersectView,
    ray: RayView,
    scene: SceneView,
    depth: nat,
    other: nat,
)
    requires
        depth >= MAX_DEPTH,
        other >= MAX_DEPTH,
    ensures
        shade_spec(isect, scene, ray, depth) == background_spec().plus(
            natural_color_spec(
                scene.things[isect.thing],
                hit_position(ray, isect.dist),
                scene.things[isect.thing].normal(hit_position(ray, isect.dist)),
                mirror_spec(
                    ray.dir,
                    scene.things[isect.thing].normal(hit_position(ray, isect.dist)),
                ),
                scene,
            ),
        ).plus(grey_spec()),
        trace_ray_spec(ray, scene, depth) == trace_ray_spec(ray, scene, other),
{
}

/// The channel-wise sum of two colors, exact: nothing is rounded and
/// nothing saturates.
pub open spec fn exact_plus(a: ColorView, b: ColorView) -> ColorView {
    ColorView { r: a.r + b.r, g: a.g + b.g, b: a.b + b.b }
}

/// Whether every channel of `c` lies between the two infinities.
pub open spec fn color_in_range(c: ColorView) -> bool {
    &&& -RAW_INFINITY <= c.r <= RAW_INFINITY
    &&& -RAW_INFINITY <= c.g <= RAW_INFINITY
    &&& -RAW_INFINITY <= c.b <= RAW_INFINITY
}

/// The exact sum of what the first `n` lights give.
pub open spec fn natural_exact(
    thing: ThingView,
    pos: VectorView,
    normal: VectorView,
    dir: VectorView,
    scene: SceneView,
    n: nat,
) -> ColorView
    decreases n,
{
    if n == 0 {
        black_spec()
    } else {
        let sum = natural_exact(thing, pos, normal, dir, scene, (n - 1) as nat);
        match color_light_spec(scene.lights[n - 1], thing, pos, normal, dir, scene) {
            Some(c) => exact_plus(c, sum),
            None => sum,
        }
    }
}

/// Whether the exact sum of what the lights give stays between the two
/// infinities after each of the first `n` lights.
pub open spec fn sums_in_range(
    thing: ThingView,
    pos: VectorView,
    normal: VectorView,
    dir: VectorView,
    scene: SceneView,
    n: nat,
) -> bool {
    forall|k: nat|
        k <= n ==> color_in_range(#[trigger] natural_exact(thing, pos, normal, dir, scene, k))
}

/// The sum over the lights saturates only where the exact sum leaves the
/// range: as long as the exact sum stays between the two infinities after
/// every light, the sum is the exact sum.
pub proof fn lemma_natural_color_exact(
    thing: ThingView,
    pos: VectorView,
    normal: VectorView,
    dir: VectorView,
    scene: SceneView,
    n: nat,
)
    requires
        sums_in_range(thing, pos, normal, dir, scene, n),
    ensures
        natural_among(thing, pos, normal, dir, scene, n) == natural_exact(
            thing,
            pos,
            normal,
            dir,
            scene,
            n,
        ),
    decreases n,
{
    if n > 0 {
        assert(sums_in_range(thing, pos, normal, dir, scene, (n - 1) as nat)) by {
            assert forall|k: nat| k <= n - 1 implies color_in_range(
                #[trigger] natural_exact(thing, pos, normal, dir, scene, k),
            ) by {
                assert(k <= n);
            }
        }
        lemma_natural_color_exact(thing, pos, normal, dir, scene, (n - 1) as nat);
        assert(color_in_range(natural_exact(thing, pos, normal, dir, scene, n)));
    }
}

/// What the lights give adds up over the lights: for three scenes with the
/// same objects, the third holding the lights of the first followed by
/// those of the second, the exact sum in the third is the exact sum of the
/// sums in the other two. Every light is counted once.
pub proof fn lemma_natural_color_additive(
    thing: ThingView,
    pos: VectorView,
    normal: VectorView,
    dir: VectorView,
    first: SceneView,
    second: SceneView,
    both: SceneView,
    k: nat,
)
    requires
        first.things == both.things,
        second.things == both.things,
        both.lights == first.lights + second.lights,
        k <= second.lights.len(),
    ensures
        natural_exact(thing, pos, normal, dir, both, first.lights.len() + k) == exact_plus(
            natural_exact(thing, pos, normal, dir, second, k),
            natural_exact(thing, pos, normal, dir, first, first.lights.len()),
        ),
    decreases k,
{
    if k == 0 {
        lemma_natural_prefix(thing, pos, normal, dir, first, both, first.lights.len());
    } else {
        lemma_natural_color_additive(thing, pos, normal, dir, first, second, both, (k - 1) as nat);
        assert(both.lights[first.lights.len() + k - 1] == second.lights[k - 1]);
    }
}

/// The exact sum over the first `n` lights is the same in two scenes with
/// the same objects whose first `n` lights are the same.
pub proof fn lemma_natural_prefix(
    thing: ThingView,
    pos: VectorView,
    normal: VectorView,
    dir: VectorView,
    one: SceneView,
    other: SceneView,
    n: nat,
)
    requires
        one.things == other.things,
        n <= one.lights.len(),
        n <= other.lights.len(),
        forall|i: int| 0 <= i < n ==> one.lights[i] == other.lights[i],
    ensures
        natural_exact(thing, pos, normal, dir, one, n) == natural_exact(
            thing,
            pos,
            normal,
            dir,
            other,
            n,
        ),
    decreases n,
{
    if n > 0 {
        lemma_natural_prefix(thing, pos, normal, dir, one, other, (n - 1) as nat);
    }
}

/// Whether no channel of `c` is negative.
pub open spec fn non_negative(c: ColorView) -> bool {
    c.r >= 0 && c.g >= 0 && c.b >= 0
}

/// Whether every channel of `c` is at least `level`.
pub open spec fn at_least(c: ColorView, level: int) -> bool {
    c.r >= level && c.g >= level && c.b >= level
}

/// Whether no light of the scene has a negative channel.
pub open spec fn lights_non_negative(scene: SceneView) -> bool {
    forall|i: int| 0 <= i < scene.lights.len() ==> non_negative((#[trigger] scene.lights[i]).color)
}

/// The grey that stands for what lies beyond `MAX_DEPTH`, as it arrives at
/// `depth` after one mirror of reflectivity 0.7 for each level between:
/// one half at `MAX_DEPTH`, times 0.7 for each level above it.
pub open spec fn mirror_floor(depth: nat) -> int
    decreases remaining(depth),
{
    if depth >= MAX_DEPTH {
        SCALE / 2
    } else {
        mul_spec(7 * (SCALE / 10), mirror_floor(depth + 1))
    }
}

/// Whether `ray`, and each mirrored ray after it down to `MAX_DEPTH`, hits
/// an object that returns at least 0.7 of a reflected ray.
pub open spec fn mirrors_on(ray: RayView, scene: SceneView, depth: nat) -> bool
    decreases remaining(depth),
{
    match closest_intersection_spec(ray, scene) {
        None => false,
        Some(isect) => {
            let thing = scene.things[isect.thing];
            let pos = hit_position(ray, isect.dist);
            &&& thing.surface().reflect_spec(pos) >= 7 * (SCALE / 10)
            &&& depth >= MAX_DEPTH || mirrors_on(
                RayView { start: pos, dir: mirror_spec(ray.dir, thing.normal(pos)) },
                scene,
                depth + 1,
            )
        },
    }
}

/// The product of two numbers that are not negative is not negative, and
/// grows with either factor.
pub proof fn lemma_product_monotone(k: int, l: int, t: int, u: int)
    requires
        0 <= k <= l,
        0 <= t <= u,
    ensures
        0 <= mul_spec(k, t) <= mul_spec(l, u),
{
    assert(0 <= k * t <= l * u) by (nonlinear_arith)
        requires
            0 <= k <= l,
            0 <= t <= u,
    ;
    assert(0 <= (k * t) / (SCALE as int) <= (l * u) / (SCALE as int)) by (nonlinear_arith)
        requires
            0 <= k * t <= l * u,
            SCALE == 1_000_000_000,
    ;
}

/// A power of a number that is not negative is not negative.
pub proof fn lemma_power_non_negative(a: int, n: nat)
    requires
        a >= 0,
    ensures
        powi_spec(a, n) >= 0,
    decreases n,
{
    if n > 0 {
        lemma_power_non_negative(a, (n - 1) as nat);
        lemma_product_monotone(0, powi_spec(a, (n - 1) as nat), 0, a);
    }
}

/// A light without a negative channel gives nothing negative.
pub proof fn lemma_light_non_negative(
    light: LightView,
    thing: ThingView,
    pos: VectorView,
    normal: VectorView,
    dir: VectorView,
    scene: SceneView,
)
    requires
        non_negative(light.color),
    ensures
        match color_light_spec(light, thing, pos, normal, dir, scene) {
            Some(c) => non_negative(c),
            None => true,
        },
{
    let light_norm = light.pos.minus(pos).norm();
    let illum = light_norm.dot(normal);
    let spec = light_norm.dot(dir.norm());
    let surface = thing.surface();
    let lambert = lambert_spec(light, illum);
    let phong = phong_spec(light, spec, surface.roughness_spec());
    if illum > 0 {
        lemma_product_monotone(0, illum, 0, light.color.r);
        lemma_product_monotone(0, illum, 0, light.color.g);
        lemma_product_monotone(0, illum, 0, light.color.b);
    }
    if spec > 0 {
        let p = powi_spec(spec, surface.roughness_spec() as nat);
        lemma_power_non_negative(spec, surface.roughness_spec() as nat);
        lemma_product_monotone(0, p, 0, light.color.r);
        lemma_product_monotone(0, p, 0, light.color.g);
        lemma_product_monotone(0, p, 0, light.color.b);
    }
    assert(non_negative(lambert) && non_negative(phong));
    let d = surface.diffuse_spec(pos);
    let s = surface.specular_spec(pos);
    assert(non_negative(d) && non_negative(s));
    lemma_product_monotone(0, lambert.r, 0, d.r);
    lemma_product_monotone(0, lambert.g, 0, d.g);
    lemma_product_monotone(0, lambert.b, 0, d.b);
    lemma_product_monotone(0, phong.r, 0, s.r);
    lemma_product_monotone(0, phong.g, 0, s.g);
    lemma_product_monotone(0, phong.b, 0, s.b);
}

/// Lights without a negative channel give nothing negative in sum.
pub proof fn lemma_natural_non_negative(
    thing: ThingView,
    pos: VectorView,
    normal: VectorView,
    dir: VectorView,
    scene: SceneView,
    n: nat,
)
    requires
        lights_non_negative(scene),
        n <= scene.lights.len(),
    ensures
        non_negative(natural_among(thing, pos, normal, dir, scene, n)),
    decreases n,
{
    if n > 0 {
        lemma_natural_non_negative(thing, pos, normal, dir, scene, (n - 1) as nat);
        lemma_light_non_negative(scene.lights[n - 1], thing, pos, normal, dir, scene);
    }
}

/// The grey that stands for what lies beyond `MAX_DEPTH` always reaches
/// the eye: where the ray and every mirrored ray after it hit a mirror of
/// reflectivity 0.7 or more, and no light has a negative channel, every
/// channel of what the ray sees is at least one half times 0.7 for each
/// level down to `MAX_DEPTH`. What the lights give only adds to it.
pub proof fn lemma_grey_reaches_the_eye(ray: RayView, scene: SceneView, depth: nat)
    requires
        lights_non_negative(scene),
        mirrors_on(ray, scene, depth),
    ensures
        at_least(trace_ray_spec(ray, scene, depth), mirror_floor(depth)),
        0 < mirror_floor(depth) <= SCALE / 2,
    decreases remaining(depth),
{
    lemma_mirror_floor(depth);
    let isect = closest_intersection_spec(ray, scene).unwrap();
    let thing = scene.things[isect.thing];
    let pos = hit_position(ray, isect.dist);
    let normal = thing.normal(pos);
    let reflect_dir = mirror_spec(ray.dir, normal);
    let natural = natural_color_spec(thing, pos, normal, reflect_dir, scene);
    lemma_natural_non_negative(thing, pos, normal, reflect_dir, scene, scene.lights.len());
    if depth < MAX_DEPTH {
        let next = RayView { start: pos, dir: reflect_dir };
        lemma_grey_reaches_the_eye(next, scene, depth + 1);
        let seen = trace_ray_spec(next, scene, depth + 1);
        let k = thing.surface().reflect_spec(pos);
        let level = mirror_floor(depth + 1);
        lemma_product_monotone(7 * (SCALE / 10), k, level, seen.r);
        lemma_product_monotone(7 * (SCALE / 10), k, level, seen.g);
        lemma_product_monotone(7 * (SCALE / 10), k, level, seen.b);
    }
}

/// The grey as it arrives at `depth` is positive and at most one half.
pub proof fn lemma_mirror_floor(depth: nat)
    ensures
        0 < mirror_floor(depth) <= SCALE / 2,
        depth >= MAX_DEPTH ==> mirror_floor(depth) == 500_000_000,
        depth == 4 ==> mirror_floor(depth) == 350_000_000,
        depth == 3 ==> mirror_floor(depth) == 245_000_000,
        depth == 2 ==> mirror_floor(depth) == 171_500_000,
        depth == 1 ==> mirror_floor(depth) == 120_050_000,
        depth == 0 ==> mirror_floor(depth) == 84_035_000,
{
    reveal_with_fuel(mirror_floor, 7);
    assert(mul_spec(700_000_000, 500_000_000) == 350_000_000);
    assert(mul_spec(700_000_000, 350_000_000) == 245_000_000);
    assert(mul_spec(700_000_000, 245_000_000) == 171_500_000);
    assert(mul_spec(700_000_000, 171_500_000) == 120_050_000);
    assert(mul_spec(700_000_000, 120_050_000) == 84_035_000);
}

} // verus!
