use raytracer::demo::make_scene;
use raytracer::geometry::Thing;
use raytracer::render::render_to_bytes;
use raytracer::scene::Scene;
use raytracer::surface::Surface;
use raytracer::vector::Vector;

type V3 = [f64; 3];

fn to_f(v: &Vector) -> V3 {
    [v.x.raw() as f64 / 1e9, v.y.raw() as f64 / 1e9, v.z.raw() as f64 / 1e9]
}

fn times(v: V3, k: f64) -> V3 {
    [k * v[0], k * v[1], k * v[2]]
}

fn plus(a: V3, b: V3) -> V3 {
    [a[0] + b[0], a[1] + b[1], a[2] + b[2]]
}

fn minus(a: V3, b: V3) -> V3 {
    [a[0] - b[0], a[1] - b[1], a[2] - b[2]]
}

fn dot(a: V3, b: V3) -> f64 {
    a[0] * b[0] + a[1] * b[1] + a[2] * b[2]
}

fn cross(a: V3, b: V3) -> V3 {
    [a[1] * b[2] - a[2] * b[1], a[2] * b[0] - a[0] * b[2], a[0] * b[1] - a[1] * b[0]]
}

fn mag(a: V3) -> f64 {
    dot(a, a).sqrt()
}

fn norm(a: V3) -> V3 {
    let m = mag(a);
    times(a, if m == 0.0 { f64::INFINITY } else { 1.0 / m })
}

fn mul(a: V3, b: V3) -> V3 {
    [a[0] * b[0], a[1] * b[1], a[2] * b[2]]
}

struct FloatScene {
    things: Vec<Thing>,
    lights: Vec<(V3, V3)>,
    pos: V3,
    fwd: V3,
    right: V3,
    up: V3,
}

fn float_scene(scene: &Scene, pos: V3, look_at: V3) -> FloatScene {
    let fwd = norm(minus(look_at, pos));
    let right = times(norm(cross(fwd, [0.0, -1.0, 0.0])), 1.5);
    let up = times(norm(cross(fwd, right)), 1.5);
    FloatScene {
        things: scene.things.clone(),
        lights: scene
            .lights
            .iter()
            .map(|l| (to_f(&l.pos), [
                l.color.r.raw() as f64 / 1e9,
                l.color.g.raw() as f64 / 1e9,
                l.color.b.raw() as f64 / 1e9,
            ]))
            .collect(),
        pos,
        fwd,
        right,
        up,
    }
}

fn even_square(pos: V3) -> bool {
    ((pos[2].floor() + pos[0].floor()) as i64).rem_euclid(2) == 0
}

fn diffuse(s: Surface, pos: V3) -> V3 {
    match s {
        Surface::Shiny => [1.0; 3],
        Surface::Checkerboard => if even_square(pos) { [1.0; 3] } else { [0.0; 3] },
    }
}

fn specular(s: Surface) -> V3 {
    match s {
        Surface::Shiny => [0.5; 3],
        Surface::Checkerboard => [1.0; 3],
    }
}

fn reflect(s: Surface, pos: V3) -> f64 {
    match s {
        Surface::Shiny => 0.7,
        Surface::Checkerboard => if even_square(pos) { 0.1 } else { 0.7 },
    }
}

fn intersect(thing: &Thing, start: V3, dir: V3) -> Option<f64> {
    match thing {
        Thing::Sphere(s) => {
            let eo = minus(to_f(&s.center), start);
            let v = dot(eo, dir);
            let r = s.radius.raw() as f64 / 1e9;
            if v <= 0.0 {
                return None;
            }
            let disc = r * r - dot(eo, eo) + v * v;
            if disc < 0.0 { None } else { Some(v - disc.sqrt()) }
        }
        Thing::Plane(p) => {
            let n = to_f(&p.norm);
            let denom = dot(n, dir);
            let dist = (dot(n, start) + p.offset.raw() as f64 / 1e9) / -denom;
            if denom >= 0.0 || !(dist > 0.0) {
                None
            } else {
                Some(dist)
            }
        }
    }
}

fn normal(thing: &Thing, pos: V3) -> V3 {
    match thing {
        Thing::Sphere(s) => norm(minus(pos, to_f(&s.center))),
        Thing::Plane(p) => to_f(&p.norm),
    }
}

fn closest(scene: &FloatScene, start: V3, dir: V3) -> Option<(usize, f64)> {
    let mut best: Option<(usize, f64)> = None;
    for (i, thing) in scene.things.iter().enumerate() {
        if let Some(d) = intersect(thing, start, dir) {
            if d > 0.0 && d < best.map_or(f64::INFINITY, |b| b.1) {
                best = Some((i, d));
            }
        }
    }
    best
}

fn trace(scene: &FloatScene, start: V3, dir: V3, depth: u32) -> V3 {
    let (index, dist) = match closest(scene, start, dir) {
        Some(hit) => hit,
        None => return [0.0; 3],
    };
    let thing = &scene.things[index];
    let surface = thing.surface();
    let pos = plus(times(dir, dist), start);
    let n = normal(thing, pos);
    let reflect_dir = minus(dir, times(n, 2.0 * dot(n, dir)));
    let mut natural = [0.0; 3];
    for (light_pos, light_color) in &scene.lights {
        let to_light = minus(*light_pos, pos);
        let light_dir = norm(to_light);
        let shadowed = closest(scene, pos, light_dir).map_or(false, |h| h.1 <= mag(to_light));
        if shadowed {
            continue;
        }
        let illum = dot(light_dir, n);
        let lambert = if illum > 0.0 { times(*light_color, illum) } else { [0.0; 3] };
        let spec = dot(light_dir, norm(reflect_dir));
        let phong = if spec > 0.0 {
            times(*light_color, spec.powi(surface.roughness()))
        } else {
            [0.0; 3]
        };
        let c = plus(mul(lambert, diffuse(surface, pos)), mul(phong, specular(surface)));
        natural = plus(c, natural);
    }
    let reflection = if depth >= 5 {
        [0.5; 3]
    } else {
        times(trace(scene, pos, reflect_dir, depth + 1), reflect(surface, pos))
    };
    plus(natural, reflection)
}

fn byte(d: f64) -> u8 {
    if d > 1.0 { 255 } else { (d * 255.0) as u8 }
}

fn float_picture(scene: &FloatScene, width: u32, height: u32) -> Vec<u8> {
    let mut bytes = Vec::new();
    for y in 0..height {
        for x in 0..width {
            let rx = (x as f64 - width as f64 / 2.0) / (2.0 * width as f64);
            let ry = -(y as f64 - height as f64 / 2.0) / (2.0 * height as f64);
            let dir = norm(plus(scene.fwd, plus(times(scene.right, rx), times(scene.up, ry))));
            let c = trace(scene, scene.pos, dir, 0);
            bytes.extend_from_slice(&[byte(c[0]), byte(c[1]), byte(c[2])]);
        }
    }
    bytes
}

#[test]
fn demonstration_picture_agrees_with_floating_point() {
    let scene = make_scene();
    let model = float_scene(&scene, [3.0, 2.0, 4.0], [-1.0, 0.5, 0.0]);
    let (width, height) = (48, 48);
    let fixed = render_to_bytes(&scene, width, height).unwrap();
    let float = float_picture(&model, width, height);
    assert_eq!(fixed.len(), float.len());
    let mut far = 0;
    for (a, b) in fixed.iter().zip(float.iter()) {
        if (*a as i32 - *b as i32).abs() > 1 {
            far += 1;
        }
    }
    assert!(far * 200 <= fixed.len(), "{} of {} bytes differ by more than one", far, fixed.len());
    assert!(float.iter().any(|b| *b != 0));
}
