use raytracer::color::Color;
use raytracer::demo::make_scene;
use raytracer::geometry::{Plane, Ray, Sphere, Thing};
use raytracer::render::{
    get_point, pixel_bytes, recenter_x, recenter_y, render, render_to_bytes, trace_pixel,
};
use raytracer::scalar::Scalar;
use raytracer::scene::{Camera, Light, Scene};
use raytracer::surface::Surface;
use raytracer::tracer::trace_ray;
use raytracer::vector::Vector;

fn v(x: i32, y: i32, z: i32) -> Vector {
    Vector::from_thousandths(x, y, z)
}

fn small_scene() -> Scene {
    Scene::new(
        vec![
            Thing::Plane(Plane {
                norm: v(0, 1000, 0),
                offset: Scalar::zero(),
                surface: Surface::Checkerboard,
            }),
            Thing::Sphere(Sphere {
                center: v(0, 1000, 0),
                radius: Scalar::one(),
                surface: Surface::Shiny,
            }),
        ],
        vec![
            Light { pos: v(-2000, 2500, 0), color: Color::from_thousandths(490, 70, 70) },
            Light { pos: v(1500, 2500, 1500), color: Color::from_thousandths(70, 70, 490) },
        ],
        Camera::new(v(3000, 2000, 4000), v(-1000, 500, 0)),
    )
}

#[test]
fn recenter_x_runs_from_minus_a_quarter_to_a_quarter() {
    assert_eq!(recenter_x(0, 512).raw(), -250_000_000);
    assert_eq!(recenter_x(256, 512).raw(), 0);
    assert_eq!(recenter_x(128, 512).raw(), -125_000_000);
    assert_eq!(recenter_x(511, 512).raw(), 249_023_438);
    assert_eq!(recenter_x(512, 512).raw(), 250_000_000);
}

#[test]
fn recenter_y_is_flipped() {
    assert_eq!(recenter_y(0, 512).raw(), 250_000_000);
    assert_eq!(recenter_y(256, 512).raw(), 0);
    assert_eq!(recenter_y(384, 512).raw(), -125_000_000);
    assert_eq!(recenter_y(511, 512).raw(), -249_023_438);
}

#[test]
fn recenter_of_small_and_odd_sizes() {
    assert_eq!(recenter_x(0, 1).raw(), -250_000_000);
    assert_eq!(recenter_y(0, 1).raw(), 250_000_000);
    assert_eq!(recenter_x(1, 3).raw(), -83_333_334);
    assert_eq!(recenter_y(1, 3).raw(), 83_333_334);
    assert_eq!(recenter_x(2, 3).raw(), 83_333_334);
    assert_eq!(recenter_x(0, u32::MAX).raw(), -250_000_000);
}

#[test]
fn get_point_through_the_middle_is_forward() {
    let camera = Camera::new(v(0, 0, 0), v(0, 0, -1000));
    assert_eq!(get_point(&camera, 256, 256, 512, 512), v(0, 0, -1000));
    assert_eq!(get_point(&camera, 5, 3, 10, 6), v(0, 0, -1000));
}

#[test]
fn get_point_leans_toward_the_pixel() {
    let camera = Camera::new(v(0, 0, 0), v(0, 0, -1000));
    let left = get_point(&camera, 0, 256, 512, 512);
    let right = get_point(&camera, 511, 256, 512, 512);
    let top = get_point(&camera, 256, 0, 512, 512);
    let bottom = get_point(&camera, 256, 511, 512, 512);
    assert!(left.x.raw() > 0 && left.y.raw() == 0 && left.z.raw() < 0);
    assert!(right.x.raw() < 0 && right.y.raw() == 0 && right.z.raw() < 0);
    assert!(top.y.raw() > 0 && top.x.raw() == 0 && top.z.raw() < 0);
    assert!(bottom.y.raw() < 0 && bottom.x.raw() == 0 && bottom.z.raw() < 0);
    for dir in [left, right, top, bottom] {
        assert!((dir.mag().raw() - 1_000_000_000).abs() <= 1);
    }
    let depth = -left.z.raw();
    assert_eq!((left.x.raw() * 1000 + depth / 2) / depth, 375);
}

#[test]
fn trace_pixel_traces_the_ray_through_the_pixel() {
    let scene = small_scene();
    for (x, y) in [(0, 0), (3, 5), (7, 7), (4, 4), (6, 2)] {
        let ray = Ray { start: scene.camera.pos, dir: get_point(&scene.camera, x, y, 8, 8) };
        assert_eq!(trace_pixel(&scene, x, y, 8, 8), trace_ray(&ray, &scene, 0));
        assert_eq!(pixel_bytes(&scene, x, y, 8, 8), trace_ray(&ray, &scene, 0).to_triple());
    }
}

#[test]
fn render_goes_row_by_row_from_the_top() {
    let scene = small_scene();
    let raster = render(&scene, 6, 4);
    assert_eq!(raster.len(), 24);
    for y in 0..4u32 {
        for x in 0..6u32 {
            assert_eq!(raster[(y * 6 + x) as usize], trace_pixel(&scene, x, y, 6, 4));
        }
    }
}

#[test]
fn render_of_an_empty_picture_is_empty() {
    let scene = small_scene();
    assert!(render(&scene, 0, 5).is_empty());
    assert!(render(&scene, 5, 0).is_empty());
    assert!(render(&scene, 0, 0).is_empty());
}

#[test]
fn render_of_an_empty_scene_is_all_background() {
    let scene = Scene::new(vec![], vec![], Camera::new(v(0, 0, 5000), v(0, 0, 0)));
    let raster = render(&scene, 5, 3);
    assert_eq!(raster.len(), 15);
    assert!(raster.iter().all(|c| *c == Color::background()));
    assert_eq!(render_to_bytes(&scene, 5, 3), Some(vec![0u8; 45]));
}

#[test]
fn render_to_bytes_lays_out_three_bytes_a_pixel() {
    let scene = small_scene();
    let bytes = render_to_bytes(&scene, 7, 5).unwrap();
    let raster = render(&scene, 7, 5);
    assert_eq!(bytes.len(), 7 * 5 * 3);
    let mut expected = Vec::new();
    for color in &raster {
        expected.extend_from_slice(&color.to_triple());
    }
    assert_eq!(bytes, expected);
    for y in 0..5u32 {
        for x in 0..7u32 {
            let at = ((y * 7 + x) * 3) as usize;
            assert_eq!(bytes[at..at + 3], pixel_bytes(&scene, x, y, 7, 5));
        }
    }
    assert!(bytes.iter().any(|b| *b != 0));
}

#[test]
fn render_to_bytes_of_an_empty_picture_is_empty() {
    let scene = small_scene();
    assert_eq!(render_to_bytes(&scene, 0, 0), Some(vec![]));
    assert_eq!(render_to_bytes(&scene, 0, 9), Some(vec![]));
    assert_eq!(render_to_bytes(&scene, 9, 0), Some(vec![]));
}

#[test]
fn render_to_bytes_refuses_a_picture_too_large_to_hold() {
    let scene = small_scene();
    assert_eq!(render_to_bytes(&scene, u32::MAX, u32::MAX), None);
}

#[test]
fn rendering_the_demonstration_scene_shows_floor_spheres_and_sky() {
    let scene = make_scene();
    let bytes = render_to_bytes(&scene, 16, 16).unwrap();
    assert_eq!(bytes.len(), 16 * 16 * 3);
    let pixel = |x: usize, y: usize| -> [u8; 3] {
        let at = (y * 16 + x) * 3;
        [bytes[at], bytes[at + 1], bytes[at + 2]]
    };
    assert_eq!(pixel(0, 0), [0, 0, 0]);
    assert_eq!(pixel(15, 0), [0, 0, 0]);
    let lit = bytes.chunks(3).filter(|p| *p != [0u8, 0, 0]).count();
    assert!(lit > 64, "{}", lit);
}
