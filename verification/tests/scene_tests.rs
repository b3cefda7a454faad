use raytracer::color::Color;
use raytracer::demo::make_scene;
use raytracer::geometry::{Plane, Sphere, Thing};
use raytracer::scalar::Scalar;
use raytracer::scene::{
    surface_named, Camera, CameraDesc, Light, Scene, SceneError, ThingDesc, FOV_FACTOR,
};
use raytracer::surface::Surface;
use raytracer::vector::Vector;

fn v(x: i32, y: i32, z: i32) -> Vector {
    Vector::from_thousandths(x, y, z)
}

#[test]
fn field_of_view_factor_is_one_and_a_half() {
    assert_eq!(FOV_FACTOR, 1_500_000_000);
}

#[test]
fn camera_looking_along_an_axis() {
    let camera = Camera::new(v(0, 0, 0), v(0, 0, -1000));
    assert_eq!(camera.pos, v(0, 0, 0));
    assert_eq!(camera.fwd, v(0, 0, -1000));
    assert_eq!(camera.right, v(-1500, 0, 0));
    assert_eq!(camera.up, v(0, 1500, 0));
    assert_eq!(camera.up.mag(), Scalar::from_thousandths(1500));
}

#[test]
fn camera_looking_along_the_other_way() {
    let camera = Camera::new(v(0, 0, 0), v(0, 0, 1000));
    assert_eq!(camera.pos, v(0, 0, 0));
    assert_eq!(camera.fwd, v(0, 0, 1000));
    assert_eq!(camera.right, v(1500, 0, 0));
    assert_eq!(camera.up, v(0, 1500, 0));
    assert_eq!(camera.fwd.mag().raw(), 1_000_000_000);
    assert_eq!(camera.right.mag().raw(), 1_500_000_000);
    assert_eq!(camera.up.mag().raw(), 1_500_000_000);
}

#[test]
fn camera_forward_is_scaled_to_unit_length() {
    let camera = Camera::new(v(1000, 2000, 3000), v(1000, 2000, -5000));
    assert_eq!(camera.pos, v(1000, 2000, 3000));
    assert_eq!(camera.fwd, v(0, 0, -1000));
    let camera = Camera::new(v(0, 0, 0), v(3000, 0, 4000));
    assert_eq!(camera.fwd, v(600, 0, 800));
}

#[test]
fn camera_basis_is_orthogonal_and_stretched() {
    let camera = Camera::new(v(3000, 2000, 4000), v(-1000, 500, 0));
    let close = |a: i128, b: i128| (a - b).abs() <= 4;
    assert!(close(camera.fwd.mag().raw(), 1_000_000_000));
    assert!(close(camera.right.mag().raw(), 1_500_000_000));
    assert!(close(camera.up.mag().raw(), 1_500_000_000));
    assert!(close(camera.fwd.dot(&camera.right).raw(), 0));
    assert!(close(camera.fwd.dot(&camera.up).raw(), 0));
    assert!(close(camera.right.dot(&camera.up).raw(), 0));
    assert_eq!(camera.right.y.raw(), 0);
    assert!(camera.up.y.raw() > 0);
}

#[test]
fn camera_basis_has_its_lengths_to_the_last_place() {
    let targets = [v(-1000, 500, 0), v(7, 11, 13), v(3000, 2000, 3999), v(-100000, 12345, 777)];
    for look_at in targets {
        let camera = Camera::new(v(3000, 2000, 4000), look_at);
        assert!((camera.fwd.mag().raw() - 1_000_000_000).abs() <= 1);
        assert!((camera.right.mag().raw() - 1_500_000_000).abs() <= 1);
        assert!((camera.up.mag().raw() - 1_500_000_000).abs() <= 1);
    }
}

#[test]
fn camera_looking_straight_down_has_no_right() {
    let inf = Scalar::infinity();
    let camera = Camera::new(v(0, 5000, 0), v(0, 0, 0));
    assert_eq!(camera.fwd, v(0, -1000, 0));
    assert_eq!(camera.right, Vector::new(inf, inf, inf));
}

#[test]
fn built_in_surfaces_are_found_by_name() {
    assert_eq!(surface_named(&"shiny".to_string()), Some(Surface::Shiny));
    assert_eq!(surface_named(&"checkerboard".to_string()), Some(Surface::Checkerboard));
}

#[test]
fn other_names_are_not_surfaces() {
    for name in ["", "Shiny", "shiny ", "checker", "checkerboards", "matte"] {
        assert_eq!(surface_named(&name.to_string()), None, "{:?}", name);
    }
}

#[test]
fn description_with_a_known_surface_gives_the_thing() {
    let desc = ThingDesc::Sphere {
        center: v(0, 1000, -250),
        radius: Scalar::from_thousandths(500),
        surface_id: "shiny".to_string(),
    };
    assert_eq!(
        desc.thing(),
        Some(Thing::Sphere(Sphere {
            center: v(0, 1000, -250),
            radius: Scalar::from_thousandths(500),
            surface: Surface::Shiny,
        }))
    );
    let desc = ThingDesc::Plane {
        normal: v(0, 1000, 0),
        offset: Scalar::from_int(2),
        surface_id: "checkerboard".to_string(),
    };
    assert_eq!(
        desc.thing(),
        Some(Thing::Plane(Plane {
            norm: v(0, 1000, 0),
            offset: Scalar::from_int(2),
            surface: Surface::Checkerboard,
        }))
    );
}

#[test]
fn description_with_an_unknown_surface_gives_nothing() {
    let desc = ThingDesc::Sphere {
        center: v(0, 0, 0),
        radius: Scalar::one(),
        surface_id: "velvet".to_string(),
    };
    assert_eq!(desc.thing(), None);
    let desc = ThingDesc::Plane {
        normal: v(0, 1000, 0),
        offset: Scalar::zero(),
        surface_id: String::new(),
    };
    assert_eq!(desc.thing(), None);
}

#[test]
fn scene_new_keeps_what_it_is_given() {
    let thing = Thing::Sphere(Sphere { center: v(0, 0, 0), radius: Scalar::one(), surface: Surface::Shiny });
    let light = Light { pos: v(0, 5000, 0), color: Color::white() };
    let camera = Camera::new(v(0, 0, 5000), v(0, 0, 0));
    let scene = Scene::new(vec![thing, thing], vec![light], camera);
    assert_eq!(scene.things, vec![thing, thing]);
    assert_eq!(scene.lights, vec![light]);
    assert_eq!(scene.camera, camera);
}

#[test]
fn build_keeps_the_order_and_sets_up_the_camera() {
    let camera = CameraDesc { position: v(3000, 2000, 4000), look_at: v(-1000, 500, 0) };
    let things = vec![
        ThingDesc::Plane {
            normal: v(0, 1000, 0),
            offset: Scalar::zero(),
            surface_id: "checkerboard".to_string(),
        },
        ThingDesc::Sphere {
            center: v(0, 1000, -250),
            radius: Scalar::from_thousandths(500),
            surface_id: "shiny".to_string(),
        },
        ThingDesc::Sphere {
            center: v(-1000, 500, 1500),
            radius: Scalar::one(),
            surface_id: "shiny".to_string(),
        },
    ];
    let lights = vec![
        Light { pos: v(-2000, 2500, 0), color: Color::from_thousandths(490, 70, 70) },
        Light { pos: v(1500, 2500, 1500), color: Color::from_thousandths(70, 70, 490) },
        Light { pos: v(1500, 2500, -1500), color: Color::from_thousandths(70, 490, 71) },
        Light { pos: v(0, 3500, 0), color: Color::from_thousandths(210, 210, 350) },
    ];
    let scene = Scene::build(&camera, &things, lights.clone()).unwrap();
    let demo = make_scene();
    assert_eq!(scene.things, demo.things);
    assert_eq!(scene.lights, lights);
    assert_eq!(scene.lights, demo.lights);
    assert_eq!(scene.camera, Camera::new(v(3000, 2000, 4000), v(-1000, 500, 0)));
    assert_eq!(scene.camera, demo.camera);
}

#[test]
fn build_of_nothing_is_an_empty_scene() {
    let camera = CameraDesc { position: v(0, 0, 5000), look_at: v(0, 0, 0) };
    let scene = Scene::build(&camera, &vec![], vec![]).unwrap();
    assert!(scene.things.is_empty());
    assert!(scene.lights.is_empty());
    assert_eq!(scene.camera.fwd, v(0, 0, -1000));
}

#[test]
fn build_fails_at_the_first_unknown_surface() {
    let camera = CameraDesc { position: v(0, 0, 5000), look_at: v(0, 0, 0) };
    let sphere = |id: &str| ThingDesc::Sphere {
        center: v(0, 0, 0),
        radius: Scalar::one(),
        surface_id: id.to_string(),
    };
    let things = vec![sphere("shiny"), sphere("glass"), sphere("checkerboard"), sphere("brass")];
    assert_eq!(
        Scene::build(&camera, &things, vec![]).err(),
        Some(SceneError::UnknownSurface(1))
    );
    let things = vec![sphere("Shiny")];
    assert_eq!(
        Scene::build(&camera, &things, vec![]).err(),
        Some(SceneError::UnknownSurface(0))
    );
    let things = vec![sphere("shiny"), sphere("checkerboard"), sphere("")];
    assert_eq!(
        Scene::build(&camera, &things, vec![]).err(),
        Some(SceneError::UnknownSurface(2))
    );
}

#[test]
fn demonstration_scene_holds_a_floor_two_spheres_and_four_lights() {
    let scene = make_scene();
    assert_eq!(
        scene.things,
        vec![
            Thing::Plane(Plane {
                norm: v(0, 1000, 0),
                offset: Scalar::zero(),
                surface: Surface::Checkerboard,
            }),
            Thing::Sphere(Sphere {
                center: v(0, 1000, -250),
                radius: Scalar::from_raw(500_000_000),
                surface: Surface::Shiny,
            }),
            Thing::Sphere(Sphere {
                center: v(-1000, 500, 1500),
                radius: Scalar::from_raw(1_000_000_000),
                surface: Surface::Shiny,
            }),
        ]
    );
    assert_eq!(scene.lights.len(), 4);
    assert_eq!(scene.lights[0].pos, v(-2000, 2500, 0));
    assert_eq!(scene.lights[2].color.b.raw(), 71_000_000);
    assert_eq!(scene.lights[3], Light { pos: v(0, 3500, 0), color: Color::from_thousandths(210, 210, 350) });
    assert_eq!(scene.camera.pos, v(3000, 2000, 4000));
}
