//! A scene to look at: two polished spheres on a checkerboard floor, under
//! four colored lights.
use crate::color::{tint_spec, Color};
use crate::geometry::{Plane, PlaneView, Sphere, SphereView, Thing, ThingView};
use crate::scalar::{Scalar, SCALE};
use crate::scene::{camera_spec, Camera, Light, LightView, Scene, SceneView};
use crate::surface::Surface;
use crate::vector::{thousandths_spec, Vector};
use vstd::prelude::*;

verus! {

/// The objects of the demonstration scene: the floor, a small sphere and a
/// large one.
pub open spec fn demo_things() -> Seq<ThingView> {
    seq![
        ThingView::Plane(
            PlaneView { norm: thousandths_spec(0, 1000, 0), offset: 0, surface: Surface::Checkerboard },
        ),
        ThingView::Sphere(
            SphereView {
                center: thousandths_spec(0, 1000, -250),
                radius: SCALE / 2,
                surface: Surface::Shiny,
            },
        ),
        ThingView::Sphere(
            SphereView {
                center: thousandths_spec(-1000, 500, 1500),
                radius: SCALE as int,
                surface: Surface::Shiny,
            },
        ),
    ]
}

/// The lights of the demonstration scene: a red one, a blue one, a green
/// one and a pale one overhead.
pub open spec fn demo_lights() -> Seq<LightView> {
    seq![
        LightView { pos: thousandths_spec(-2000, 2500, 0), color: tint_spec(490, 70, 70) },
        LightView { pos: thousandths_spec(1500, 2500, 1500), color: tint_spec(70, 70, 490) },
        LightView { pos: thousandths_spec(1500, 2500, -1500), color: tint_spec(70, 490, 71) },
        LightView { pos: thousandths_spec(0, 3500, 0), color: tint_spec(210, 210, 350) },
    ]
}

/// The demonstration scene.
pub open spec fn make_scene_spec() -> SceneView {
    SceneView {
        things: demo_things(),
        lights: demo_lights(),
        camera: camera_spec(thousandths_spec(3000, 2000, 4000), thousandths_spec(-1000, 500, 0)),
    }
}

/// The demonstration scene: a checkerboard floor, two polished spheres,
/// four lights, and a camera that looks down on them from the side.
pub fn make_scene() -> (scene: Scene)
    ensures
        scene@ == make_scene_spec(),
{
    let mut things: Vec<Thing> = Vec::new();
    things.push(
        Thing::Plane(
            Plane {
                norm: Vector::from_thousandths(0, 1000, 0),
                offset: Scalar::zero(),
                surface: Surface::Checkerboard,
            },
        ),
    );
    things.push(
        Thing::Sphere(
            Sphere {
                center: Vector::from_thousandths(0, 1000, -250),
                radius: Scalar::from_thousandths(500),
                surface: Surface::Shiny,
            },
        ),
    );
    things.push(
        Thing::Sphere(
            Sphere {
                center: Vector::from_thousandths(-1000, 500, 1500),
                radius: Scalar::from_thousandths(1000),
                surface: Surface::Shiny,
            },
        ),
    );
    let mut lights: Vec<Light> = Vec::new();
    lights.push(
        Light {
            pos: Vector::from_thousandths(-2000, 2500, 0),
            color: Color::from_thousandths(490, 70, 70),
        },
    );
    lights.push(
        Light {
            pos: Vector::from_thousandths(1500, 2500, 1500),
            color: Color::from_thousandths(70, 70, 490),
        },
    );
    lights.push(
        Light {
            pos: Vector::from_thousandths(1500, 2500, -1500),
            color: Color::from_thousandths(70, 490, 71),
        },
    );
    lights.push(
        Light {
            pos: Vector::from_thousandths(0, 3500, 0),
            color: Color::from_thousandths(210, 210, 350),
        },
    );
    let camera = Camera::new(
        Vector::from_thousandths(3000, 2000, 4000),
        Vector::from_thousandths(-1000, 500, 0),
    );
    let scene = Scene { things, lights, camera };
    assert(scene@.things =~= demo_things());
    assert(scene@.lights =~= demo_lights());
    scene
}

} // verus!
