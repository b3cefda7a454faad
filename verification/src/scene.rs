//! The scene: objects, lights and the camera that looks at them.
use crate::color::{Color, ColorView};
use crate::geometry::{Plane, PlaneView, Sphere, SphereView, Thing, ThingView};
use crate::rounding::lemma_along_an_axis;
use crate::scalar::{lemma_whole_product, mul_spec, Scalar, SCALE};
use crate::surface::Surface;
use crate::vector::{abs_spec, Vector, VectorView};
use vstd::prelude::*;

verus! {

/// The numerator of the factor by which the camera's `right` and `up`
/// vectors are stretched: it sets the angle of view.
pub const FOV_FACTOR: i128 = 1_500_000_000;

/// The mathematical value of a [`Light`].
pub struct LightView {
    pub pos: VectorView,
    pub color: ColorView,
}

/// A point light.
#[derive(Clone, Copy, Debug, PartialEq, Eq, Structural)]
pub struct Light {
    pub pos: Vector,
    pub color: Color,
}

impl View for Light {
    type V = LightView;

    open spec fn view(&self) -> LightView {
        LightView { pos: self.pos@, color: self.color@ }
    }
}

/// The mathematical value of a [`Camera`].
pub struct CameraView {
    pub pos: VectorView,
    pub fwd: VectorView,
    pub right: VectorView,
    pub up: VectorView,
}

/// The direction that counts as down when a camera is set up.
pub open spec fn down_spec() -> VectorView {
    VectorView { x: 0, y: -SCALE, z: 0 }
}

/// The camera at `pos` that looks at `look_at`. `fwd` is the unit vector
/// toward `look_at`; `right` is the unit vector across `fwd` and down,
/// `up` the unit vector across `fwd` and `right`, both stretched by the
/// field-of-view factor: each is scaled to that length in one step, so
/// that it is rounded once.
pub open spec fn camera_spec(pos: VectorView, look_at: VectorView) -> CameraView {
    let fwd = look_at.minus(pos).norm();
    let right = fwd.cross(down_spec()).with_length(FOV_FACTOR as int);
    let up = fwd.cross(right).with_length(FOV_FACTOR as int);
    CameraView { pos, fwd, right, up }
}

/// A camera that looks along the `z` axis has an exact basis: `fwd` is
/// the unit vector along the axis, toward what is looked at; `right` lies
/// along the `x` axis and `up` points straight up, each with a length of
/// exactly the field-of-view factor.
pub proof fn lemma_camera_along_z(pos: VectorView, look_at: VectorView)
    requires
        look_at.minus(pos).x == 0,
        look_at.minus(pos).y == 0,
        look_at.minus(pos).z != 0,
    ensures
        ({
            let way: int = if look_at.minus(pos).z > 0 {
                1
            } else {
                -1
            };
            camera_spec(pos, look_at) == (CameraView {
                pos,
                fwd: VectorView { x: 0, y: 0, z: way * SCALE },
                right: VectorView { x: way * FOV_FACTOR, y: 0, z: 0 },
                up: VectorView { x: 0, y: FOV_FACTOR as int, z: 0 },
            })
        }),
{
    let way: int = if look_at.minus(pos).z > 0 {
        1
    } else {
        -1
    };
    let d = look_at.minus(pos);
    lemma_along_an_axis(d, SCALE as int);
    let fwd = d.norm();
    assert(fwd == VectorView { x: 0, y: 0, z: way * SCALE });
    assert(0 * 0 == 0);
    lemma_whole_product(0, 0);
    lemma_whole_product(0, -SCALE);
    lemma_whole_product(way, -SCALE);
    lemma_whole_product(way, 0);
    lemma_whole_product(0, way * SCALE);
    let across = fwd.cross(down_spec());
    assert(mul_spec(0, 0) == 0 && mul_spec(0, -SCALE) == 0 && mul_spec(way * SCALE, 0) == 0);
    assert(mul_spec(way * SCALE, -SCALE) == way * (-SCALE));
    assert(across == VectorView { x: way * SCALE, y: 0, z: 0 });
    lemma_along_an_axis(across, FOV_FACTOR as int);
    let right = across.with_length(FOV_FACTOR as int);
    assert(right == VectorView { x: way * FOV_FACTOR, y: 0, z: 0 });
    lemma_whole_product(way, way * FOV_FACTOR);
    lemma_whole_product(0, way * FOV_FACTOR);
    assert(way * (way * FOV_FACTOR) == FOV_FACTOR);
    assert(mul_spec(way * SCALE, way * FOV_FACTOR) == FOV_FACTOR);
    assert(mul_spec(0, way * FOV_FACTOR) == 0);
    let over = fwd.cross(right);
    assert(over == VectorView { x: 0, y: FOV_FACTOR as int, z: 0 });
    lemma_along_an_axis(over, FOV_FACTOR as int);
}

/// The eye of the scene: a position and the three vectors that span the
/// picture.
#[derive(Clone, Copy, Debug, PartialEq, Eq, Structural)]
pub struct Camera {
    pub pos: Vector,
    pub fwd: Vector,
    pub right: Vector,
    pub up: Vector,
}

impl View for Camera {
    type V = CameraView;

    open spec fn view(&self) -> CameraView {
        CameraView { pos: self.pos@, fwd: self.fwd@, right: self.right@, up: self.up@ }
    }
}

impl Camera {
    /// The camera at `pos` that looks at `look_at`.
    pub fn new(pos: Vector, look_at: Vector) -> (c: Camera)
        ensures
            c@ == camera_spec(pos@, look_at@),
            c.pos == pos,
            !look_at@.minus(pos@).is_zero() ==> abs_spec(c@.fwd.mag() - SCALE) <= 1,
            !c@.fwd.cross(down_spec()).is_zero() ==> abs_spec(c@.right.mag() - FOV_FACTOR) <= 1,
            !c@.fwd.cross(c@.right).is_zero() ==> abs_spec(c@.up.mag() - FOV_FACTOR) <= 1,
    {
        let fwd = look_at.minus(&pos).norm();
        let down = Vector { x: Scalar::zero(), y: Scalar::from_raw(-SCALE), z: Scalar::zero() };
        let right = fwd.cross(&down).with_length(Scalar::from_raw(FOV_FACTOR));
        let up = fwd.cross(&right).with_length(Scalar::from_raw(FOV_FACTOR));
        Camera { pos, fwd, right, up }
    }
}

/// The mathematical value of a [`Scene`].
pub struct SceneView {
    pub things: Seq<ThingView>,
    pub lights: Seq<LightView>,
    pub camera: CameraView,
}

/// Everything a picture is made from. The order of the objects matters
/// where a ray hits two of them at the same distance: the earlier one is
/// seen.
#[derive(Debug)]
pub struct Scene {
    pub things: Vec<Thing>,
    pub lights: Vec<Light>,
    pub camera: Camera,
}

impl View for Scene {
    type V = SceneView;

    open spec fn view(&self) -> SceneView {
        SceneView {
            things: Seq::new(self.things@.len(), |i: int| self.things@[i]@),
            lights: Seq::new(self.lights@.len(), |i: int| self.lights@[i]@),
            camera: self.camera@,
        }
    }
}

/// The name of a surface as a scene description gives it, if it is one of
/// the two that are built in: `shiny` and `checkerboard`.
pub open spec fn surface_named_spec(id: Seq<char>) -> Option<Surface> {
    if id == "shiny"@ {
        Some(Surface::Shiny)
    } else if id == "checkerboard"@ {
        Some(Surface::Checkerboard)
    } else {
        None
    }
}

/// The surface with the given name, if it is one of the two that are
/// built in: `shiny` and `checkerboard`.
pub fn surface_named(id: &String) -> (s: Option<Surface>)
    ensures
        s == surface_named_spec(id@),
{
    if *id == "shiny".to_owned() {
        Some(Surface::Shiny)
    } else if *id == "checkerboard".to_owned() {
        Some(Surface::Checkerboard)
    } else {
        None
    }
}

/// The mathematical value of a [`ThingDesc`].
pub enum ThingDescView {
    Sphere { center: VectorView, radius: int, surface_id: Seq<char> },
    Plane { normal: VectorView, offset: int, surface_id: Seq<char> },
}

impl ThingDescView {
    /// The name of the surface that the description asks for.
    pub open spec fn surface_id(self) -> Seq<char> {
        match self {
            ThingDescView::Sphere { surface_id, .. } => surface_id,
            ThingDescView::Plane { surface_id, .. } => surface_id,
        }
    }

    /// The object described, with `surface` for its material.
    pub open spec fn with_surface(self, surface: Surface) -> ThingView {
        match self {
            ThingDescView::Sphere { center, radius, .. } => ThingView::Sphere(
                SphereView { center, radius, surface },
            ),
            ThingDescView::Plane { normal, offset, .. } => ThingView::Plane(
                PlaneView { norm: normal, offset, surface },
            ),
        }
    }

    /// The object described, if its surface is known.
    pub open spec fn thing(self) -> Option<ThingView> {
        match surface_named_spec(self.surface_id()) {
            Some(surface) => Some(self.with_surface(surface)),
            None => None,
        }
    }
}

/// The description of an object: its shape, and its surface by name.
#[derive(Debug)]
pub enum ThingDesc {
    Sphere { center: Vector, radius: Scalar, surface_id: String },
    Plane { normal: Vector, offset: Scalar, surface_id: String },
}

impl View for ThingDesc {
    type V = ThingDescView;

    open spec fn view(&self) -> ThingDescView {
        match self {
            ThingDesc::Sphere { center, radius, surface_id } => ThingDescView::Sphere {
                center: center@,
                radius: radius@,
                surface_id: surface_id@,
            },
            ThingDesc::Plane { normal, offset, surface_id } => ThingDescView::Plane {
                normal: normal@,
                offset: offset@,
                surface_id: surface_id@,
            },
        }
    }
}

impl ThingDesc {
    /// The object described, if its surface is known.
    pub fn thing(&self) -> (t: Option<Thing>)
        ensures
            thing_view(t) == self@.thing(),
    {
        match self {
            ThingDesc::Sphere { center, radius, surface_id } => match surface_named(surface_id) {
                Some(surface) => Some(
                    Thing::Sphere(Sphere { center: *center, radius: *radius, surface }),
                ),
                None => None,
            },
            ThingDesc::Plane { normal, offset, surface_id } => match surface_named(surface_id) {
                Some(surface) => Some(
                    Thing::Plane(Plane { norm: *normal, offset: *offset, surface }),
                ),
                None => None,
            },
        }
    }
}

/// The mathematical value of an optional object.
pub open spec fn thing_view(t: Option<Thing>) -> Option<ThingView> {
    match t {
        Some(thing) => Some(thing@),
        None => None,
    }
}

/// The description of a camera: where it stands and what it looks at.
#[derive(Clone, Copy, Debug, PartialEq, Eq, Structural)]
pub struct CameraDesc {
    pub position: Vector,
    pub look_at: Vector,
}

/// Why a scene could not be built.
#[derive(Clone, Copy, Debug, PartialEq, Eq, Structural)]
pub enum SceneError {
    /// The object at this place of the list names a surface that is not
    /// known.
    UnknownSurface(usize),
}

/// Whether every one of the first `n` descriptions names a known surface.
pub open spec fn surfaces_known(things: Seq<ThingDescView>, n: int) -> bool {
    forall|i: int| 0 <= i < n ==> (#[trigger] things[i]).thing() is Some
}

/// The mathematical values of a list of descriptions.
pub open spec fn descriptions_view(things: Seq<ThingDesc>) -> Seq<ThingDescView> {
    Seq::new(things.len(), |i: int| things[i]@)
}

impl Scene {
    /// The scene with the given objects, lights and camera.
    pub fn new(things: Vec<Thing>, lights: Vec<Light>, camera: Camera) -> (s: Scene)
        ensures
            s.things@ == things@,
            s.lights@ == lights@,
            s.camera == camera,
    {
        Scene { things, lights, camera }
    }

    /// Builds a scene from a description: the camera, the objects in
    /// order, each with its surface looked up by name, and the lights.
    /// Fails at the first object whose surface is not known.
    pub fn build(camera: &CameraDesc, things: &Vec<ThingDesc>, lights: Vec<Light>) -> (r: Result<
        Scene,
        SceneError,
    >)
        ensures
            r is Ok <==> surfaces_known(descriptions_view(things@), things@.len() as int),
            r is Ok ==> {
                let s = r.unwrap();
                &&& s.camera@ == camera_spec(camera.position@, camera.look_at@)
                &&& s.lights@ == lights@
                &&& s@.things.len() == things@.len()
                &&& forall|i: int|
                    0 <= i < things@.len() ==> Some(#[trigger] s@.things[i]) == things@[i]@.thing()
            },
            r is Err ==> {
                let SceneError::UnknownSurface(at) = r.unwrap_err();
                &&& at < things@.len()
                &&& things@[at as int]@.thing() is None
                &&& surfaces_known(descriptions_view(things@), at as int)
            },
    {
        let mut built: Vec<Thing> = Vec::new();
        let mut i: usize = 0;
        while i < things.len()
            invariant
                i <= things.len(),
                built@.len() == i,
                surfaces_known(descriptions_view(things@), i as int),
                forall|j: int|
                    0 <= j < i ==> Some((#[trigger] built@[j])@) == things@[j]@.thing(),
            decreases things.len() - i,
        {
            match things[i].thing() {
                Some(thing) => {
                    built.push(thing);
                },
                None => {
                    assert(descriptions_view(things@)[i as int].thing() is None);
                    return Err(SceneError::UnknownSurface(i));
                },
            }
            i = i + 1;
        }
        Ok(
            Scene {
                things: built,
                lights,
                camera: Camera::new(camera.position, camera.look_at),
            },
        )
    }
}

} // verus!
