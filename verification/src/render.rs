//! Rendering: from a scene to a raster of colors.
//!
//! Every pixel is a function of the scene and of its own coordinates alone,
//! so pixels may be computed in any order, or side by side.
use crate::color::{Color, ColorView};
use crate::geometry::{Ray, RayView};
use crate::scalar::{div_spec, from_int_spec, mul_spec, neg_spec, sub_spec, Scalar, SCALE};
use crate::scene::{Camera, CameraView, Scene, SceneView};
use crate::tracer::{trace_ray, trace_ray_spec};
use crate::vector::{Vector, VectorView};
use vstd::prelude::*;

verus! {

/// The numerator of the place of column `x` across a picture `width`
/// pixels wide, from -0.5 at the left edge to 0.5 at the right:
/// `(x - width / 2) / (2 * width)`.
pub open spec fn recenter_x_spec(x: int, width: int) -> int {
    div_spec(
        sub_spec(from_int_spec(x), div_spec(from_int_spec(width), 2 * SCALE)),
        mul_spec(2 * SCALE, from_int_spec(width)),
    )
}

/// The numerator of the place of row `y` in a picture `height` pixels
/// high, from 0.5 at the top edge to -0.5 at the bottom:
/// `-(y - height / 2) / (2 * height)`.
pub open spec fn recenter_y_spec(y: int, height: int) -> int {
    div_spec(
        neg_spec(sub_spec(from_int_spec(y), div_spec(from_int_spec(height), 2 * SCALE))),
        mul_spec(2 * SCALE, from_int_spec(height)),
    )
}

/// The unit direction from the camera through the pixel at column `x` and
/// row `y`.
pub open spec fn get_point_spec(
    camera: CameraView,
    x: int,
    y: int,
    width: int,
    height: int,
) -> VectorView {
    camera.fwd.plus(
        camera.right.times(recenter_x_spec(x, width)).plus(
            camera.up.times(recenter_y_spec(y, height)),
        ),
    ).norm()
}

/// The ray from the camera through the pixel at column `x` and row `y`.
pub open spec fn pixel_ray_spec(
    camera: CameraView,
    x: int,
    y: int,
    width: int,
    height: int,
) -> RayView {
    RayView { start: camera.pos, dir: get_point_spec(camera, x, y, width, height) }
}

/// The color of the pixel at column `x` and row `y`.
pub open spec fn trace_pixel_spec(
    scene: SceneView,
    x: int,
    y: int,
    width: int,
    height: int,
) -> ColorView {
    trace_ray_spec(pixel_ray_spec(scene.camera, x, y, width, height), scene, 0)
}

/// Twice a positive whole number that fits in 32 bits is not zero.
proof fn lemma_double_extent_positive(n: int)
    requires
        0 < n <= u32::MAX,
    ensures
        mul_spec(2 * SCALE, from_int_spec(n)) > 0,
{
    let scaled = n * 1_000_000_000;
    assert(from_int_spec(n) == scaled);
    assert((2 * SCALE) * scaled == (2 * scaled) * 1_000_000_000) by (nonlinear_arith)
        requires
            SCALE == 1_000_000_000,
    ;
}

/// The place of column `x` across a picture `width` pixels wide.
pub fn recenter_x(x: u32, width: u32) -> (r: Scalar)
    requires
        width > 0,
    ensures
        r@ == recenter_x_spec(x as int, width as int),
{
    proof {
        lemma_double_extent_positive(width as int);
    }
    let two = Scalar::from_raw(2 * SCALE);
    let w = Scalar::from_int(width as i64);
    Scalar::from_int(x as i64).sub(w.div(two)).div(two.mul(w))
}

/// The place of row `y` in a picture `height` pixels high. Row 0 is the
/// top of the picture.
pub fn recenter_y(y: u32, height: u32) -> (r: Scalar)
    requires
        height > 0,
    ensures
        r@ == recenter_y_spec(y as int, height as int),
{
    proof {
        lemma_double_extent_positive(height as int);
    }
    let two = Scalar::from_raw(2 * SCALE);
    let h = Scalar::from_int(height as i64);
    Scalar::from_int(y as i64).sub(h.div(two)).neg().div(two.mul(h))
}

/// The unit direction from the camera through the pixel at column `x` and
/// row `y` of a picture of `width` by `height` pixels.
pub fn get_point(camera: &Camera, x: u32, y: u32, width: u32, height: u32) -> (dir: Vector)
    requires
        width > 0,
        height > 0,
    ensures
        dir@ == get_point_spec(camera@, x as int, y as int, width as int, height as int),
{
    camera.fwd.plus(
        &camera.right.times(recenter_x(x, width)).plus(&camera.up.times(recenter_y(y, height))),
    ).norm()
}

/// The color of the pixel at column `x` and row `y` of a picture of
/// `width` by `height` pixels: what the ray from the camera through that
/// pixel sees.
pub fn trace_pixel(scene: &Scene, x: u32, y: u32, width: u32, height: u32) -> (c: Color)
    requires
        width > 0,
        height > 0,
    ensures
        c@ == trace_pixel_spec(scene@, x as int, y as int, width as int, height as int),
{
    let ray = Ray { start: scene.camera.pos, dir: get_point(&scene.camera, x, y, width, height) };
    trace_ray(&ray, scene, 0)
}

/// The picture of the scene, `width` by `height` pixels, row by row from
/// the top, each row from the left.
pub fn render(scene: &Scene, width: u32, height: u32) -> (raster: Vec<Color>)
    requires
        width * height <= usize::MAX,
    ensures
        raster@.len() == width * height,
        forall|x: int, y: int|
            0 <= x < width && 0 <= y < height ==> (#[trigger] raster@[y * width + x])@
                == trace_pixel_spec(scene@, x, y, width as int, height as int),
{
    let mut raster: Vec<Color> = Vec::new();
    let mut y: u32 = 0;
    while y < height
        invariant
            y <= height,
            width * height <= usize::MAX,
            raster@.len() == y * width,
            forall|i: int, j: int|
                0 <= i < width && 0 <= j < y ==> (#[trigger] raster@[j * width + i])@
                    == trace_pixel_spec(scene@, i, j, width as int, height as int),
        decreases height - y,
    {
        let mut x: u32 = 0;
        while x < width
            invariant
                x <= width,
                y < height,
                width * height <= usize::MAX,
                raster@.len() == y * width + x,
                forall|i: int, j: int|
                    0 <= i < width && 0 <= j < y ==> (#[trigger] raster@[j * width + i])@
                        == trace_pixel_spec(scene@, i, j, width as int, height as int),
                forall|i: int|
                    0 <= i < x ==> (#[trigger] raster@[y * width + i])@ == trace_pixel_spec(
                        scene@,
                        i,
                        y as int,
                        width as int,
                        height as int,
                    ),
            decreases width - x,
        {
            let c = trace_pixel(scene, x, y, width, height);
            let ghost before = raster@;
            raster.push(c);
            proof {
                assert forall|i: int, j: int| 0 <= i < width && 0 <= j < y implies (
                #[trigger] raster@[j * width + i])@ == trace_pixel_spec(
                    scene@,
                    i,
                    j,
                    width as int,
                    height as int,
                ) by {
                    lemma_cell_index(i, j, width as int, y as int);
                    assert(raster@[j * width + i] == before[j * width + i]);
                }
            }
            x = x + 1;
        }
        proof {
            assert((y + 1) * width == y * width + width) by (nonlinear_arith);
            assert forall|i: int, j: int| 0 <= i < width && 0 <= j < y + 1 implies (
            #[trigger] raster@[j * width + i])@ == trace_pixel_spec(
                scene@,
                i,
                j,
                width as int,
                height as int,
            ) by {
                if j == y {
                } else {
                }
            }
        }
        y = y + 1;
    }
    proof {
        assert(height * width == width * height) by (nonlinear_arith);
    }
    raster
}

/// The cell at column `i` of row `j` lies before the first cell of any
/// later row.
proof fn lemma_cell_index(i: int, j: int, width: int, rows: int)
    requires
        0 <= i < width,
        0 <= j < rows,
    ensures
        0 <= j * width + i < rows * width,
{
    assert(j * width + i < rows * width) by (nonlinear_arith)
        requires
            0 <= i < width,
            0 <= j < rows,
    ;
    assert(0 <= j * width) by (nonlinear_arith)
        requires
            0 <= j,
            0 < width,
    ;
}

/// The three displayable bytes of the pixel at column `x` and row `y`:
/// red, green, blue.
pub open spec fn pixel_bytes_spec(
    scene: SceneView,
    x: int,
    y: int,
    width: int,
    height: int,
) -> Seq<u8> {
    trace_pixel_spec(scene, x, y, width, height).to_triple()
}

/// Whether `bytes` is the displayable picture of the scene at `width` by
/// `height` pixels: three bytes for each pixel, row by row from the top,
/// each row from the left.
pub open spec fn is_picture(bytes: Seq<u8>, scene: SceneView, width: int, height: int) -> bool {
    &&& bytes.len() == 3 * (width * height)
    &&& forall|x: int, y: int, c: int|
        0 <= x < width && 0 <= y < height && 0 <= c < 3 ==> #[trigger] bytes[3 * (y * width + x)
            + c] == pixel_bytes_spec(scene, x, y, width, height)[c]
}

/// The three displayable bytes of the pixel at column `x` and row `y` of a
/// picture of `width` by `height` pixels.
pub fn pixel_bytes(scene: &Scene, x: u32, y: u32, width: u32, height: u32) -> (t: [u8; 3])
    requires
        width > 0,
        height > 0,
    ensures
        t@ == pixel_bytes_spec(scene@, x as int, y as int, width as int, height as int),
{
    trace_pixel(scene, x, y, width, height).to_triple()
}

/// Builds the picture with `ImageBuffer::from_fn` of the `image` crate and
/// takes the buffer's bytes out with `into_raw`. The contract claims what
/// the crate's source shows of the two: `from_fn` allots three bytes to
/// each pixel, row by row from the top and each row from the left, and
/// fills each pixel with what the given function returns for its column
/// and row; it calls the function only for columns below `width` and rows
/// below `height`; and it panics only where the number of bytes exceeds
/// what a vector can hold.
#[verifier::external_body]
fn image_from_fn(scene: &Scene, width: u32, height: u32) -> (bytes: Vec<u8>)
    requires
        3 * (width * height) <= isize::MAX,
    ensures
        is_picture(bytes@, scene@, width as int, height as int),
{
    image::ImageBuffer::from_fn(
        width,
        height,
        |x, y| image::Rgb(pixel_bytes(scene, x, y, width, height)),
    ).into_raw()
}

/// The displayable picture of the scene, `width` by `height` pixels, as
/// an encoder takes it: three bytes for each pixel, row by row from the
/// top. There is none where the picture would hold more bytes than a
/// vector can.
pub fn render_to_bytes(scene: &Scene, width: u32, height: u32) -> (picture: Option<Vec<u8>>)
    ensures
        picture is Some <==> 3 * (width * height) <= isize::MAX,
        picture is Some ==> is_picture(
            picture.unwrap()@,
            scene@,
            width as int,
            height as int,
        ),
{
    proof {
        lemma_extent_bound(width as int, height as int);
    }
    let size: u128 = 3 * ((width as u128) * (height as u128));
    if size <= isize::MAX as u128 {
        Some(image_from_fn(scene, width, height))
    } else {
        None
    }
}

/// The product of two numbers that fit in 32 bits fits in 64 bits.
proof fn lemma_extent_bound(width: int, height: int)
    requires
        0 <= width <= u32::MAX,
        0 <= height <= u32::MAX,
    ensures
        0 <= width * height <= 0xffff_ffff * 0xffff_ffff,
{
    assert(0 <= width * height <= 0xffff_ffff * 0xffff_ffff) by (nonlinear_arith)
        requires
            0 <= width <= 0xffff_ffff,
            0 <= height <= 0xffff_ffff,
    ;
}

} // verus!
