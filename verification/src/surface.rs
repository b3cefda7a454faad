//! Surfaces: what a point of an object looks like.
//!
//! A surface answers four questions: the diffuse color at a position, the
//! specular color there, how much of a reflected ray it returns, and the
//! exponent of its highlight.
use crate::color::{black_spec, grey_spec, white_spec, Color, ColorView};
use crate::scalar::{floor_spec, Scalar, SCALE};
use crate::vector::{Vector, VectorView};
use vstd::prelude::*;

verus! {

/// Whether `pos` lies on an even square of the checkerboard: the whole parts
/// of its `x` and `z` coordinates, each rounded down, have an even sum.
pub open spec fn checker_even(pos: VectorView) -> bool {
    (floor_spec(pos.z) + floor_spec(pos.x)) % 2 == 0
}

/// The material of an object.
#[derive(Clone, Copy, Debug, PartialEq, Eq, Structural)]
pub enum Surface {
    /// A polished white material, the same at every point.
    Shiny,
    /// Unit squares in the `x`-`z` plane, alternately white and matt, black
    /// and mirroring.
    Checkerboard,
}

impl Surface {
    /// The diffuse color at `pos`.
    pub open spec fn diffuse_spec(self, pos: VectorView) -> ColorView {
        match self {
            Surface::Shiny => white_spec(),
            Surface::Checkerboard => if checker_even(pos) {
                white_spec()
            } else {
                black_spec()
            },
        }
    }

    /// The specular color at `pos`.
    pub open spec fn specular_spec(self, pos: VectorView) -> ColorView {
        match self {
            Surface::Shiny => grey_spec(),
            Surface::Checkerboard => white_spec(),
        }
    }

    /// The numerator of the share of a reflected ray that the surface
    /// returns at `pos`.
    pub open spec fn reflect_spec(self, pos: VectorView) -> int {
        match self {
            Surface::Shiny => 7 * (SCALE / 10),
            Surface::Checkerboard => if checker_even(pos) {
                SCALE / 10
            } else {
                7 * (SCALE / 10)
            },
        }
    }

    /// The exponent of the highlight.
    pub open spec fn roughness_spec(self) -> int {
        match self {
            Surface::Shiny => 250,
            Surface::Checkerboard => 150,
        }
    }

    /// The diffuse color at `pos`: white for a shiny surface; for a
    /// checkerboard white on even squares and black on odd ones.
    pub fn diffuse(&self, pos: &Vector) -> (c: Color)
        ensures
            c@ == self.diffuse_spec(pos@),
    {
        match self {
            Surface::Shiny => Color::white(),
            Surface::Checkerboard => if on_even_square(pos) {
                Color::white()
            } else {
                Color::black()
            },
        }
    }

    /// The specular color at `pos`: grey for a shiny surface, white for a
    /// checkerboard.
    pub fn specular(&self, pos: &Vector) -> (c: Color)
        ensures
            c@ == self.specular_spec(pos@),
    {
        match self {
            Surface::Shiny => Color::grey(),
            Surface::Checkerboard => Color::white(),
        }
    }

    /// The share of a reflected ray that the surface returns at `pos`, from
    /// zero to one: 0.7 for a shiny surface; for a checkerboard 0.1 on even
    /// squares and 0.7 on odd ones.
    pub fn reflect(&self, pos: &Vector) -> (k: Scalar)
        ensures
            k@ == self.reflect_spec(pos@),
            0 <= k@ <= SCALE,
    {
        match self {
            Surface::Shiny => Scalar::from_raw(7 * (SCALE / 10)),
            Surface::Checkerboard => if on_even_square(pos) {
                Scalar::from_raw(SCALE / 10)
            } else {
                Scalar::from_raw(7 * (SCALE / 10))
            },
        }
    }

    /// The exponent of the highlight: 250 for a shiny surface, 150 for a
    /// checkerboard.
    pub fn roughness(&self) -> (n: i32)
        ensures
            n == self.roughness_spec(),
            n > 0,
    {
        match self {
            Surface::Shiny => 250,
            Surface::Checkerboard => 150,
        }
    }
}

/// Whether `pos` lies on an even square of the checkerboard.
pub fn on_even_square(pos: &Vector) -> (even: bool)
    ensures
        even == checker_even(pos@),
{
    let fz: i128 = pos.z.floor();
    let fx: i128 = pos.x.floor();
    let sum: i128 = fz + fx;
    sum % 2 == 0
}

/// The checkerboard repeats after two units along `x` and along `z`, on
/// either side of the origin, and does not depend on the height: moving a
/// position by `2 * i` units along `x`, by `2 * j` units along `z` and to
/// any height `y` leaves it on a square of the same kind.
pub proof fn lemma_checkerboard_period(pos: VectorView, i: int, j: int, y: int)
    ensures
        checker_even(VectorView { x: pos.x + 2 * i * SCALE, y, z: pos.z + 2 * j * SCALE })
            == checker_even(pos),
{
    let dx = 2 * i * SCALE;
    let dz = 2 * j * SCALE;
    assert(dx == i * 2_000_000_000 && dz == j * 2_000_000_000) by (nonlinear_arith)
        requires
            dx == 2 * i * SCALE,
            dz == 2 * j * SCALE,
            SCALE == 1_000_000_000,
    ;
    assert(floor_spec(pos.x + dx) == floor_spec(pos.x) + 2 * i);
    assert(floor_spec(pos.z + dz) == floor_spec(pos.z) + 2 * j);
}

/// Every surface looks the same after two units along `x` and along `z`,
/// at any height: diffuse color, specular color and reflectivity repeat.
pub proof fn lemma_surface_period(surface: Surface, pos: VectorView, i: int, j: int, y: int)
    ensures
        surface.diffuse_spec(
            VectorView { x: pos.x + 2 * i * SCALE, y, z: pos.z + 2 * j * SCALE },
        ) == surface.diffuse_spec(pos),
        surface.specular_spec(
            VectorView { x: pos.x + 2 * i * SCALE, y, z: pos.z + 2 * j * SCALE },
        ) == surface.specular_spec(pos),
        surface.reflect_spec(
            VectorView { x: pos.x + 2 * i * SCALE, y, z: pos.z + 2 * j * SCALE },
        ) == surface.reflect_spec(pos),
{
    lemma_checkerboard_period(pos, i, j, y);
}

/// Squares of the checkerboard that share an edge differ: one unit along
/// `x` or along `z` leads from an even square to an odd one or back, so
/// the diffuse color and the reflectivity both change.
pub proof fn lemma_checkerboard_alternates(pos: VectorView)
    ensures
        checker_even(VectorView { x: pos.x + SCALE, ..pos }) != checker_even(pos),
        checker_even(VectorView { z: pos.z + SCALE, ..pos }) != checker_even(pos),
        Surface::Checkerboard.diffuse_spec(VectorView { x: pos.x + SCALE, ..pos })
            != Surface::Checkerboard.diffuse_spec(pos),
        Surface::Checkerboard.diffuse_spec(VectorView { z: pos.z + SCALE, ..pos })
            != Surface::Checkerboard.diffuse_spec(pos),
        Surface::Checkerboard.reflect_spec(VectorView { x: pos.x + SCALE, ..pos })
            != Surface::Checkerboard.reflect_spec(pos),
        Surface::Checkerboard.reflect_spec(VectorView { z: pos.z + SCALE, ..pos })
            != Surface::Checkerboard.reflect_spec(pos),
{
}

} // verus!
