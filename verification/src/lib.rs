use vstd::prelude::*;

pub mod rational;
pub mod tuple;
pub mod matrix;
pub mod transformations;
pub mod color;
pub mod material;
pub mod lights;
pub mod ray;
pub mod sphere;
pub mod intersection;
pub mod canvas;
pub mod image;
pub mod renders;
pub mod clock;
pub mod projectile;

verus! {

/// The ways an operation of this library can fail.
#[derive(Clone, Copy, Debug, PartialEq, Eq, Structural)]
pub enum TraceError {
    /// An intermediate value left the representable range of the scalars.
    Overflow,
    /// Matrix shapes do not allow the requested operation.
    DimensionMismatch,
    /// The matrix determinant is below the tolerance, so no inverse exists.
    NotInvertible,
    /// A ray was built from a non-point origin or a non-vector direction.
    InvalidRay,
}

} // verus!
