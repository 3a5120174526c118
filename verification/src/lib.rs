//! A planar paper-folding kernel over exact rational arithmetic.
//!
//! Polygons on a sheet are split by a fold line and the pieces away from a
//! chosen anchor are reflected; every polygon carries the affine transform
//! that maps it back to the unfolded sheet. The scalar domain is the exact
//! rational (`scalar`), modelled in specifications by integer fraction
//! pairs (`rational`); the geometry (`geom`, `polygon`, `matrix`), the
//! intersection engine (`intersect`), the fold engine (`fold`) and the
//! emission hygiene (`write`) are verified against that model, and `laws`
//! states the algebraic laws the kernel obeys.

pub mod fold;
pub mod geom;
pub mod intersect;
pub mod laws;
pub mod matrix;
pub mod polygon;
pub mod rational;
pub mod scalar;
pub mod write;

use vstd::prelude::*;

verus! {

} // verus!
