//! The array library's four-axis shape type, `arrayfire::Dim4`, and the shapes
//! of the simulation grid built in it.

use arrayfire::Dim4;
use vstd::prelude::*;

use crate::grid::{extent, Dimensions};

verus! {

/// `arrayfire::Dim4`: four array extents.
#[verifier::external_type_specification]
#[verifier::external_body]
pub struct ExDim4(Dim4);

/// The four extents that a `Dim4` holds, in axis order.
pub uninterp spec fn dim4_extents(d: Dim4) -> Seq<u64>;

/// Calls `arrayfire::Dim4::new`. Its source copies the four given extents,
/// in order, into the new value; this is all that is claimed of it.
#[verifier::external_body]
fn dim4_new(dims: &[u64; 4]) -> (d: Dim4)
    ensures
        dim4_extents(d) == dims@,
{
    Dim4::new(dims)
}

/// A `Dim4` holding the four given extents.
pub fn array_to_dim4(dim4: [u64; 4]) -> (d: Dim4)
    ensures
        dim4_extents(d) == dim4@,
{
    dim4_new(&dim4)
}

/// The `Dim4` of a box of `size` cells per axis: `size` along the first
/// `dims` axes and 1 along the rest.
pub fn get_dim4(dims: Dimensions, size: usize) -> (d: Dim4)
    ensures
        dim4_extents(d).len() == 4,
        forall|a: int| 0 <= a < 4 ==> dim4_extents(d)[a] == #[trigger] extent(dims, size as nat, a),
        forall|a: int| 0 <= a < dims.rank() ==> #[trigger] dim4_extents(d)[a] == size,
        forall|a: int| dims.rank() <= a < 4 ==> #[trigger] dim4_extents(d)[a] == 1,
{
    let s: u64 = size as u64;
    let shape: [u64; 4] = match dims {
        Dimensions::One => [s, 1, 1, 1],
        Dimensions::Two => [s, s, 1, 1],
        Dimensions::Three => [s, s, s, 1],
    };
    dim4_new(&shape)
}

} // verus!
