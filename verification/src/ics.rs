//! Initial conditions: the choice of quantum sampling scheme, the layout of
//! separable (per-axis) initial fields and the checks on user-supplied fields.

use vstd::prelude::*;

use crate::grid::{extent, Dimensions};

verus! {

/// How quantum noise is sampled onto a classical initial field.
#[derive(Clone, Copy, Debug, PartialEq, Eq, Structural)]
pub enum SamplingScheme {
    Poisson,
    Wigner,
    Husimi,
}

/// The seed that a random-number engine is started with: the given one, or 0.
pub fn seed_or_default(seed: Option<u64>) -> (s: u64)
    ensures
        s == (match seed {
            Some(v) => v,
            None => 0,
        }),
{
    match seed {
        Some(v) => v,
        None => 0,
    }
}

/// The extent along array axis `a` of the per-axis factor for axis `axis` of
/// a separable field: `size` along `axis` itself when the box has that axis,
/// 1 everywhere else (a factor for an axis that the box lacks is the constant
/// 1 held in a single cell).
pub open spec fn factor_extent(axis: int, dims: Dimensions, size: nat, a: int) -> int {
    if a == axis && axis < dims.rank() {
        size as int
    } else {
        1
    }
}

/// Whether the box has axis `axis` (0-based), so that a separable field has a
/// proper factor along it.
pub fn has_axis(axis: usize, dims: Dimensions) -> (b: bool)
    ensures
        b == (axis < dims.rank()),
{
    axis < dims.as_usize()
}

/// The four-axis shape of the per-axis factor for axis `axis` (0, 1 or 2) of a
/// separable field on a box of `size` cells per axis.
pub fn factor_shape(axis: usize, dims: Dimensions, size: usize) -> (shape: [u64; 4])
    requires
        axis < 3,
    ensures
        forall|a: int| 0 <= a < 4 ==> shape@[a] == #[trigger] factor_extent(axis as int, dims, size as nat, a),
        axis < dims.rank() ==> shape@[axis as int] == size,
        forall|a: int| 0 <= a < 4 && a != axis ==> #[trigger] shape@[a] == 1,
        axis >= dims.rank() ==> shape@[axis as int] == 1,
{
    let mut shape: [u64; 4] = [1, 1, 1, 1];
    if has_axis(axis, dims) {
        shape[axis] = size as u64;
    }
    shape
}

/// The larger of two extents, the extent of an element-wise product of two
/// arrays broadcast against each other.
pub open spec fn max_extent(a: int, b: int) -> int {
    if a >= b {
        a
    } else {
        b
    }
}

/// The factor for axis `axis` of a separable field lies along array axis
/// `axis` itself, with the grid's extent there, and has a single cell along
/// every other array axis; for an axis that the box lacks it is a single cell.
/// So in two dimensions the x factor runs along array axis 0 and the y factor
/// along array axis 1, as the grid does.
pub proof fn lemma_factor_lies_on_its_axis(axis: int, dims: Dimensions, size: nat)
    requires
        0 <= axis < 3,
    ensures
        forall|a: int|
            0 <= a < 4 ==> #[trigger] factor_extent(axis, dims, size, a) == (if a == axis && axis
                < dims.rank() {
                size as int
            } else {
                1
            }),
        axis < dims.rank() ==> factor_extent(axis, dims, size, axis) == extent(dims, size, axis),
        forall|a: int| 0 <= a < 4 && a != axis ==> #[trigger] factor_extent(axis, dims, size, a) == 1,
        dims == Dimensions::Two ==> factor_extent(0, dims, size, 0) == size && factor_extent(
            0,
            dims,
            size,
            1,
        ) == 1 && factor_extent(1, dims, size, 1) == size && factor_extent(1, dims, size, 0) == 1,
{
}

/// Multiplying the three per-axis factors of a separable field, each
/// broadcast along the axes where it has extent 1, gives a field with the
/// shape of the whole grid.
pub proof fn lemma_factors_span_grid(dims: Dimensions, size: nat)
    requires
        size >= 1,
    ensures
        forall|a: int|
            0 <= a < 4 ==> max_extent(
                max_extent(factor_extent(0, dims, size, a), factor_extent(1, dims, size, a)),
                factor_extent(2, dims, size, a),
            ) == #[trigger] extent(dims, size, a),
{
}

/// Why the shape of a user-supplied field cannot be used.
#[derive(Clone, Copy, Debug, PartialEq, Eq, Structural)]
pub enum UserGridError {
    /// The field does not have 1, 2 or 3 axes.
    InvalidDimensions,
    /// The axes of the field do not all have the same length.
    NonUniform,
}

/// Whether every axis of `shape` has the length of the first.
pub open spec fn is_uniform(shape: Seq<usize>) -> bool {
    forall|d: int| 0 <= d < shape.len() ==> #[trigger] shape[d] == shape[0]
}

/// The dimensionality and the number of cells per axis of a user-supplied
/// field with the given shape (one length per axis).
pub fn user_grid(shape: &Vec<usize>) -> (r: Result<(Dimensions, usize), UserGridError>)
    ensures
        r == Err::<(Dimensions, usize), UserGridError>(UserGridError::InvalidDimensions) <==> !(1
            <= shape.len() <= 3),
        r == Err::<(Dimensions, usize), UserGridError>(UserGridError::NonUniform) <==> (1
            <= shape.len() <= 3 && !is_uniform(shape@)),
        r is Ok <==> (1 <= shape.len() <= 3 && is_uniform(shape@)),
        r matches Ok((d, s)) ==> d.rank() == shape.len() && s == shape[0],
        r is Ok ==> forall|d: int| 0 <= d < shape.len() ==> #[trigger] shape[d] == shape[0],
        (1 <= shape.len() <= 3 && forall|d: int| 0 <= d < shape.len() ==> #[trigger] shape[d]
            == shape[0]) ==> r is Ok,
{
    let dims: Dimensions = match Dimensions::from_usize(shape.len()) {
        Some(d) => d,
        None => {
            return Err(UserGridError::InvalidDimensions);
        },
    };
    let first: usize = shape[0];
    let mut d: usize = 1;
    while d < shape.len()
        invariant
            1 <= d <= shape.len(),
            shape.len() <= 3,
            dims.rank() == shape.len(),
            first == shape@[0],
            forall|e: int| 0 <= e < d ==> #[trigger] shape@[e] == first,
        decreases shape.len() - d,
    {
        if shape[d] != first {
            assert(!is_uniform(shape@)) by {
                assert(shape@[d as int] != shape@[0]);
            }
            return Err(UserGridError::NonUniform);
        }
        d += 1;
    }
    Ok((dims, first))
}

/// What adopting the grid of a user-supplied field changed.
#[derive(Clone, Copy, Debug, PartialEq, Eq, Structural)]
pub struct GridAdjustment {
    /// The configured dimensionality differed from the field's.
    pub dims_changed: bool,
    /// The configured number of cells per axis differed from the field's.
    pub size_changed: bool,
}

/// Makes the configured grid that of the user-supplied field, and reports
/// which of the two settings differed.
pub fn adopt_user_grid(
    param_dims: &mut Dimensions,
    param_size: &mut usize,
    dims: Dimensions,
    size: usize,
) -> (adj: GridAdjustment)
    ensures
        *final(param_dims) == dims,
        *final(param_size) == size,
        adj.dims_changed == (*old(param_dims) != dims),
        adj.size_changed == (*old(param_size) != size),
{
    let dims_changed: bool = *param_dims != dims;
    let size_changed: bool = *param_size != size;
    *param_dims = dims;
    *param_size = size;
    GridAdjustment { dims_changed, size_changed }
}

/// The cell-by-cell pairs of two sequences, as long as the shorter one.
pub open spec fn paired<T>(a: Seq<T>, b: Seq<T>) -> Seq<(T, T)> {
    Seq::new(if a.len() <= b.len() { a.len() } else { b.len() }, |i: int| (a[i], b[i]))
}

/// The first components of a sequence of pairs.
pub open spec fn firsts<T>(p: Seq<(T, T)>) -> Seq<T> {
    p.map_values(|x: (T, T)| x.0)
}

/// The second components of a sequence of pairs.
pub open spec fn seconds<T>(p: Seq<(T, T)>) -> Seq<T> {
    p.map_values(|x: (T, T)| x.1)
}

/// Cell `i` of the paired field holds the real part's cell `i` first and the
/// imaginary part's cell `i` second; the paired field is as long as the
/// shorter part. Splitting takes the first components as the real part and
/// the second as the imaginary part, cell by cell.
pub proof fn lemma_pairing_cells<T>(a: Seq<T>, b: Seq<T>, p: Seq<(T, T)>)
    ensures
        paired(a, b).len() == (if a.len() <= b.len() { a.len() } else { b.len() }),
        forall|i: int| 0 <= i < paired(a, b).len() ==> #[trigger] paired(a, b)[i] == (a[i], b[i]),
        firsts(p).len() == p.len(),
        seconds(p).len() == p.len(),
        forall|i: int| 0 <= i < p.len() ==> #[trigger] firsts(p)[i] == p[i].0,
        forall|i: int| 0 <= i < p.len() ==> #[trigger] seconds(p)[i] == p[i].1,
{
}

/// A shape is uniform exactly when every axis, whichever its position, has
/// the length of the first; a shape with two axes of different lengths is
/// not uniform.
pub proof fn lemma_uniform_means_all_axes_equal(shape: Seq<usize>)
    ensures
        is_uniform(shape) <==> (forall|d: int| 0 <= d < shape.len() ==> #[trigger] shape[d] == shape[0]),
        forall|d: int, e: int|
            0 <= d < shape.len() && 0 <= e < shape.len() && #[trigger] shape[d] != #[trigger] shape[e]
                ==> !is_uniform(shape),
{
}

/// Pairs the real and the imaginary parts of a field cell by cell; where one
/// part is longer, its surplus is left out.
pub fn pair_parts<T: Copy>(re_part: &Vec<T>, im_part: &Vec<T>) -> (pairs: Vec<(T, T)>)
    ensures
        pairs@ == paired(re_part@, im_part@),
        pairs.len() == (if re_part.len() <= im_part.len() { re_part.len() } else { im_part.len() }),
        forall|i: int| 0 <= i < pairs.len() ==> #[trigger] pairs[i] == (re_part[i], im_part[i]),
{
    let n: usize = if re_part.len() <= im_part.len() { re_part.len() } else { im_part.len() };
    let mut pairs: Vec<(T, T)> = Vec::with_capacity(n);
    let mut i: usize = 0;
    while i < n
        invariant
            n <= re_part.len(),
            n <= im_part.len(),
            n == (if re_part.len() <= im_part.len() { re_part.len() } else { im_part.len() }),
            i <= n,
            pairs.len() == i,
            forall|j: int| 0 <= j < i ==> #[trigger] pairs[j] == (re_part[j], im_part[j]),
        decreases n - i,
    {
        pairs.push((re_part[i], im_part[i]));
        i += 1;
    }
    assert(pairs@ =~= paired(re_part@, im_part@));
    pairs
}

/// Splits a field, cell by cell, into its real and its imaginary parts.
pub fn split_parts<T: Copy>(pairs: &Vec<(T, T)>) -> (parts: (Vec<T>, Vec<T>))
    ensures
        parts.0@ == firsts(pairs@),
        parts.1@ == seconds(pairs@),
        parts.0.len() == pairs.len(),
        parts.1.len() == pairs.len(),
        forall|i: int| 0 <= i < pairs.len() ==> #[trigger] parts.0[i] == pairs[i].0,
        forall|i: int| 0 <= i < pairs.len() ==> #[trigger] parts.1[i] == pairs[i].1,
{
    let mut re_part: Vec<T> = Vec::with_capacity(pairs.len());
    let mut im_part: Vec<T> = Vec::with_capacity(pairs.len());
    let mut i: usize = 0;
    while i < pairs.len()
        invariant
            i <= pairs.len(),
            re_part.len() == i,
            im_part.len() == i,
            forall|j: int| 0 <= j < i ==> #[trigger] re_part[j] == pairs[j].0,
            forall|j: int| 0 <= j < i ==> #[trigger] im_part[j] == pairs[j].1,
        decreases pairs.len() - i,
    {
        let (re, im) = pairs[i];
        re_part.push(re);
        im_part.push(im);
        i += 1;
    }
    assert(re_part@ =~= firsts(pairs@));
    assert(im_part@ =~= seconds(pairs@));
    (re_part, im_part)
}

/// Splitting a field into its parts and pairing them again gives the field
/// back; pairing two parts of equal length and splitting the result gives
/// the parts back.
pub proof fn lemma_split_pair_round_trip<T>(p: Seq<(T, T)>, a: Seq<T>, b: Seq<T>)
    ensures
        paired(firsts(p), seconds(p)) == p,
        a.len() == b.len() ==> firsts(paired(a, b)) == a && seconds(paired(a, b)) == b,
{
    assert(paired(firsts(p), seconds(p)) =~= p);
    if a.len() == b.len() {
        assert(firsts(paired(a, b)) =~= a);
        assert(seconds(paired(a, b)) =~= b);
    }
}

} // verus!
