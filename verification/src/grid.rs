//! Dimensionality of the simulation box and the shapes derived from it.

use vstd::prelude::*;

verus! {

/// Number of spatial dimensions of the simulation box.
#[derive(Clone, Copy, Debug, PartialEq, Eq, Structural)]
pub enum Dimensions {
    One,
    Two,
    Three,
}

impl Dimensions {
    /// The number of axes as a natural number (1, 2 or 3).
    pub open spec fn rank(self) -> nat {
        match self {
            Dimensions::One => 1,
            Dimensions::Two => 2,
            Dimensions::Three => 3,
        }
    }

    /// The number of axes.
    pub fn as_usize(&self) -> (n: usize)
        ensures
            n == self.rank(),
    {
        match self {
            Dimensions::One => 1,
            Dimensions::Two => 2,
            Dimensions::Three => 3,
        }
    }

    /// The dimensionality with `n` axes, if `n` is 1, 2 or 3.
    pub fn from_usize(n: usize) -> (r: Option<Dimensions>)
        ensures
            r is Some <==> 1 <= n <= 3,
            r matches Some(d) ==> d.rank() == n,
    {
        if n == 1 {
            Some(Dimensions::One)
        } else if n == 2 {
            Some(Dimensions::Two)
        } else if n == 3 {
            Some(Dimensions::Three)
        } else {
            None
        }
    }
}

/// `b` raised to the natural power `e`.
pub open spec fn power(b: int, e: nat) -> int
    decreases e,
{
    if e == 0 {
        1
    } else {
        b * power(b, (e - 1) as nat)
    }
}

/// The extent of a box of `size` cells per axis along axis `axis` (0-based,
/// four axes as the array library lays them out): `size` on the first `dims`
/// axes, 1 on the others.
pub open spec fn extent(dims: Dimensions, size: nat, axis: int) -> int {
    if 0 <= axis < dims.rank() {
        size as int
    } else {
        1
    }
}

/// The four-axis shape of a box of `size` cells per axis.
pub open spec fn grid_shape(dims: Dimensions, size: nat) -> Seq<int> {
    seq![extent(dims, size, 0), extent(dims, size, 1), extent(dims, size, 2), extent(dims, size, 3)]
}

/// The shape of the grid as an array of four extents.
pub fn get_shape_array(dims: Dimensions, size: usize) -> (shape: [u64; 4])
    ensures
        forall|a: int| 0 <= a < 4 ==> shape@[a] == #[trigger] extent(dims, size as nat, a),
        forall|a: int| 0 <= a < dims.rank() ==> #[trigger] shape@[a] == size,
        forall|a: int| dims.rank() <= a < 4 ==> #[trigger] shape@[a] == 1,
{
    let s: u64 = size as u64;
    match dims {
        Dimensions::One => [s, 1, 1, 1],
        Dimensions::Two => [s, s, 1, 1],
        Dimensions::Three => [s, s, s, 1],
    }
}

/// The shape of the grid as a tuple of four extents.
pub fn get_shape(dims: Dimensions, size: usize) -> (shape: (u64, u64, u64, u64))
    ensures
        shape.0 == extent(dims, size as nat, 0),
        shape.1 == extent(dims, size as nat, 1),
        shape.2 == extent(dims, size as nat, 2),
        shape.3 == extent(dims, size as nat, 3),
        shape.0 == size,
        shape.1 == (if dims.rank() >= 2 { size as int } else { 1 }),
        shape.2 == (if dims.rank() >= 3 { size as int } else { 1 }),
        shape.3 == 1,
{
    let s: u64 = size as u64;
    match dims {
        Dimensions::One => (s, 1, 1, 1),
        Dimensions::Two => (s, s, 1, 1),
        Dimensions::Three => (s, s, s, 1),
    }
}

/// The number of cells of a box of `size` cells per axis, `size` to the power
/// of the number of axes; `None` where that number does not fit in a `usize`.
pub fn num_cells(dims: Dimensions, size: usize) -> (n: Option<usize>)
    ensures
        n is Some <==> power(size as int, dims.rank()) <= usize::MAX,
        n matches Some(c) ==> c == power(size as int, dims.rank()),
        n matches Some(c) ==> (dims == Dimensions::One ==> c == size) && (dims == Dimensions::Two
            ==> c == size * size) && (dims == Dimensions::Three ==> c == size * size * size),
        dims == Dimensions::One ==> n is Some,
{
    proof {
        lemma_power_small(size as int);
    }
    let rank: usize = dims.as_usize();
    let mut acc: usize = 1;
    let mut i: usize = 0;
    while i < rank
        invariant
            rank == dims.rank(),
            i <= rank,
            acc == power(size as int, i as nat),
        decreases rank - i,
    {
        assert(acc * size == size * acc) by (nonlinear_arith);
        match acc.checked_mul(size) {
            Some(next) => {
                acc = next;
                i = i + 1;
            },
            None => {
                proof {
                    assert(power(size as int, (i + 1) as nat) == size * acc);
                    lemma_power_grows(size as int, (i + 1) as nat, rank as nat);
                }
                return None;
            },
        }
    }
    Some(acc)
}

/// The first powers written out.
pub proof fn lemma_power_small(b: int)
    ensures
        power(b, 0) == 1,
        power(b, 1) == b,
        power(b, 2) == b * b,
        power(b, 3) == b * b * b,
{
    assert(power(b, 1) == b * power(b, 0));
    assert(power(b, 2) == b * power(b, 1));
    assert(power(b, 3) == b * power(b, 2));
    assert(b * (b * b) == b * b * b) by (nonlinear_arith);
}

/// Raising a positive base to a larger exponent gives a result at least as large;
/// a zero base gives zero for every positive exponent.
proof fn lemma_power_grows(b: int, e1: nat, e2: nat)
    requires
        b >= 0,
        1 <= e1 <= e2,
    ensures
        b > 0 ==> power(b, e1) <= power(b, e2),
        b == 0 ==> power(b, e1) == 0 && power(b, e2) == 0,
    decreases e2,
{
    if e2 > e1 {
        lemma_power_grows(b, e1, (e2 - 1) as nat);
        lemma_power_nonneg(b, (e2 - 1) as nat);
        if b > 0 {
            assert(power(b, (e2 - 1) as nat) <= b * power(b, (e2 - 1) as nat)) by (nonlinear_arith)
                requires
                    b > 0,
                    power(b, (e2 - 1) as nat) >= 0,
            ;
        }
    } else {
        if b == 0 {
            assert(power(b, e1) == 0);
        }
    }
}

/// Powers of a non-negative base are non-negative.
proof fn lemma_power_nonneg(b: int, e: nat)
    requires
        b >= 0,
    ensures
        power(b, e) >= 0,
    decreases e,
{
    if e > 0 {
        lemma_power_nonneg(b, (e - 1) as nat);
        assert(b * power(b, (e - 1) as nat) >= 0) by (nonlinear_arith)
            requires
                b >= 0,
                power(b, (e - 1) as nat) >= 0,
        ;
    }
}

/// A box with `rank` axes has `size` cells along each of the first `rank`
/// array axes and a single cell along the others: axis 0 always carries the
/// grid, axis 1 does in two and three dimensions, axis 2 only in three, and
/// axis 3 never.
pub proof fn lemma_extents_of_box(dims: Dimensions, size: nat)
    ensures
        forall|a: int| 0 <= a < 4 ==> #[trigger] extent(dims, size, a) == (if a < dims.rank() {
            size as int
        } else {
            1
        }),
        extent(dims, size, 0) == size,
        extent(dims, size, 1) == (if dims == Dimensions::One { 1 } else { size as int }),
        extent(dims, size, 2) == (if dims == Dimensions::Three { size as int } else { 1 }),
        extent(dims, size, 3) == 1,
        dims == Dimensions::Two ==> grid_shape(dims, size) == seq![size as int, size as int, 1int, 1int],
{
    if dims == Dimensions::Two {
        assert(grid_shape(dims, size) =~= seq![size as int, size as int, 1int, 1int]);
    }
}

/// The number of cells of the grid, `size` to the number of axes, is the
/// product of the four extents of its shape.
pub proof fn lemma_cells_of_shape(dims: Dimensions, size: nat)
    ensures
        grid_shape(dims, size)[0] * grid_shape(dims, size)[1] * grid_shape(dims, size)[2]
            * grid_shape(dims, size)[3] == power(size as int, dims.rank()),
{
    let s = size as int;
    assert(power(s, 0) == 1);
    assert(power(s, 1) == s);
    assert(power(s, 2) == s * s);
    assert(power(s, 3) == s * (s * s));
    assert(s * (s * s) == s * s * s) by (nonlinear_arith);
}

/// Parsing the number of axes back from a dimensionality gives the same
/// dimensionality, and a dimensionality is fixed by its number of axes.
pub proof fn lemma_dimensions_round_trip(d: Dimensions, e: Dimensions)
    ensures
        1 <= d.rank() <= 3,
        d.rank() == e.rank() ==> d == e,
{
}

} // verus!
