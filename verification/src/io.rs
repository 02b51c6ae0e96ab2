//! Shapes and file names for writing grids to disk.

use vstd::prelude::*;
use vstd::string::StringExecFns;

verus! {

/// Turns the four extents of an array shape into the tuple form that
/// reshaping a host array takes.
pub fn array_to_tuple(dim4: [u64; 4]) -> (t: (usize, usize, usize, usize))
    ensures
        t.0 == dim4[0] as usize,
        t.1 == dim4[1] as usize,
        t.2 == dim4[2] as usize,
        t.3 == dim4[3] as usize,
{
    (dim4[0] as usize, dim4[1] as usize, dim4[2] as usize, dim4[3] as usize)
}

/// Grids queued for writing at most (each grid is written as a real and an
/// imaginary part, so twice as many writes may be in flight).
pub const MAX_CONCURRENT_GRID_WRITES: usize = 16;

/// Whether a new dump has to wait until some of the `active` writes finish.
pub fn io_backlog_full(active: usize) -> (full: bool)
    ensures
        full == (active >= 2 * MAX_CONCURRENT_GRID_WRITES),
{
    active >= MAX_CONCURRENT_GRID_WRITES * 2
}

/// Width, in digits, of the dump number in a file name.
pub const DUMP_INDEX_WIDTH: usize = 5;

/// The decimal digits of `n`, most significant first, without leading zeros
/// (a single 0 for zero).
pub open spec fn decimal_digits(n: nat) -> Seq<int>
    decreases n,
{
    if n < 10 {
        seq![n as int]
    } else {
        decimal_digits(n / 10).push((n % 10) as int)
    }
}

/// The digits of `n`, with leading zeros up to `width` digits.
pub open spec fn padded_digits(n: nat, width: nat) -> Seq<int> {
    let ds = decimal_digits(n);
    if ds.len() < width {
        Seq::new((width - ds.len()) as nat, |i: int| 0int) + ds
    } else {
        ds
    }
}

/// The character of a decimal digit.
pub open spec fn digit_char(d: int) -> char {
    (48 + d) as char
}

/// `n` written in decimal with at least `width` digits, as `{:0width}` does.
pub open spec fn zero_padded(n: nat, width: nat) -> Seq<char> {
    padded_digits(n, width).map_values(|d: int| digit_char(d))
}

/// The number that a sequence of decimal digits denotes.
pub open spec fn digits_value(ds: Seq<int>) -> int
    decreases ds.len(),
{
    if ds.len() == 0 {
        0
    } else {
        digits_value(ds.drop_last()) * 10 + ds.last()
    }
}

/// The grid that a dump file holds.
#[derive(Clone, Copy, Debug, PartialEq, Eq, Structural)]
pub enum GridField {
    /// The wavefunction ψ.
    Psi,
    /// The gravitational potential φ.
    Potential,
}

impl GridField {
    /// The file name stem of the grid.
    pub open spec fn stem(self) -> Seq<char> {
        match self {
            GridField::Psi => seq!['p', 's', 'i'],
            GridField::Potential => seq!['p', 'o', 't', 'e', 'n', 't', 'i', 'a', 'l'],
        }
    }
}

/// The file, relative to the working directory, that dump `index` of `field`
/// of simulation `sim_name` is written to.
pub open spec fn spec_grid_file_path(sim_name: Seq<char>, field: GridField, index: nat) -> Seq<char> {
    seq!['s', 'i', 'm', '-', 'd', 'a', 't', 'a', '/'] + sim_name + seq!['/'] + field.stem() + seq!['_']
        + zero_padded(index, DUMP_INDEX_WIDTH as nat)
}

/// The one-character string of a decimal digit.
fn digit_str(d: u8) -> (s: &'static str)
    requires
        d < 10,
    ensures
        s@ == seq![digit_char(d as int)],
{
    proof {
        reveal_strlit("0");
        reveal_strlit("1");
        reveal_strlit("2");
        reveal_strlit("3");
        reveal_strlit("4");
        reveal_strlit("5");
        reveal_strlit("6");
        reveal_strlit("7");
        reveal_strlit("8");
        reveal_strlit("9");
    }
    match d {
        0 => "0",
        1 => "1",
        2 => "2",
        3 => "3",
        4 => "4",
        5 => "5",
        6 => "6",
        7 => "7",
        8 => "8",
        _ => "9",
    }
}

/// The decimal digits of `n` with leading zeros up to `width` digits.
fn padded_digit_vec(n: u32, width: usize) -> (ds: Vec<u8>)
    ensures
        ds@.len() == padded_digits(n as nat, width as nat).len(),
        forall|i: int| 0 <= i < ds@.len() ==> #[trigger] ds@[i] < 10,
        forall|i: int| 0 <= i < ds@.len() ==> ds@[i] as int == #[trigger] padded_digits(n as nat, width as nat)[i],
{
    let mut m: u32 = n;
    let mut tail: Vec<u8> = Vec::new();
    while m >= 10
        invariant
            decimal_digits(n as nat) == decimal_digits(m as nat) + tail@.map_values(|d: u8| d as int),
            forall|i: int| 0 <= i < tail@.len() ==> tail@[i] < 10,
        decreases m,
    {
        let ghost old_tail = tail@;
        tail.insert(0, (m % 10) as u8);
        proof {
            assert(tail@.map_values(|d: u8| d as int) =~= seq![(m % 10) as int] + old_tail.map_values(
                |d: u8| d as int,
            ));
            assert(decimal_digits(m as nat) == decimal_digits((m / 10) as nat).push((m % 10) as int));
            assert(decimal_digits((m / 10) as nat).push((m % 10) as int) + old_tail.map_values(|d: u8| d as int)
                =~= decimal_digits((m / 10) as nat) + tail@.map_values(|d: u8| d as int));
        }
        m = m / 10;
    }
    let ghost old_tail = tail@;
    tail.insert(0, m as u8);
    proof {
        assert(tail@.map_values(|d: u8| d as int) =~= decimal_digits(n as nat));
    }
    let len: usize = tail.len();
    let mut ds: Vec<u8> = Vec::new();
    if len < width {
        let pad: usize = width - len;
        let mut k: usize = 0;
        while k < pad
            invariant
                k <= pad,
                ds@.len() == k,
                forall|i: int| 0 <= i < k ==> ds@[i] == 0,
            decreases pad - k,
        {
            ds.push(0);
            k += 1;
        }
    }
    let start: usize = ds.len();
    let mut j: usize = 0;
    while j < len
        invariant
            len == tail@.len(),
            tail@.map_values(|d: u8| d as int) == decimal_digits(n as nat),
            forall|i: int| 0 <= i < tail@.len() ==> tail@[i] < 10,
            start == (if len < width { width - len } else { 0 }),
            ds@.len() == start + j,
            j <= len,
            forall|i: int| 0 <= i < start ==> ds@[i] == 0,
            forall|i: int| 0 <= i < j ==> ds@[start + i] == tail@[i],
        decreases len - j,
    {
        ds.push(tail[j]);
        j += 1;
    }
    proof {
        let dd = decimal_digits(n as nat);
        let pd = padded_digits(n as nat, width as nat);
        assert(dd.len() == len);
        if len < width {
            let zeros = Seq::new((width - len) as nat, |i: int| 0int);
            assert(pd == zeros + dd);
            assert forall|i: int| 0 <= i < ds@.len() implies ds@[i] as int == #[trigger] pd[i] by {
                if i >= start {
                    assert(pd[i] == dd[i - start]);
                    assert(dd[i - start] == tail@[i - start] as int);
                } else {
                    assert(pd[i] == zeros[i]);
                }
            }
        } else {
            assert(pd == dd);
            assert forall|i: int| 0 <= i < ds@.len() implies ds@[i] as int == #[trigger] pd[i] by {
                assert(dd[i - start] == tail@[i - start] as int);
            }
        }
        assert forall|i: int| 0 <= i < ds@.len() implies #[trigger] ds@[i] < 10 by {
            if i >= start {
                assert(ds@[i] == tail@[i - start]);
            }
        }
    }
    ds
}

/// The file that dump `index` of `field` of simulation `sim_name` is written
/// to: `sim-data/<sim_name>/<field>_<index>`, the index with at least five
/// digits.
pub fn grid_file_path(sim_name: &str, field: GridField, index: u32) -> (path: String)
    ensures
        path@ == spec_grid_file_path(sim_name@, field, index as nat),
        path@.len() > 10 + sim_name@.len(),
        path@.subrange(0, 9) == seq!['s', 'i', 'm', '-', 'd', 'a', 't', 'a', '/'],
        path@.subrange(9, 9 + sim_name@.len() as int) == sim_name@,
        path@[9 + sim_name@.len() as int] == '/',
{
    proof {
        reveal_strlit("sim-data/");
        reveal_strlit("/");
        reveal_strlit("psi");
        reveal_strlit("potential");
        reveal_strlit("_");
    }
    let mut path: String = String::from_str("sim-data/");
    path.append(sim_name);
    path.append("/");
    match field {
        GridField::Psi => path.append("psi"),
        GridField::Potential => path.append("potential"),
    }
    path.append("_");
    let ghost prefix = path@;
    let ds: Vec<u8> = padded_digit_vec(index, DUMP_INDEX_WIDTH);
    let mut i: usize = 0;
    while i < ds.len()
        invariant
            i <= ds@.len(),
            forall|k: int| 0 <= k < ds@.len() ==> ds@[k] < 10,
            path@ == prefix + ds@.take(i as int).map_values(|d: u8| digit_char(d as int)),
        decreases ds.len() - i,
    {
        path.append(digit_str(ds[i]));
        proof {
            assert(ds@.take((i + 1) as int).map_values(|d: u8| digit_char(d as int)) =~= ds@.take(
                i as int,
            ).map_values(|d: u8| digit_char(d as int)).push(digit_char(ds@[i as int] as int)));
        }
        i += 1;
    }
    proof {
        lemma_grid_file_path_layout(sim_name@, field, index as nat);
        assert(ds@.take(ds@.len() as int) == ds@);
        assert(ds@.map_values(|d: u8| digit_char(d as int)) =~= zero_padded(index as nat, DUMP_INDEX_WIDTH as nat));
    }
    path
}

/// Every decimal digit of `n` lies in 0..10.
proof fn lemma_decimal_digits_range(n: nat)
    ensures
        forall|i: int| 0 <= i < decimal_digits(n).len() ==> 0 <= #[trigger] decimal_digits(n)[i] < 10,
    decreases n,
{
    if n >= 10 {
        lemma_decimal_digits_range(n / 10);
        let ds = decimal_digits(n);
        assert(ds == decimal_digits(n / 10).push((n % 10) as int));
        assert forall|i: int| 0 <= i < ds.len() implies 0 <= #[trigger] ds[i] < 10 by {
            if i < ds.len() - 1 {
                assert(ds[i] == decimal_digits(n / 10)[i]);
            }
        }
    }
}

/// The decimal digits of `n` denote `n`.
proof fn lemma_decimal_digits_value(n: nat)
    ensures
        digits_value(decimal_digits(n)) == n,
    decreases n,
{
    if n < 10 {
        assert(decimal_digits(n).drop_last() =~= Seq::<int>::empty());
        assert(digits_value(Seq::<int>::empty()) == 0);
    } else {
        lemma_decimal_digits_value(n / 10);
        assert(decimal_digits(n).drop_last() =~= decimal_digits(n / 10));
        assert(decimal_digits(n).last() == n % 10);
        assert((n / 10) * 10 + n % 10 == n) by (nonlinear_arith);
    }
}

/// Leading zeros do not change the number that digits denote.
proof fn lemma_leading_zeros_value(k: nat, ds: Seq<int>)
    ensures
        digits_value(Seq::new(k, |i: int| 0int) + ds) == digits_value(ds),
    decreases ds.len(),
{
    let zeros = Seq::new(k, |i: int| 0int);
    if ds.len() == 0 {
        assert(zeros + ds =~= zeros);
        lemma_zeros_value(k);
    } else {
        lemma_leading_zeros_value(k, ds.drop_last());
        assert((zeros + ds).drop_last() =~= zeros + ds.drop_last());
    }
}

/// A run of zeros denotes zero.
proof fn lemma_zeros_value(k: nat)
    ensures
        digits_value(Seq::new(k, |i: int| 0int)) == 0,
    decreases k,
{
    if k > 0 {
        lemma_zeros_value((k - 1) as nat);
        assert(Seq::new(k, |i: int| 0int).drop_last() =~= Seq::new((k - 1) as nat, |i: int| 0int));
    }
}

/// The padded digits of `n` lie in 0..10 and denote `n`.
proof fn lemma_padded_digits(n: nat, width: nat)
    ensures
        digits_value(padded_digits(n, width)) == n,
        forall|i: int|
            0 <= i < padded_digits(n, width).len() ==> 0 <= #[trigger] padded_digits(n, width)[i] < 10,
{
    let ds = decimal_digits(n);
    lemma_decimal_digits_value(n);
    lemma_decimal_digits_range(n);
    if ds.len() < width {
        lemma_leading_zeros_value((width - ds.len()) as nat, ds);
        let pd = padded_digits(n, width);
        assert forall|i: int| 0 <= i < pd.len() implies 0 <= #[trigger] pd[i] < 10 by {
            if i >= width - ds.len() {
                assert(pd[i] == ds[i - (width - ds.len())]);
            }
        }
    }
}

/// Different numbers are written differently, whatever the padding width.
pub proof fn lemma_zero_padded_injective(a: nat, b: nat, width: nat)
    requires
        a != b,
    ensures
        zero_padded(a, width) != zero_padded(b, width),
{
    let pa = padded_digits(a, width);
    let pb = padded_digits(b, width);
    lemma_padded_digits(a, width);
    lemma_padded_digits(b, width);
    if zero_padded(a, width) == zero_padded(b, width) {
        assert(zero_padded(a, width).len() == pa.len());
        assert(zero_padded(b, width).len() == pb.len());
        assert forall|i: int| 0 <= i < pa.len() implies pa[i] == pb[i] by {
            assert(zero_padded(a, width)[i] == digit_char(pa[i]));
            assert(zero_padded(b, width)[i] == digit_char(pb[i]));
        }
        assert(pa =~= pb);
    }
}

/// The path of a dump file is `sim-data/`, then the whole simulation name,
/// then `/`, then the field's stem, `_` and the index with at least five
/// digits; no part of the simulation name is dropped.
pub proof fn lemma_grid_file_path_layout(sim_name: Seq<char>, field: GridField, index: nat)
    ensures
        spec_grid_file_path(sim_name, field, index).len() > 10 + sim_name.len() as int,
        spec_grid_file_path(sim_name, field, index).subrange(0, 9) == seq![
            's',
            'i',
            'm',
            '-',
            'd',
            'a',
            't',
            'a',
            '/',
        ],
        spec_grid_file_path(sim_name, field, index).subrange(9, 9 + sim_name.len() as int) == sim_name,
        spec_grid_file_path(sim_name, field, index)[9 + sim_name.len() as int] == '/',
        spec_grid_file_path(sim_name, field, index).subrange(10 + sim_name.len() as int, 10 + sim_name.len() as int
            + field.stem().len() as int) == field.stem(),
        spec_grid_file_path(sim_name, field, index).skip(11 + sim_name.len() as int + field.stem().len() as int)
            == zero_padded(index, DUMP_INDEX_WIDTH as nat),
{
    let p = spec_grid_file_path(sim_name, field, index);
    let head = seq!['s', 'i', 'm', '-', 'd', 'a', 't', 'a', '/'];
    let z = zero_padded(index, DUMP_INDEX_WIDTH as nat);
    assert(p == head + sim_name + seq!['/'] + field.stem() + seq!['_'] + z);
    assert(p.subrange(0, 9) =~= head);
    assert(p.subrange(9, 9 + sim_name.len() as int) =~= sim_name);
    assert(p.subrange(10 + sim_name.len() as int, 10 + sim_name.len() as int + field.stem().len() as int) =~= field.stem());
    assert(p.skip(11 + sim_name.len() as int + field.stem().len() as int) =~= z);
    assert(z.len() >= 1) by {
        assert(decimal_digits(index).len() >= 1) by {
            lemma_decimal_digits_nonempty(index);
        }
    }
}

/// Dump numbers below 100000 are written with exactly five digits, most
/// significant first: ten-thousands, thousands, hundreds, tens, units.
pub proof fn lemma_five_digit_index(n: nat)
    requires
        n < 100000,
    ensures
        zero_padded(n, 5) == seq![
            (48 + n / 10000) as char,
            (48 + (n / 1000) % 10) as char,
            (48 + (n / 100) % 10) as char,
            (48 + (n / 10) % 10) as char,
            (48 + n % 10) as char,
        ],
{
    let d = decimal_digits(n);
    let expected: Seq<int> = seq![
        (n / 10000) as int,
        ((n / 1000) % 10) as int,
        ((n / 100) % 10) as int,
        ((n / 10) % 10) as int,
        (n % 10) as int,
    ];
    let p = padded_digits(n, 5);
    if n < 10 {
        assert(d =~= seq![n as int]);
        assert(p =~= expected);
    } else if n < 100 {
        assert(decimal_digits(n / 10) =~= seq![(n / 10) as int]);
        assert(d =~= seq![(n / 10) as int, (n % 10) as int]);
        assert(p =~= expected);
    } else if n < 1000 {
        assert(decimal_digits(n / 100) =~= seq![(n / 100) as int]);
        assert((n / 10) / 10 == n / 100);
        assert(decimal_digits(n / 10) =~= seq![(n / 100) as int, ((n / 10) % 10) as int]);
        assert(d =~= seq![(n / 100) as int, ((n / 10) % 10) as int, (n % 10) as int]);
        assert(p =~= expected);
    } else if n < 10000 {
        assert(decimal_digits(n / 1000) =~= seq![(n / 1000) as int]);
        assert((n / 100) / 10 == n / 1000);
        assert((n / 10) / 10 == n / 100);
        assert(decimal_digits(n / 100) =~= seq![(n / 1000) as int, ((n / 100) % 10) as int]);
        assert(decimal_digits(n / 10) =~= seq![
            (n / 1000) as int,
            ((n / 100) % 10) as int,
            ((n / 10) % 10) as int,
        ]);
        assert(d =~= seq![
            (n / 1000) as int,
            ((n / 100) % 10) as int,
            ((n / 10) % 10) as int,
            (n % 10) as int,
        ]);
        assert(p =~= expected);
    } else {
        assert(decimal_digits(n / 10000) =~= seq![(n / 10000) as int]);
        assert((n / 1000) / 10 == n / 10000);
        assert((n / 100) / 10 == n / 1000);
        assert((n / 10) / 10 == n / 100);
        assert(decimal_digits(n / 1000) =~= seq![(n / 10000) as int, ((n / 1000) % 10) as int]);
        assert(decimal_digits(n / 100) =~= seq![
            (n / 10000) as int,
            ((n / 1000) % 10) as int,
            ((n / 100) % 10) as int,
        ]);
        assert(decimal_digits(n / 10) =~= seq![
            (n / 10000) as int,
            ((n / 1000) % 10) as int,
            ((n / 100) % 10) as int,
            ((n / 10) % 10) as int,
        ]);
        assert(d =~= expected);
        assert(p =~= expected);
    }
    assert(zero_padded(n, 5) =~= seq![
        (48 + n / 10000) as char,
        (48 + (n / 1000) % 10) as char,
        (48 + (n / 100) % 10) as char,
        (48 + (n / 10) % 10) as char,
        (48 + n % 10) as char,
    ]);
}

/// Every number has at least one decimal digit.
proof fn lemma_decimal_digits_nonempty(n: nat)
    ensures
        decimal_digits(n).len() >= 1,
    decreases n,
{
    if n >= 10 {
        lemma_decimal_digits_nonempty(n / 10);
    }
}

/// Two simulations with different names never write the same file for the
/// same field and dump.
pub proof fn lemma_grid_file_paths_separate_simulations(
    n1: Seq<char>,
    n2: Seq<char>,
    field: GridField,
    index: nat,
)
    requires
        n1 != n2,
    ensures
        spec_grid_file_path(n1, field, index) != spec_grid_file_path(n2, field, index),
{
    let p1 = spec_grid_file_path(n1, field, index);
    let p2 = spec_grid_file_path(n2, field, index);
    let tail = seq!['/'] + field.stem() + seq!['_'] + zero_padded(index, DUMP_INDEX_WIDTH as nat);
    let head = seq!['s', 'i', 'm', '-', 'd', 'a', 't', 'a', '/'];
    assert(p1 =~= head + n1 + tail);
    assert(p2 =~= head + n2 + tail);
    if p1 == p2 {
        assert(n1.len() == n2.len());
        assert(p1.subrange(9, 9 + n1.len() as int) =~= n1);
        assert(p2.subrange(9, 9 + n2.len() as int) =~= n2);
    }
}

/// Each dump of a simulation writes a file of its own: the files of two
/// different dumps of the same field differ, and so do the files of the two
/// fields.
pub proof fn lemma_grid_file_paths_distinct(
    sim_name: Seq<char>,
    f1: GridField,
    i1: nat,
    f2: GridField,
    i2: nat,
)
    requires
        f1 != f2 || i1 != i2,
    ensures
        spec_grid_file_path(sim_name, f1, i1) != spec_grid_file_path(sim_name, f2, i2),
{
    let head = seq!['s', 'i', 'm', '-', 'd', 'a', 't', 'a', '/'] + sim_name + seq!['/'];
    let p1 = spec_grid_file_path(sim_name, f1, i1);
    let p2 = spec_grid_file_path(sim_name, f2, i2);
    assert(p1 =~= head + (f1.stem() + seq!['_'] + zero_padded(i1, DUMP_INDEX_WIDTH as nat)));
    assert(p2 =~= head + (f2.stem() + seq!['_'] + zero_padded(i2, DUMP_INDEX_WIDTH as nat)));
    if p1 == p2 {
        let t1 = f1.stem() + seq!['_'] + zero_padded(i1, DUMP_INDEX_WIDTH as nat);
        let t2 = f2.stem() + seq!['_'] + zero_padded(i2, DUMP_INDEX_WIDTH as nat);
        assert(p1.skip(head.len() as int) =~= t1);
        assert(p2.skip(head.len() as int) =~= t2);
        assert(t1 == t2);
        lemma_padded_digits(i1, DUMP_INDEX_WIDTH as nat);
        lemma_padded_digits(i2, DUMP_INDEX_WIDTH as nat);
        if f1 == f2 {
            let k: int = f1.stem().len() as int + 1;
            assert(t1.skip(k) =~= zero_padded(i1, DUMP_INDEX_WIDTH as nat));
            assert(t2.skip(k) =~= zero_padded(i2, DUMP_INDEX_WIDTH as nat));
            lemma_zero_padded_injective(i1, i2, DUMP_INDEX_WIDTH as nat);
        } else {
            // "psi_..." and "potential_..." differ in their second character.
            assert(t1[1] != t2[1]);
        }
    }
}

} // verus!
