use msm::af::{array_to_dim4, get_dim4};
use msm::grid::{get_shape, get_shape_array, num_cells, Dimensions};

#[test]
fn dim4_of_three_dimensional_grid() {
    let d = get_dim4(Dimensions::Three, 32);
    assert_eq!(d.get(), &[32, 32, 32, 1]);
    assert_eq!(d.elements(), 32 * 32 * 32);
}

#[test]
fn dim4_from_array() {
    let d = array_to_dim4([4, 5, 6, 7]);
    assert_eq!(d.get(), &[4, 5, 6, 7]);
}

#[test]
fn shapes_per_dimensionality() {
    assert_eq!(get_shape_array(Dimensions::One, 16), [16, 1, 1, 1]);
    assert_eq!(get_shape_array(Dimensions::Two, 16), [16, 16, 1, 1]);
    assert_eq!(get_shape(Dimensions::Three, 16), (16, 16, 16, 1));
}

#[test]
fn cell_counts() {
    assert_eq!(num_cells(Dimensions::Three, 512), Some(512 * 512 * 512));
    assert_eq!(num_cells(Dimensions::One, 0), Some(0));
    assert_eq!(num_cells(Dimensions::Three, 1 << 22), None);
}

#[test]
fn dimensions_round_trip() {
    for d in [Dimensions::One, Dimensions::Two, Dimensions::Three] {
        assert_eq!(Dimensions::from_usize(d.as_usize()), Some(d));
    }
    assert_eq!(Dimensions::Three.as_usize(), 3);
    assert_eq!(Dimensions::from_usize(0), None);
    assert_eq!(Dimensions::from_usize(4), None);
}

#[test]
fn shape_product_is_cell_count() {
    for d in [Dimensions::One, Dimensions::Two, Dimensions::Three] {
        let s = get_shape_array(d, 7);
        assert_eq!(Some((s[0] * s[1] * s[2] * s[3]) as usize), num_cells(d, 7));
        assert_eq!(get_dim4(d, 7).elements(), s[0] * s[1] * s[2] * s[3]);
    }
}

#[test]
fn cell_count_edge_of_usize() {
    assert_eq!(num_cells(Dimensions::Two, 1 << 16), Some(1 << 32));
    assert_eq!(num_cells(Dimensions::Two, usize::MAX), None);
    assert_eq!(num_cells(Dimensions::One, usize::MAX), Some(usize::MAX));
}
