use msm::grid::Dimensions;
use msm::ics::{
    adopt_user_grid, factor_shape, has_axis, pair_parts, seed_or_default, split_parts, user_grid,
    GridAdjustment, SamplingScheme, UserGridError,
};

#[test]
fn seeds() {
    assert_eq!(seed_or_default(Some(42)), 42);
    assert_eq!(seed_or_default(None), 0);
}

#[test]
fn sampling_schemes_are_distinct() {
    assert_ne!(SamplingScheme::Poisson, SamplingScheme::Wigner);
    assert_ne!(SamplingScheme::Wigner, SamplingScheme::Husimi);
}

#[test]
fn separable_factor_shapes() {
    assert_eq!(factor_shape(0, Dimensions::Three, 8), [8, 1, 1, 1]);
    assert_eq!(factor_shape(1, Dimensions::Three, 8), [1, 8, 1, 1]);
    assert_eq!(factor_shape(2, Dimensions::Three, 8), [1, 1, 8, 1]);
    assert_eq!(factor_shape(1, Dimensions::One, 8), [1, 1, 1, 1]);
    assert_eq!(factor_shape(2, Dimensions::Two, 8), [1, 1, 1, 1]);
    assert!(has_axis(1, Dimensions::Two));
    assert!(!has_axis(2, Dimensions::Two));
}

#[test]
fn factors_span_the_grid() {
    for d in [Dimensions::One, Dimensions::Two, Dimensions::Three] {
        let f: Vec<[u64; 4]> = (0..3).map(|a| factor_shape(a, d, 5)).collect();
        let combined: Vec<u64> = (0..4).map(|k| f[0][k].max(f[1][k]).max(f[2][k])).collect();
        assert_eq!(combined, msm::grid::get_shape_array(d, 5).to_vec());
    }
}

#[test]
fn user_grids() {
    assert_eq!(user_grid(&vec![64, 64, 64]), Ok((Dimensions::Three, 64)));
    assert_eq!(user_grid(&vec![16]), Ok((Dimensions::One, 16)));
    assert_eq!(user_grid(&vec![16, 16]), Ok((Dimensions::Two, 16)));
    assert_eq!(user_grid(&vec![64, 32, 64]), Err(UserGridError::NonUniform));
    assert_eq!(user_grid(&vec![]), Err(UserGridError::InvalidDimensions));
    assert_eq!(user_grid(&vec![4, 4, 4, 4]), Err(UserGridError::InvalidDimensions));
}

#[test]
fn adopting_user_grid() {
    let mut dims = Dimensions::Three;
    let mut size = 512usize;
    let adj = adopt_user_grid(&mut dims, &mut size, Dimensions::Two, 512);
    assert_eq!(adj, GridAdjustment { dims_changed: true, size_changed: false });
    assert_eq!((dims, size), (Dimensions::Two, 512));
    let adj = adopt_user_grid(&mut dims, &mut size, Dimensions::Two, 64);
    assert_eq!(adj, GridAdjustment { dims_changed: false, size_changed: true });
    assert_eq!(size, 64);
}

#[test]
fn pairing_parts() {
    let re = vec![1.0f64, 2.0, 3.0];
    let im = vec![-1.0f64, -2.0];
    assert_eq!(pair_parts(&re, &im), vec![(1.0, -1.0), (2.0, -2.0)]);
}

#[test]
fn split_then_pair_round_trip() {
    let field = vec![(1.5f32, 0.5f32), (2.0, -1.0), (0.0, 3.25)];
    let (re, im) = split_parts(&field);
    assert_eq!(re, vec![1.5, 2.0, 0.0]);
    assert_eq!(im, vec![0.5, -1.0, 3.25]);
    assert_eq!(pair_parts(&re, &im), field);
}
