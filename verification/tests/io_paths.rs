use msm::io::{array_to_tuple, grid_file_path, io_backlog_full, GridField, MAX_CONCURRENT_GRID_WRITES};

#[test]
fn tuple_of_shape() {
    assert_eq!(array_to_tuple([512, 512, 512, 1]), (512, 512, 512, 1));
    assert_eq!(array_to_tuple([3, 1, 1, 1]), (3, 1, 1, 1));
}

#[test]
fn psi_file_names() {
    assert_eq!(grid_file_path("my-sim", GridField::Psi, 7), "sim-data/my-sim/psi_00007");
    assert_eq!(grid_file_path("my-sim", GridField::Psi, 0), "sim-data/my-sim/psi_00000");
    assert_eq!(grid_file_path("cold-gauss", GridField::Potential, 12345), "sim-data/cold-gauss/potential_12345");
}

#[test]
fn file_names_grow_past_five_digits() {
    assert_eq!(grid_file_path("s", GridField::Psi, 123456), "sim-data/s/psi_123456");
    assert_eq!(grid_file_path("s", GridField::Psi, u32::MAX), "sim-data/s/psi_4294967295");
}

#[test]
fn file_names_match_format() {
    for i in [0u32, 1, 9, 10, 99, 100, 4567, 99999, 100000, 7654321] {
        assert_eq!(grid_file_path("x", GridField::Psi, i), format!("sim-data/x/psi_{:05}", i));
    }
}

#[test]
fn distinct_dumps_have_distinct_files() {
    let a = grid_file_path("run", GridField::Psi, 1);
    let b = grid_file_path("run", GridField::Psi, 10);
    let c = grid_file_path("run", GridField::Potential, 1);
    assert_ne!(a, b);
    assert_ne!(a, c);
}

#[test]
fn backlog_limit() {
    assert_eq!(MAX_CONCURRENT_GRID_WRITES, 16);
    assert!(!io_backlog_full(31));
    assert!(io_backlog_full(32));
    assert!(io_backlog_full(100));
}
