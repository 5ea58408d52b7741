use lps_core::{trilaterate_3d, PosSystem, PositioningError, Vector3};

#[test]
fn equilateral_anchor_positions() {
    // Sides of one unit of length, at 100000 grid units to the unit.
    let scale = 100_000.0f64;
    let frame = PosSystem::new(100_000, 100_000, 100_000);
    assert_eq!(frame.get_pos_anchor_1(), Vector3::new(0, 0, 0));
    assert_eq!(frame.get_pos_anchor_2(), Vector3::new(100_000, 0, 0));
    let third = frame.get_pos_anchor_3().unwrap();
    assert_eq!(third, Vector3::new(50_000, 86_603, 0));
    assert!((third.x as f64 / scale - 0.5).abs() < 1e-5);
    assert!((third.y as f64 / scale - 0.8660254).abs() < 1e-5);
    assert_eq!(third.z, 0);
}

#[test]
fn right_triangle_anchor_positions() {
    assert_eq!(PosSystem::new(4, 3, 5).get_pos_anchor_3(), Ok(Vector3::new(0, 3, 0)));
    assert_eq!(PosSystem::new(3, 4, 5).get_pos_anchor_3(), Ok(Vector3::new(0, 4, 0)));
    assert_eq!(PosSystem::new(5, 4, 3).get_pos_anchor_3(), Ok(Vector3::new(3, 2, 0)));
    assert_eq!(PosSystem::new(5, 3, 4).get_pos_anchor_3(), Ok(Vector3::new(2, 2, 0)));
}

#[test]
fn third_anchor_keeps_to_the_positive_quadrant_in_an_obtuse_triangle() {
    assert_eq!(PosSystem::new(3, 4, 6).get_pos_anchor_3(), Ok(Vector3::new(2, 4, 0)));
    assert_eq!(PosSystem::new(10, 7, 15).get_pos_anchor_3(), Ok(Vector3::new(4, 6, 0)));
}

#[test]
fn triangle_inequality_violation_is_invalid_geometry() {
    let frame = PosSystem::new(1, 1, 10);
    assert_eq!(frame.get_pos_anchor_3(), Err(PositioningError::InvalidGeometry));
    assert_eq!(frame.get_probe_position(), Err(PositioningError::InvalidGeometry));
    assert!(!frame.is_valid());
    assert_eq!(PosSystem::try_new(1, 1, 10).err(), Some(PositioningError::InvalidGeometry));
    assert_eq!(PosSystem::try_new(10, 1, 1).err(), Some(PositioningError::InvalidGeometry));
    assert_eq!(PosSystem::try_new(1, 10, 1).err(), Some(PositioningError::InvalidGeometry));
}

#[test]
fn flat_triangle_is_invalid_geometry() {
    assert_eq!(PosSystem::try_new(2, 1, 1).err(), Some(PositioningError::InvalidGeometry));
    assert_eq!(PosSystem::new(1, 2, 1).get_pos_anchor_3(), Err(PositioningError::InvalidGeometry));
    assert_eq!(PosSystem::new(1, 1, 2).get_pos_anchor_3(), Err(PositioningError::InvalidGeometry));
}

#[test]
fn non_positive_side_is_invalid_geometry() {
    assert_eq!(PosSystem::try_new(0, 1, 1).err(), Some(PositioningError::InvalidGeometry));
    assert_eq!(PosSystem::try_new(1, 0, 1).err(), Some(PositioningError::InvalidGeometry));
    assert_eq!(PosSystem::try_new(1, 1, 0).err(), Some(PositioningError::InvalidGeometry));
    assert_eq!(PosSystem::try_new(-3, 4, 5).err(), Some(PositioningError::InvalidGeometry));
    assert_eq!(PosSystem::new(0, 0, 0).get_pos_anchor_3(), Err(PositioningError::InvalidGeometry));
    assert_eq!(PosSystem::new(-3, -4, -5).get_probe_position(), Err(PositioningError::InvalidGeometry));
}

#[test]
fn new_takes_the_sides_as_they_are() {
    let frame = PosSystem::new(-7, 1, 1);
    assert_eq!(frame.get_pos_anchor_1(), Vector3::new(0, 0, 0));
    assert_eq!(frame.get_pos_anchor_2(), Vector3::new(-7, 0, 0));
}

#[test]
fn try_new_accepts_a_triangle() {
    let frame = PosSystem::try_new(4, 3, 5).unwrap();
    assert!(frame.is_valid());
    assert_eq!(frame.get_pos_anchor_1(), Vector3::new(0, 0, 0));
    assert_eq!(frame.get_pos_anchor_2(), Vector3::new(4, 0, 0));
    assert_eq!(frame.get_pos_anchor_3(), Ok(Vector3::new(0, 3, 0)));
}

#[test]
fn probe_distances_start_at_zero() {
    // All three ranges zero: the spheres are the anchors themselves.
    let frame = PosSystem::new(4, 3, 5);
    assert_eq!(frame.get_probe_position(), Err(PositioningError::NoSolution));
}

#[test]
fn unit_tetrahedron() {
    let mut frame = PosSystem::new(1000, 1000, 1000);
    frame.set_probe_distances(1000, 1000, 1000);
    assert_eq!(frame.get_pos_anchor_3(), Ok(Vector3::new(500, 866, 0)));
    assert_eq!(frame.get_probe_position(), Ok(Vector3::new(500, 289, 817)));
}

#[test]
fn unit_tetrahedron_on_a_fine_grid() {
    let scale = 100_000.0f64;
    let mut frame = PosSystem::new(100_000, 100_000, 100_000);
    frame.set_probe_distances(100_000, 100_000, 100_000);
    let apex = frame.get_probe_position().unwrap();
    assert_eq!(apex, Vector3::new(50_000, 28_868, 81_650));
    assert!((apex.x as f64 / scale - 0.5).abs() < 1e-4);
    assert!((apex.y as f64 / scale - 0.288675).abs() < 1e-4);
    assert!((apex.z as f64 / scale - 0.816497).abs() < 1e-4);
}

#[test]
fn probe_over_a_right_triangle() {
    let mut frame = PosSystem::new(40, 30, 50);
    frame.set_probe_distances(130, 130, 130);
    assert_eq!(frame.get_probe_position(), Ok(Vector3::new(20, 15, 128)));
}

#[test]
fn set_probe_distances_overwrites() {
    let mut frame = PosSystem::new(4, 3, 5);
    frame.set_probe_distances(13, 13, 13);
    assert_eq!(frame.get_probe_position(), Ok(Vector3::new(2, 2, 13)));
    frame.set_probe_distances(-1, 13, 13);
    assert_eq!(frame.get_probe_position(), Err(PositioningError::InvalidMeasurement));
    frame.set_probe_distances(13, 13, 13);
    assert_eq!(frame.get_probe_position(), Ok(Vector3::new(2, 2, 13)));
}

#[test]
fn negative_probe_distance_is_an_invalid_measurement() {
    let mut frame = PosSystem::new(1000, 1000, 1000);
    frame.set_probe_distances(1000, 1000, -1);
    assert_eq!(frame.get_probe_position(), Err(PositioningError::InvalidMeasurement));
}

#[test]
fn bad_frame_is_reported_before_a_bad_measurement() {
    let mut frame = PosSystem::new(1, 1, 10);
    frame.set_probe_distances(-1, -1, -1);
    assert_eq!(frame.get_probe_position(), Err(PositioningError::InvalidGeometry));
}

#[test]
fn nearly_flat_frame_rounds_to_a_usable_basis() {
    let mut frame = PosSystem::new(1000, 500, 501);
    assert_eq!(frame.get_pos_anchor_3(), Ok(Vector3::new(499, 22, 0)));
    frame.set_probe_distances(600, 600, 600);
    assert_eq!(frame.get_probe_position(), Err(PositioningError::NoSolution));
}

#[test]
fn thin_frames_keep_a_height_of_at_least_one_unit() {
    assert_eq!(PosSystem::new(1000, 501, 500).get_pos_anchor_3(), Ok(Vector3::new(501, 22, 0)));
    assert_eq!(PosSystem::new(3, 2, 2).get_pos_anchor_3(), Ok(Vector3::new(2, 1, 0)));
    assert_eq!(PosSystem::new(200, 100, 101).get_pos_anchor_3(), Ok(Vector3::new(99, 10, 0)));
    assert_eq!(
        PosSystem::new(500_000, 250_000, 250_001).get_pos_anchor_3(),
        Ok(Vector3::new(249_999, 500, 0))
    );
    assert_eq!(PosSystem::new(2, 1, 2).get_pos_anchor_3(), Ok(Vector3::new(0, 1, 0)));
}

#[test]
fn offset_moves_the_anchors() {
    let mut frame = PosSystem::new(4, 3, 5);
    frame.set_system_offset(Vector3::new(10, 20, 30));
    assert_eq!(frame.get_pos_anchor_1(), Vector3::new(10, 20, 30));
    assert_eq!(frame.get_pos_anchor_2(), Vector3::new(14, 20, 30));
    assert_eq!(frame.get_pos_anchor_3(), Ok(Vector3::new(10, 23, 30)));
}

#[test]
fn offset_is_applied_exactly_once() {
    let mut frame = PosSystem::new(1000, 1000, 1000);
    frame.set_probe_distances(1000, 1000, 1000);
    let home = frame.get_probe_position().unwrap();
    frame.set_system_offset(Vector3::new(10, 20, 30));
    let away = frame.get_probe_position().unwrap();
    assert_eq!(away, Vector3::new(510, 309, 847));
    assert_eq!(away, Vector3::new(home.x + 10, home.y + 20, home.z + 30));
}

#[test]
fn offset_keeps_the_ranges_and_the_sides() {
    let mut frame = PosSystem::new(40, 30, 50);
    frame.set_probe_distances(130, 130, 130);
    frame.set_system_offset(Vector3::new(-5, -5, -5));
    frame.set_system_offset(Vector3::new(0, 0, 0));
    assert_eq!(frame.get_probe_position(), Ok(Vector3::new(20, 15, 128)));
}

#[test]
fn frame_agrees_with_the_solver_on_its_own_anchors() {
    let mut frame = PosSystem::new(70_000, 90_000, 110_000);
    frame.set_system_offset(Vector3::new(1_000, -2_000, 3_000));
    frame.set_probe_distances(80_000, 75_000, 60_000);
    let a1 = frame.get_pos_anchor_1();
    let a2 = frame.get_pos_anchor_2();
    let a3 = frame.get_pos_anchor_3().unwrap();
    let direct = trilaterate_3d(
        [(a1.x, a1.y, a1.z), (a2.x, a2.y, a2.z), (a3.x, a3.y, a3.z)],
        [80_000, 75_000, 60_000],
    );
    assert_eq!(frame.get_probe_position(), direct);
    assert_eq!(direct, Ok(Vector3::new(41_536, 55_808, 40_618)));
}

#[test]
fn largest_frame() {
    let mut frame = PosSystem::new(500_000, 500_000, 500_000);
    frame.set_system_offset(Vector3::new(
        lps_core::MAX_COORDINATE,
        -lps_core::MAX_COORDINATE,
        lps_core::MAX_COORDINATE,
    ));
    frame.set_probe_distances(1_000_000, 1_000_000, 1_000_000);
    let third = frame.get_pos_anchor_3().unwrap();
    assert_eq!(third.x - lps_core::MAX_COORDINATE, 250_000);
    assert_eq!(third.y + lps_core::MAX_COORDINATE, 433_013);
    let probe = frame.get_probe_position().unwrap();
    assert_eq!(probe.x - lps_core::MAX_COORDINATE, 250_000);
    assert_eq!(probe.y + lps_core::MAX_COORDINATE, 144_338);
    assert_eq!(probe.z - lps_core::MAX_COORDINATE, 957_427);
}
