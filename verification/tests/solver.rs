use lps_core::{trilaterate_3d, PositioningError, Vector3, MAX_COORDINATE, MAX_DISTANCE, MAX_SPAN};

fn squared_distance(a: (i64, i64, i64), b: Vector3) -> i64 {
    (a.0 - b.x) * (a.0 - b.x) + (a.1 - b.y) * (a.1 - b.y) + (a.2 - b.z) * (a.2 - b.z)
}

#[test]
fn recovers_a_point_above_the_first_anchor() {
    let anchors = [(0, 0, 0), (5, 0, 0), (0, 9, 0)];
    assert_eq!(trilaterate_3d(anchors, [12, 13, 15]), Ok(Vector3::new(0, 0, 12)));
}

#[test]
fn recovers_a_point_in_the_anchor_plane() {
    let anchors = [(0, 0, 0), (6, 0, 0), (0, 8, 0)];
    assert_eq!(trilaterate_3d(anchors, [5, 5, 5]), Ok(Vector3::new(3, 4, 0)));
}

#[test]
fn recovers_a_point_at_an_anchor() {
    let anchors = [(0, 0, 0), (1, 0, 0), (0, 1, 0)];
    assert_eq!(trilaterate_3d(anchors, [0, 1, 1]), Ok(Vector3::new(0, 0, 0)));
}

#[test]
fn round_trip_with_exact_ranges_is_exact() {
    // The ranges from (2, 3, 6) scaled by 7, 14 and 21 are whole numbers
    // only to the first anchor; the probe below has whole ranges to all.
    let anchors = [(10, 20, 30), (15, 20, 30), (10, 29, 30)];
    let probe = Vector3::new(10, 20, 42);
    let result = trilaterate_3d(anchors, [12, 13, 15]);
    assert_eq!(result, Ok(probe));
    for (anchor, range) in anchors.iter().zip([12i64, 13, 15]) {
        assert_eq!(squared_distance(*anchor, probe), range * range);
    }
}

#[test]
fn round_trip_with_rounded_ranges_stays_close() {
    let anchors = [(0, 0, 0), (100_000, 0, 0), (0, 100_000, 0)];
    // True ranges from (30000, 40000, 50000), each rounded to the grid.
    let result = trilaterate_3d(anchors, [70_711, 94_868, 83_666]);
    assert_eq!(result, Ok(Vector3::new(30_001, 40_000, 50_000)));
    let found = result.unwrap();
    let scale = 100_000.0f64;
    assert!((found.x as f64 / scale - 0.3).abs() < 1e-4);
    assert!((found.y as f64 / scale - 0.4).abs() < 1e-4);
    assert!((found.z as f64 / scale - 0.5).abs() < 1e-4);
}

#[test]
fn round_trip_in_a_skew_layout() {
    let anchors = [(7, -3, 11), (90_007, 12_345, -6_000), (-20_000, 80_000, 30_000)];
    // True ranges from (12345, 23456, 34567), each rounded to the grid.
    let result = trilaterate_3d(anchors, [43_551, 88_321, 65_301]);
    assert_eq!(result, Ok(Vector3::new(12_345, 23_456, 34_567)));
}

#[test]
fn takes_the_side_the_anchor_order_points_to() {
    let up = trilaterate_3d([(0, 0, 0), (5, 0, 0), (0, 9, 0)], [12, 13, 15]);
    let down = trilaterate_3d([(0, 0, 0), (0, 9, 0), (5, 0, 0)], [12, 15, 13]);
    assert_eq!(up, Ok(Vector3::new(0, 0, 12)));
    assert_eq!(down, Ok(Vector3::new(0, 0, -12)));
}

#[test]
fn rounds_each_coordinate_to_the_nearest_unit() {
    // The exact solution is (1/2, 1/2, sqrt(1/2)).
    let anchors = [(0, 0, 0), (1, 0, 0), (0, 1, 0)];
    assert_eq!(trilaterate_3d(anchors, [1, 1, 1]), Ok(Vector3::new(1, 1, 1)));
}

#[test]
fn inconsistent_ranges_have_no_solution() {
    // Anchors one unit apart, ranges of a hundredth: scaled by 100.
    let anchors = [(0, 0, 0), (100, 0, 0), (0, 100, 0)];
    assert_eq!(trilaterate_3d(anchors, [1, 1, 1]), Err(PositioningError::NoSolution));
}

#[test]
fn ranges_that_miss_by_a_hair_have_no_solution() {
    let anchors = [(0, 0, 0), (1, 0, 0), (0, 1, 0)];
    assert_eq!(trilaterate_3d(anchors, [1, 1, 0]), Err(PositioningError::NoSolution));
}

#[test]
fn colinear_anchors_are_degenerate() {
    let anchors = [(0, 0, 0), (1, 0, 0), (2, 0, 0)];
    assert_eq!(trilaterate_3d(anchors, [1, 1, 1]), Err(PositioningError::DegenerateBasis));
    let skew = [(1, 2, 3), (3, 5, 7), (-3, -4, -5)];
    assert_eq!(trilaterate_3d(skew, [10, 10, 10]), Err(PositioningError::DegenerateBasis));
}

#[test]
fn third_anchor_on_the_first_is_degenerate() {
    let anchors = [(4, 4, 4), (9, 4, 4), (4, 4, 4)];
    assert_eq!(trilaterate_3d(anchors, [1, 1, 1]), Err(PositioningError::DegenerateBasis));
}

#[test]
fn coincident_first_anchors_are_invalid_geometry() {
    let anchors = [(5, 5, 5), (5, 5, 5), (0, 100, 0)];
    assert_eq!(trilaterate_3d(anchors, [1, 1, 1]), Err(PositioningError::InvalidGeometry));
}

#[test]
fn negative_distance_is_an_invalid_measurement() {
    let anchors = [(0, 0, 0), (1, 0, 0), (0, 1, 0)];
    assert_eq!(trilaterate_3d(anchors, [1, -1, 1]), Err(PositioningError::InvalidMeasurement));
    assert_eq!(trilaterate_3d(anchors, [-1, 1, 1]), Err(PositioningError::InvalidMeasurement));
    assert_eq!(trilaterate_3d(anchors, [1, 1, i64::MIN]), Err(PositioningError::InvalidMeasurement));
}

#[test]
fn negative_distance_is_found_before_bad_geometry() {
    let same = [(5, 5, 5), (5, 5, 5), (5, 5, 5)];
    assert_eq!(trilaterate_3d(same, [1, 1, -1]), Err(PositioningError::InvalidMeasurement));
    let line = [(0, 0, 0), (1, 0, 0), (2, 0, 0)];
    assert_eq!(trilaterate_3d(line, [-5, 1, 1]), Err(PositioningError::InvalidMeasurement));
}

#[test]
fn coincident_anchors_are_found_before_colinear_ones() {
    let anchors = [(1, 1, 1), (1, 1, 1), (1, 1, 1)];
    assert_eq!(trilaterate_3d(anchors, [0, 0, 0]), Err(PositioningError::InvalidGeometry));
}

#[test]
fn shifting_the_anchors_shifts_the_result() {
    let shift = (100, -200, 300);
    let anchors = [(0, 0, 0), (5, 0, 0), (0, 9, 0)];
    let moved = [
        (anchors[0].0 + shift.0, anchors[0].1 + shift.1, anchors[0].2 + shift.2),
        (anchors[1].0 + shift.0, anchors[1].1 + shift.1, anchors[1].2 + shift.2),
        (anchors[2].0 + shift.0, anchors[2].1 + shift.1, anchors[2].2 + shift.2),
    ];
    let home = trilaterate_3d(anchors, [12, 13, 15]).unwrap();
    let away = trilaterate_3d(moved, [12, 13, 15]).unwrap();
    assert_eq!(away, Vector3::new(100, -200, 312));
    assert_eq!(away, Vector3::new(home.x + shift.0, home.y + shift.1, home.z + shift.2));
}

#[test]
fn shifting_the_anchors_keeps_the_failure() {
    let far = 1_000_000_000_000;
    let line = [(far, far, far), (far + 1, far, far), (far + 2, far, far)];
    assert_eq!(trilaterate_3d(line, [1, 1, 1]), Err(PositioningError::DegenerateBasis));
    let apart = [(far, 0, 0), (far + 100, 0, 0), (far, 100, 0)];
    assert_eq!(trilaterate_3d(apart, [1, 1, 1]), Err(PositioningError::NoSolution));
}

#[test]
fn shifting_rounded_results_is_exact_too() {
    let anchors = [(0, 0, 0), (100_000, 0, 0), (0, 100_000, 0)];
    let shift = 123_456_789;
    let moved = [(shift, shift, shift), (100_000 + shift, shift, shift), (shift, 100_000 + shift, shift)];
    let home = trilaterate_3d(anchors, [70_711, 94_868, 83_666]).unwrap();
    let away = trilaterate_3d(moved, [70_711, 94_868, 83_666]).unwrap();
    assert_eq!(away, Vector3::new(home.x + shift, home.y + shift, home.z + shift));
}

#[test]
fn works_at_the_largest_spans_and_distances() {
    let anchors = [(0, 0, 0), (MAX_SPAN, 0, 0), (0, MAX_SPAN, 0)];
    let ranges = [MAX_DISTANCE, MAX_DISTANCE, MAX_DISTANCE];
    assert_eq!(trilaterate_3d(anchors, ranges), Ok(Vector3::new(250_000, 250_000, 935_414)));
}

#[test]
fn works_at_the_largest_coordinates() {
    let anchors = [
        (MAX_COORDINATE, -MAX_COORDINATE, 0),
        (MAX_COORDINATE - MAX_SPAN, -MAX_COORDINATE + MAX_SPAN, MAX_SPAN),
        (MAX_COORDINATE - MAX_SPAN, -MAX_COORDINATE + MAX_SPAN, -MAX_SPAN),
    ];
    let result = trilaterate_3d(anchors, [MAX_DISTANCE, MAX_DISTANCE - 1, MAX_DISTANCE]);
    assert_eq!(
        result,
        Ok(Vector3::new(4_611_686_018_426_413_425, -4_611_686_018_427_612_382, 1))
    );
}

#[test]
fn result_is_within_the_first_range_of_the_first_anchor() {
    let anchors = [(7, -3, 11), (90_007, 12_345, -6_000), (-20_000, 80_000, 30_000)];
    let found = trilaterate_3d(anchors, [43_551, 88_321, 65_301]).unwrap();
    assert!((found.x - 7).abs() <= 43_551);
    assert!((found.y + 3).abs() <= 43_551);
    assert!((found.z - 11).abs() <= 43_551);
}

fn squared_ranges(anchors: [(i64, i64, i64); 3], p: Vector3) -> [i64; 3] {
    [
        squared_distance(anchors[0], p),
        squared_distance(anchors[1], p),
        squared_distance(anchors[2], p),
    ]
}

#[test]
fn every_grid_point_on_the_chosen_side_comes_back_from_its_squared_ranges() {
    let anchors = [(1, -2, 3), (8, 1, 2), (-3, 7, 5)];
    let u = (7, 3, -1);
    let v = (-4, 9, 2);
    let normal = (u.1 * v.2 - u.2 * v.1, u.2 * v.0 - u.0 * v.2, u.0 * v.1 - u.1 * v.0);
    let mut tried = 0;
    for x in -6..7 {
        for y in -6..7 {
            for z in -6..7 {
                let side = (x - 1) * normal.0 + (y + 2) * normal.1 + (z - 3) * normal.2;
                if side >= 0 {
                    let p = Vector3::new(x, y, z);
                    let result = lps_core::trilaterate_3d_squared(anchors, squared_ranges(anchors, p));
                    assert_eq!(result, Ok(p));
                    tried += 1;
                }
            }
        }
    }
    assert_eq!(tried, 518);
}

#[test]
fn grid_points_on_the_other_side_come_back_mirrored() {
    let anchors = [(0, 0, 0), (4, 0, 0), (0, 4, 0)];
    for x in -3..4 {
        for y in -3..4 {
            for z in 1..4 {
                let below = Vector3::new(x, y, -z);
                let result = lps_core::trilaterate_3d_squared(anchors, squared_ranges(anchors, below));
                assert_eq!(result, Ok(Vector3::new(x, y, z)));
            }
        }
    }
}

#[test]
fn squared_ranges_need_not_be_squares() {
    let anchors = [(0, 0, 0), (1, 0, 0), (0, 1, 0)];
    assert_eq!(lps_core::trilaterate_3d_squared(anchors, [2, 1, 1]), Ok(Vector3::new(1, 1, 0)));
    assert_eq!(lps_core::trilaterate_3d_squared(anchors, [3, 2, 2]), Ok(Vector3::new(1, 1, 1)));
}

#[test]
fn squared_ranges_agree_with_ranges() {
    let anchors = [(7, -3, 11), (90_007, 12_345, -6_000), (-20_000, 80_000, 30_000)];
    let ranges = [43_551i64, 88_321, 65_301];
    let squares = [ranges[0] * ranges[0], ranges[1] * ranges[1], ranges[2] * ranges[2]];
    assert_eq!(
        lps_core::trilaterate_3d_squared(anchors, squares),
        trilaterate_3d(anchors, ranges)
    );
}

#[test]
fn squared_ranges_fail_as_ranges_do() {
    let anchors = [(0, 0, 0), (3, 0, 0), (0, 3, 0)];
    assert_eq!(
        lps_core::trilaterate_3d_squared(anchors, [2, 5, -5]),
        Err(PositioningError::InvalidMeasurement)
    );
    assert_eq!(
        lps_core::trilaterate_3d_squared(anchors, [1, 1, 1]),
        Err(PositioningError::NoSolution)
    );
    assert_eq!(lps_core::trilaterate_3d_squared(anchors, [2, 5, 5]), Ok(Vector3::new(1, 1, 0)));
    let line = [(0, 0, 0), (1, 0, 0), (2, 0, 0)];
    assert_eq!(
        lps_core::trilaterate_3d_squared(line, [1, 1, 1]),
        Err(PositioningError::DegenerateBasis)
    );
    let same = [(1, 1, 1), (1, 1, 1), (2, 0, 0)];
    assert_eq!(
        lps_core::trilaterate_3d_squared(same, [1, 1, 1]),
        Err(PositioningError::InvalidGeometry)
    );
}

#[test]
fn largest_squared_ranges() {
    let anchors = [(0, 0, 0), (MAX_SPAN, 0, 0), (0, MAX_SPAN, 0)];
    let most = lps_core::MAX_SQUARED_DISTANCE;
    assert_eq!(
        lps_core::trilaterate_3d_squared(anchors, [most, most, most]),
        Ok(Vector3::new(250_000, 250_000, 935_414))
    );
}
