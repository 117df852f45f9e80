use worldgen::grid::{points_in_radius, world_to_grid, Coordinate};

#[test]
fn points_in_radius_zero_is_empty() {
    let pts = points_in_radius(0);
    assert!(pts.is_empty());
}

#[test]
fn points_in_radius_one_is_origin_only() {
    let pts = points_in_radius(1);
    assert_eq!(pts, vec![Coordinate { x: 0, y: 0 }]);
}

#[test]
fn points_in_radius_two_row_major() {
    // Every offset with x^2 + y^2 < 4, in row-major order.
    let pts = points_in_radius(2);
    let expected: Vec<Coordinate> = vec![
        Coordinate { x: -1, y: -1 },
        Coordinate { x: -1, y: 0 },
        Coordinate { x: -1, y: 1 },
        Coordinate { x: 0, y: -1 },
        Coordinate { x: 0, y: 0 },
        Coordinate { x: 0, y: 1 },
        Coordinate { x: 1, y: -1 },
        Coordinate { x: 1, y: 0 },
        Coordinate { x: 1, y: 1 },
    ];
    assert_eq!(pts, expected);
}

#[test]
fn points_in_radius_three_content() {
    let pts = points_in_radius(3);
    // Exactly the offsets with x^2 + y^2 < 9, each exactly once.
    for dx in -3i64..=3 {
        for dy in -3i64..=3 {
            let inside = dx * dx + dy * dy < 9;
            let count = pts
                .iter()
                .filter(|c| c.x as i64 == dx && c.y as i64 == dy)
                .count();
            assert_eq!(count, if inside { 1 } else { 0 });
        }
    }
    assert_eq!(pts.len(), 25);
}

#[test]
fn world_to_grid_rounds_half_away_from_zero() {
    assert_eq!(world_to_grid(0, 1000), 0);
    assert_eq!(world_to_grid(499, 1000), 0);
    assert_eq!(world_to_grid(500, 1000), 1);
    assert_eq!(world_to_grid(1499, 1000), 1);
    assert_eq!(world_to_grid(1500, 1000), 2);
    assert_eq!(world_to_grid(-499, 1000), 0);
    assert_eq!(world_to_grid(-500, 1000), -1);
    assert_eq!(world_to_grid(-1500, 1000), -2);
    assert_eq!(world_to_grid(2000, 1000), 2);
}

#[test]
fn world_to_grid_is_stable_near_boundaries() {
    // A player oscillating around a half-tile boundary always maps the same
    // position to the same cell.
    for _ in 0..3 {
        assert_eq!(world_to_grid(2500, 1000), 3);
        assert_eq!(world_to_grid(2499, 1000), 2);
    }
}
