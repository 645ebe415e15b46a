use led_roulette::compass::{coarsen, compass_frame, needle_cell};

fn frame_with(cells: &[(usize, usize)]) -> [[u8; 5]; 5] {
    let mut out = [[0u8; 5]; 5];
    for (r, c) in cells {
        out[*r][*c] = 1;
    }
    out
}

#[test]
fn coarsen_rounds_towards_zero() {
    assert_eq!(coarsen(0), 0);
    assert_eq!(coarsen(499), 0);
    assert_eq!(coarsen(500), 1);
    assert_eq!(coarsen(999), 1);
    assert_eq!(coarsen(2500), 5);
    assert_eq!(coarsen(-1), 0);
    assert_eq!(coarsen(-499), 0);
    assert_eq!(coarsen(-500), -1);
    assert_eq!(coarsen(-750), -1);
    assert_eq!(coarsen(-1000), -2);
    assert_eq!(coarsen(i32::MAX), 4294967);
    assert_eq!(coarsen(i32::MIN), -4294967);
}

#[test]
fn no_field_points_at_the_centre() {
    assert_eq!(needle_cell(0, 0), (2, 2));
    assert_eq!(needle_cell(499, -499), (2, 2));
    assert_eq!(needle_cell(-499, 499), (2, 2));
}

#[test]
fn a_field_along_an_axis_points_at_the_middle_of_an_edge() {
    assert_eq!(needle_cell(0, 500), (0, 2));
    assert_eq!(needle_cell(499, 60000), (0, 2));
    assert_eq!(needle_cell(0, -500), (4, 2));
    assert_eq!(needle_cell(-499, -60000), (4, 2));
    assert_eq!(needle_cell(-500, 0), (2, 4));
    assert_eq!(needle_cell(-60000, 499), (2, 4));
    assert_eq!(needle_cell(500, 0), (2, 0));
    assert_eq!(needle_cell(60000, -499), (2, 0));
}

#[test]
fn the_northern_half_puts_a_near_x_first() {
    assert_eq!(needle_cell(500, 500), (0, 1));
    assert_eq!(needle_cell(2499, 500), (0, 1));
    assert_eq!(needle_cell(2499, 60000), (0, 1));
    assert_eq!(needle_cell(-500, 500), (0, 3));
    assert_eq!(needle_cell(-2499, 500), (0, 3));
    assert_eq!(needle_cell(-2499, 60000), (0, 3));
    assert_eq!(needle_cell(2500, 500), (1, 0));
    assert_eq!(needle_cell(60000, 2499), (1, 0));
    assert_eq!(needle_cell(-2500, 500), (1, 4));
    assert_eq!(needle_cell(-60000, 2499), (1, 4));
}

#[test]
fn the_south_east_puts_a_near_x_first() {
    assert_eq!(needle_cell(500, -500), (4, 1));
    assert_eq!(needle_cell(2499, -500), (4, 1));
    assert_eq!(needle_cell(500, -60000), (4, 1));
    assert_eq!(needle_cell(2500, -500), (3, 0));
    assert_eq!(needle_cell(60000, -2499), (3, 0));
}

#[test]
fn the_south_west_puts_a_near_y_first() {
    assert_eq!(needle_cell(-500, -500), (3, 4));
    assert_eq!(needle_cell(-60000, -500), (3, 4));
    assert_eq!(needle_cell(-500, -2499), (3, 4));
    assert_eq!(needle_cell(-500, -2500), (4, 3));
    assert_eq!(needle_cell(-2499, -60000), (4, 3));
}

#[test]
fn a_field_far_from_both_axes_points_at_a_corner() {
    assert_eq!(needle_cell(2500, 2500), (0, 0));
    assert_eq!(needle_cell(-2500, 2500), (0, 4));
    assert_eq!(needle_cell(-2500, -2500), (4, 4));
    assert_eq!(needle_cell(2500, -2500), (4, 0));
    assert_eq!(needle_cell(i32::MAX, i32::MAX), (0, 0));
    assert_eq!(needle_cell(i32::MIN, i32::MAX), (0, 4));
    assert_eq!(needle_cell(i32::MIN, i32::MIN), (4, 4));
    assert_eq!(needle_cell(i32::MAX, i32::MIN), (4, 0));
}

#[test]
fn the_frame_shows_the_centre_and_the_needle() {
    assert_eq!(compass_frame(0, 0), frame_with(&[(2, 2)]));
    assert_eq!(compass_frame(0, 500), frame_with(&[(2, 2), (0, 2)]));
    assert_eq!(compass_frame(2500, -2500), frame_with(&[(2, 2), (4, 0)]));
    assert_eq!(compass_frame(-500, -500), frame_with(&[(2, 2), (3, 4)]));
    assert_eq!(
        compass_frame(-2500, 500),
        [[0, 0, 0, 0, 0], [0, 0, 0, 0, 1], [0, 0, 1, 0, 0], [0, 0, 0, 0, 0], [0, 0, 0, 0, 0]]
    );
}

#[test]
fn the_frame_lights_the_cell_that_the_needle_names() {
    let samples = [-60000, -2500, -2499, -500, -499, 0, 499, 500, 2499, 2500, 60000];
    for x in samples {
        for y in samples {
            let cell = needle_cell(x, y);
            assert!(cell.0 < 5 && cell.1 < 5);
            assert_eq!(compass_frame(x, y), frame_with(&[(2, 2), cell]));
        }
    }
}
