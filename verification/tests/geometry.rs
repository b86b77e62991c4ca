use chaos_game::geometry::{
    fill_polygon, get_vertices, in_polygon, intermediate, outside_edge, Direction, UNIT,
};

fn regular(sides: usize) -> Vec<Direction> {
    (0..sides)
        .map(|i| {
            let angle = std::f64::consts::TAU * (i as f64) / (sides as f64);
            let cos = (angle.cos() * UNIT as f64) as i32;
            let sin = (angle.sin() * UNIT as f64) as i32;
            Direction::new(cos, sin).unwrap()
        })
        .collect()
}

fn square() -> Vec<[usize; 2]> {
    vec![[128, 128], [128, 384], [384, 384], [384, 128]]
}

fn rotate(poly: &Vec<[usize; 2]>, k: usize) -> Vec<[usize; 2]> {
    let mut rotated = poly[k..].to_vec();
    rotated.extend_from_slice(&poly[..k]);
    rotated
}

#[test]
fn vertices_are_as_many_as_edges_and_lie_on_the_canvas() {
    for sides in 3..=20usize {
        for resolution in [1usize, 2, 3, 7, 100, 512, 2048, 1 << 40, usize::MAX] {
            let vertices = get_vertices(resolution, &regular(sides));
            assert_eq!(vertices.len(), sides);
            for v in &vertices {
                assert!(v[0] < resolution, "{sides} {resolution} {v:?}");
                assert!(v[1] < resolution, "{sides} {resolution} {v:?}");
            }
        }
    }
}

#[test]
fn vertices_of_the_square_on_2048() {
    let vertices = get_vertices(2048, &regular(4));
    assert_eq!(vertices, vec![[102, 1024], [1024, 1945], [1945, 1024], [1024, 102]]);
}

#[test]
fn vertex_subtracts_the_cosine_and_adds_the_sine() {
    let d = Direction::new(UNIT / 2, UNIT / 2).unwrap();
    // x = 1000 * (1/2 - 9/40) = 275, y = 1000 * (1/2 + 9/40) = 725
    assert_eq!(get_vertices(1000, &vec![d]), vec![[275, 725]]);
    let d = Direction::new(-UNIT, -UNIT).unwrap();
    // x = 1000 * 19/20 = 950, y = 1000 / 20 = 50
    assert_eq!(get_vertices(1000, &vec![d]), vec![[950, 50]]);
}

#[test]
fn vertex_coordinates_are_rounded_down() {
    let d = Direction::new(UNIT, 0).unwrap();
    // x = 7 / 20 rounds down to 0, y = 7 / 2 rounds down to 3
    assert_eq!(get_vertices(7, &vec![d]), vec![[0, 3]]);
}

#[test]
fn no_direction_gives_no_vertex() {
    assert_eq!(get_vertices(512, &Vec::new()), Vec::<[usize; 2]>::new());
}

#[test]
fn resolution_zero_puts_every_vertex_at_the_origin() {
    assert_eq!(get_vertices(0, &regular(3)), vec![[0, 0], [0, 0], [0, 0]]);
}

#[test]
fn direction_out_of_range_is_refused() {
    assert!(Direction::new(UNIT, -UNIT).is_some());
    assert!(Direction::new(UNIT + 1, 0).is_none());
    assert!(Direction::new(0, -UNIT - 1).is_none());
    assert!(Direction::new(i32::MIN, i32::MAX).is_none());
}

#[test]
fn centre_is_inside_the_square() {
    assert!(in_polygon(256, 256, &square()));
}

#[test]
fn border_and_corners_count_as_inside() {
    let poly = square();
    assert!(in_polygon(128, 128, &poly));
    assert!(in_polygon(128, 200, &poly));
    assert!(in_polygon(384, 384, &poly));
    assert!(in_polygon(300, 384, &poly));
}

#[test]
fn pixels_beyond_an_edge_are_outside() {
    let poly = square();
    assert!(!in_polygon(0, 0, &poly));
    assert!(!in_polygon(127, 256, &poly));
    assert!(!in_polygon(385, 256, &poly));
    assert!(!in_polygon(256, 127, &poly));
    assert!(!in_polygon(256, 385, &poly));
}

#[test]
fn reverse_winding_turns_the_centre_out() {
    let mut poly = square();
    poly.reverse();
    assert!(!in_polygon(256, 256, &poly));
}

#[test]
fn empty_ring_holds_every_pixel() {
    assert!(in_polygon(5, 9, &Vec::new()));
}

#[test]
fn membership_is_the_same_for_every_rotation() {
    let polys = vec![square(), get_vertices(512, &regular(5)), get_vertices(512, &regular(7))];
    for poly in &polys {
        for k in 0..=poly.len() {
            let rotated = rotate(poly, k);
            for x in (0..512).step_by(17) {
                for y in (0..512).step_by(13) {
                    assert_eq!(in_polygon(x, y, poly), in_polygon(x, y, &rotated));
                }
            }
        }
    }
}

#[test]
fn regular_polygon_holds_its_centre_and_not_the_origin() {
    for sides in 3..=20usize {
        let poly = get_vertices(2048, &regular(sides));
        assert!(in_polygon(1024, 1024, &poly), "{sides}");
        assert!(!in_polygon(0, 0, &poly), "{sides}");
    }
}

#[test]
fn membership_does_not_wrap_on_the_largest_coordinates() {
    let m = usize::MAX;
    let poly = vec![[0, 0], [0, m], [m, m], [m, 0]];
    assert!(in_polygon(m / 2, m / 2, &poly));
    assert!(in_polygon(m, m, &poly));
    let inner = vec![[1, 1], [1, m - 1], [m - 1, m - 1], [m - 1, 1]];
    assert!(!in_polygon(m, m, &inner));
    assert!(!in_polygon(0, m / 2, &inner));
    assert!(in_polygon(m - 1, m / 2, &inner));
}

#[test]
fn outer_side_of_one_edge() {
    // cross = 0 + 128 * 384 + 0 - (0 + 128 * 128 + 0) = 32768
    assert!(outside_edge(0, 0, [128, 128], [128, 384]));
    // cross = 256*128 + 128*384 + 256*128 - (256*384 + 128*128 + 256*128) = -32768
    assert!(!outside_edge(256, 256, [128, 128], [128, 384]));
    // on the line of the edge
    assert!(!outside_edge(128, 999, [128, 128], [128, 384]));
}

#[test]
fn fill_lights_the_pixels_inside_and_no_others() {
    let poly: Vec<[usize; 2]> = vec![[4, 4], [4, 12], [12, 12], [12, 4]];
    let mut image = vec![7u8; 16 * 16];
    fill_polygon(&mut image, 16, 16, &poly);
    let mut lit = 0;
    for x in 0..16usize {
        for y in 0..16usize {
            let expected = if (4..=12).contains(&x) && (4..=12).contains(&y) { 255 } else { 7 };
            assert_eq!(image[x * 16 + y], expected, "{x} {y}");
            if image[x * 16 + y] == 255 {
                lit += 1;
            }
        }
    }
    assert_eq!(lit, 81);
}

#[test]
fn fill_leaves_the_padding_of_a_row_alone() {
    let poly: Vec<[usize; 2]> = vec![[0, 0], [0, 3], [3, 3], [3, 0]];
    let mut image = vec![1u8; 4 * 10];
    fill_polygon(&mut image, 4, 10, &poly);
    for x in 0..4usize {
        for y in 0..10usize {
            assert_eq!(image[x * 10 + y], if y < 4 { 255 } else { 1 });
        }
    }
}

#[test]
fn fill_of_an_empty_canvas_changes_nothing() {
    let mut image = vec![9u8; 5];
    fill_polygon(&mut image, 0, 3, &square());
    assert_eq!(image, vec![9u8; 5]);
}

#[test]
fn midpoint_rounds_down() {
    assert_eq!(intermediate([256, 256], [128, 128]), [192, 192]);
    assert_eq!(intermediate([1, 0], [0, 0]), [0, 0]);
    assert_eq!(intermediate([3, 4], [4, 3]), [3, 3]);
    assert_eq!(intermediate([7, 9], [7, 9]), [7, 9]);
}

#[test]
fn midpoint_does_not_wrap() {
    let m = usize::MAX;
    assert_eq!(intermediate([m, m], [m, m - 1]), [m, m - 1]);
    assert_eq!(intermediate([m, 0], [1, m]), [m / 2 + 1, m / 2]);
}

#[test]
fn rounded_midpoint_can_leave_a_thin_hull() {
    // The hull of these three points is a triangle that does not hold the
    // origin; the step from (1, 0) towards (0, 1) rounds down to it.
    let triangle: Vec<[usize; 2]> = vec![[0, 1], [1, 1], [1, 0]];
    assert!(in_polygon(1, 0, &triangle));
    assert!(in_polygon(0, 1, &triangle));
    let next = intermediate([1, 0], [0, 1]);
    assert_eq!(next, [0, 0]);
    assert!(!in_polygon(next[0], next[1], &triangle));
}

#[test]
fn exact_midpoint_stays_inside_the_polygon() {
    let poly = square();
    for x in (128..=384).step_by(2) {
        for y in (128..=384).step_by(32) {
            for v in &poly {
                let next = intermediate([x, y], *v);
                assert!(in_polygon(next[0], next[1], &poly));
            }
        }
    }
}
