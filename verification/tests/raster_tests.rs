use lightcycle::canvas::{Canvas, Rgba};
use lightcycle::heading::Heading;
use lightcycle::mapper::{game_to_texture_vec, CanvasPoint, WorldPoint, SUBPIXEL, WORLD_ONE};
use lightcycle::raster::{
    cross_section_of, draw_trail, get_all_coordinates_in_quad, is_point_inside_of_quad,
    is_point_inside_of_triangle, triangle_area, Quad, RADIUS_LIMIT,
};

fn cp(x: i64, y: i64) -> CanvasPoint {
    CanvasPoint::new(x, y).unwrap()
}

fn px(x: i64, y: i64) -> CanvasPoint {
    cp(x * SUBPIXEL, y * SUBPIXEL)
}

const GREEN: Rgba = Rgba { r: 0, g: 200, b: 0, a: 255 };

#[test]
fn triangle_area_is_the_doubled_shoelace_area() {
    // A right triangle with legs 4 and 3 has area 6.
    assert_eq!(triangle_area(&cp(0, 0), &cp(4, 0), &cp(0, 3)), 12);
    // The orientation does not matter.
    assert_eq!(triangle_area(&cp(0, 0), &cp(0, 3), &cp(4, 0)), 12);
    // Nor does a position.
    assert_eq!(triangle_area(&cp(-10, 7), &cp(-6, 7), &cp(-10, 10)), 12);
    assert_eq!(triangle_area(&cp(1, 1), &cp(2, 2), &cp(3, 3)), 0);
    assert_eq!(triangle_area(&cp(5, 5), &cp(5, 5), &cp(5, 5)), 0);
}

#[test]
fn triangle_area_of_the_largest_coordinates() {
    let l = lightcycle::mapper::CANVAS_LIMIT;
    let area = triangle_area(&cp(-l, -l), &cp(l, -l), &cp(-l, l));
    assert_eq!(area, 4 * (l as u128) * (l as u128));
}

#[test]
fn points_inside_a_triangle() {
    let (a, b, c) = (cp(0, 0), cp(40, 0), cp(0, 40));
    assert!(is_point_inside_of_triangle(&cp(10, 10), &a, &b, &c));
    assert!(is_point_inside_of_triangle(&cp(0, 0), &a, &b, &c));
    assert!(is_point_inside_of_triangle(&cp(20, 20), &a, &b, &c));
    assert!(is_point_inside_of_triangle(&cp(40, 0), &a, &b, &c));
    assert!(!is_point_inside_of_triangle(&cp(30, 30), &a, &b, &c));
    assert!(!is_point_inside_of_triangle(&cp(-10, 10), &a, &b, &c));
    assert!(!is_point_inside_of_triangle(&cp(1000, 1000), &a, &b, &c));
}

#[test]
fn tolerance_takes_in_a_thin_rim() {
    // Below the edge from (0, 0) to (40, 0) at depth d the partial areas sum
    // to 1 + d / 20 times the area: depth 1 is exactly the limit of 1.05.
    let (a, b, c) = (cp(0, 0), cp(40, 0), cp(0, 40));
    assert!(is_point_inside_of_triangle(&cp(10, -1), &a, &b, &c));
    assert!(!is_point_inside_of_triangle(&cp(10, -2), &a, &b, &c));
}

#[test]
fn a_triangle_without_area_holds_no_point() {
    let (a, b, c) = (cp(0, 0), cp(10, 10), cp(20, 20));
    assert!(!is_point_inside_of_triangle(&cp(5, 5), &a, &b, &c));
    assert!(!is_point_inside_of_triangle(&cp(0, 0), &a, &b, &c));
    let p = cp(3, 3);
    assert!(!is_point_inside_of_triangle(&p, &p, &p, &p));
}

fn square_quad() -> Quad {
    Quad { left_now: px(1, 1), right_now: px(3, 1), left_before: px(1, 3), right_before: px(3, 3) }
}

#[test]
fn quad_is_the_union_of_its_two_triangles() {
    let q = square_quad();
    assert!(is_point_inside_of_quad(&px(1, 1), &q));
    assert!(is_point_inside_of_quad(&px(3, 3), &q));
    assert!(is_point_inside_of_quad(&px(2, 2), &q));
    assert!(is_point_inside_of_quad(&px(1, 2), &q));
    assert!(is_point_inside_of_quad(&px(3, 2), &q));
    assert!(!is_point_inside_of_quad(&px(0, 2), &q));
    assert!(!is_point_inside_of_quad(&px(4, 2), &q));
    assert!(!is_point_inside_of_quad(&px(2, 0), &q));
    assert!(!is_point_inside_of_quad(&px(2, 4), &q));
}

#[test]
fn coordinates_in_quad_are_listed_once_column_by_column() {
    let coords = get_all_coordinates_in_quad(&square_quad(), 10);
    assert_eq!(
        coords,
        vec![(1, 1), (1, 2), (1, 3), (2, 1), (2, 2), (2, 3), (3, 1), (3, 2), (3, 3)]
    );
}

#[test]
fn coordinates_in_quad_are_clipped_to_the_canvas() {
    let coords = get_all_coordinates_in_quad(&square_quad(), 3);
    assert_eq!(coords, vec![(1, 1), (1, 2), (2, 1), (2, 2)]);
    assert!(get_all_coordinates_in_quad(&square_quad(), 1).is_empty());
    assert!(get_all_coordinates_in_quad(&square_quad(), 0).is_empty());
    let off = Quad {
        left_now: px(-5, -5),
        right_now: px(-3, -5),
        left_before: px(-5, -3),
        right_before: px(-3, -3),
    };
    assert!(get_all_coordinates_in_quad(&off, 10).is_empty());
    let partly = Quad {
        left_now: px(-1, -1),
        right_now: px(1, -1),
        left_before: px(-1, 1),
        right_before: px(1, 1),
    };
    assert_eq!(get_all_coordinates_in_quad(&partly, 10), vec![(0, 0), (0, 1), (1, 0), (1, 1)]);
}

#[test]
fn degenerate_quad_paints_nothing() {
    let line = Quad { left_now: px(1, 1), right_now: px(1, 1), left_before: px(5, 5), right_before: px(5, 5) };
    assert!(get_all_coordinates_in_quad(&line, 10).is_empty());
    let mut canvas = Canvas::new(20).unwrap();
    // A player of radius zero sweeps no area.
    draw_trail(
        WorldPoint::new(-WORLD_ONE / 2, 0),
        Heading::east(),
        WorldPoint::new(WORLD_ONE / 2, 0),
        Heading::east(),
        0,
        &mut canvas,
        GREEN,
    );
    assert!(canvas.as_bytes().iter().all(|b| *b == 0));
    // A player that has not moved and not turned sweeps none either.
    draw_trail(
        WorldPoint::new(0, 0),
        Heading::east(),
        WorldPoint::new(0, 0),
        Heading::east(),
        WORLD_ONE as u64 / 4,
        &mut canvas,
        GREEN,
    );
    assert!(canvas.as_bytes().iter().all(|b| *b == 0));
}

#[test]
fn cross_section_is_perpendicular_to_the_heading() {
    let (l, r) = cross_section_of(WorldPoint::new(100, 200), Heading::east(), 50);
    assert_eq!((l.x(), l.y()), (100, 250));
    assert_eq!((r.x(), r.y()), (100, 150));
    let north = Heading::east().quarter_turn_left();
    let (l, r) = cross_section_of(WorldPoint::new(100, 200), north, 50);
    assert_eq!((l.x(), l.y()), (50, 200));
    assert_eq!((r.x(), r.y()), (150, 200));
    let h = Heading::from_vector(3, 4).unwrap();
    let (l, r) = cross_section_of(WorldPoint::new(0, 0), h, 1000);
    // 1000 * (-0.8, 0.6), rounded toward zero.
    assert_eq!((l.x(), l.y()), (-799, 599));
    assert_eq!((r.x(), r.y()), (799, -599));
}

fn floor_pixel(c: i64) -> i64 {
    c.div_euclid(SUBPIXEL)
}

#[test]
fn draw_trail_paints_exactly_the_covered_pixels() {
    let size = 50usize;
    let mut canvas = Canvas::new(size).unwrap();
    // Something is on the canvas already, inside and outside the segment.
    let old = Rgba { r: 9, g: 9, b: 9, a: 77 };
    for i in 0..size {
        canvas.paint(i, i, old);
        canvas.paint(i, 25, old);
    }
    let before = canvas.as_bytes().clone();
    let from = WorldPoint::new(-WORLD_ONE / 4, 0);
    let to = WorldPoint::new(WORLD_ONE / 4, 0);
    let radius = WORLD_ONE as u64 / 8;
    let color = Rgba { r: 0, g: 200, b: 0, a: 13 };
    draw_trail(from, Heading::east(), to, Heading::east(), radius, &mut canvas, color);

    let (lb, rb) = cross_section_of(from, Heading::east(), radius);
    let (ln, rn) = cross_section_of(to, Heading::east(), radius);
    let quad = Quad {
        left_now: game_to_texture_vec(ln, size),
        right_now: game_to_texture_vec(rn, size),
        left_before: game_to_texture_vec(lb, size),
        right_before: game_to_texture_vec(rb, size),
    };
    let xs = [quad.left_now.x(), quad.right_now.x(), quad.left_before.x(), quad.right_before.x()];
    let ys = [quad.left_now.y(), quad.right_now.y(), quad.left_before.y(), quad.right_before.y()];
    let (x_lo, x_hi) = (floor_pixel(*xs.iter().min().unwrap()), floor_pixel(*xs.iter().max().unwrap()));
    let (y_lo, y_hi) = (floor_pixel(*ys.iter().min().unwrap()), floor_pixel(*ys.iter().max().unwrap()));
    // x from -0.25 to 0.25 is 18.75 to 31.25 pixels; y from -0.125 to 0.125 is
    // rows 21.875 to 28.125.
    assert_eq!((x_lo, x_hi, y_lo, y_hi), (18, 31, 21, 28));

    let mut painted = 0;
    for y in 0..size {
        for x in 0..size {
            let in_box = x_lo <= x as i64 && x as i64 <= x_hi && y_lo <= y as i64 && y as i64 <= y_hi;
            let covered = in_box && is_point_inside_of_quad(&CanvasPoint::of_pixel(x, y), &quad);
            let o = (y * size + x) * 4;
            let was = Rgba { r: before[o], g: before[o + 1], b: before[o + 2], a: before[o + 3] };
            if covered {
                painted += 1;
                assert_eq!(canvas.get(x, y), Some(Rgba { r: 0, g: 200, b: 0, a: 255 }));
            } else {
                assert_eq!(canvas.get(x, y), Some(was), "pixel ({}, {}) changed", x, y);
            }
        }
    }
    // Columns 19 to 31, rows 22 to 28.
    assert_eq!(painted, 13 * 7);
    assert_eq!(canvas.get(19, 22), Some(Rgba { r: 0, g: 200, b: 0, a: 255 }));
    assert_eq!(canvas.get(31, 28), Some(Rgba { r: 0, g: 200, b: 0, a: 255 }));
    assert_eq!(canvas.get(22, 22), Some(Rgba { r: 0, g: 200, b: 0, a: 255 }));
    assert_eq!(canvas.get(25, 21), Some(Rgba { r: 0, g: 0, b: 0, a: 0 }));
    assert_eq!(canvas.get(21, 21), Some(old));
    assert_eq!(canvas.get(18, 25), Some(old));
    assert_eq!(canvas.get(32, 25), Some(old));
}

#[test]
fn consecutive_segments_leave_no_gap() {
    // A player moving diagonally for forty frames leaves a connected trail.
    let size = 200usize;
    let mut canvas = Canvas::new(size).unwrap();
    let h = Heading::from_vector(2, 1).unwrap();
    let radius = 10240u64;
    let mut pos = WorldPoint::new(-WORLD_ONE / 2, -WORLD_ONE / 4);
    for _ in 0..400 {
        let next = lightcycle::kinetic::advance(pos, h, 245760, 16_000);
        draw_trail(pos, h, next, h, radius, &mut canvas, GREEN);
        pos = next;
    }
    // Every column between start and end holds a painted pixel.
    let start = lightcycle::mapper::game_to_texture_coord(WorldPoint::new(-WORLD_ONE / 2, -WORLD_ONE / 4), size).unwrap();
    let end = lightcycle::mapper::game_to_texture_coord(pos, size).unwrap();
    assert!(end.0 > start.0 + 50);
    for x in (start.0 + 1)..end.0 {
        assert!((0..size).any(|y| canvas.sample(x, y) == Some(true)), "gap in column {}", x);
    }
}

#[test]
fn the_largest_radius_is_clipped_to_the_canvas() {
    let mut canvas = Canvas::new(8).unwrap();
    draw_trail(
        WorldPoint::new(-WORLD_ONE, 0),
        Heading::east(),
        WorldPoint::new(WORLD_ONE, 0),
        Heading::east(),
        RADIUS_LIMIT,
        &mut canvas,
        GREEN,
    );
    for y in 0..8 {
        for x in 0..8 {
            assert_eq!(canvas.get(x, y), Some(GREEN));
        }
    }
}
