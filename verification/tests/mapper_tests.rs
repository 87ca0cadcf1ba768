use lightcycle::mapper::{
    game_to_texture_coord, game_to_texture_vec, CanvasPoint, WorldPoint, CANVAS_LIMIT, SUBPIXEL,
    WORLD_LIMIT, WORLD_ONE,
};

#[test]
fn world_centre_maps_to_canvas_centre() {
    let p = game_to_texture_vec(WorldPoint::new(0, 0), 500);
    // (0 + 1) * 500 / 2 = 250 pixels on both axes.
    assert_eq!(p.x(), 250 * SUBPIXEL);
    assert_eq!(p.y(), 250 * SUBPIXEL);
    assert_eq!(game_to_texture_coord(WorldPoint::new(0, 0), 500), Some((250, 250)));
}

#[test]
fn mapping_is_affine_with_flipped_vertical_axis() {
    // x = 0.5, y = 0.25 on a canvas of 400: px = 1.5 * 200 = 300, py = 0.75 * 200 = 150.
    let p = WorldPoint::new(WORLD_ONE / 2, WORLD_ONE / 4);
    let c = game_to_texture_vec(p, 400);
    assert_eq!(c.x(), 300 * SUBPIXEL);
    assert_eq!(c.y(), 150 * SUBPIXEL);
    assert_eq!(game_to_texture_coord(p, 400), Some((300, 150)));
    // Moving up in the world moves to a lower row.
    let up = WorldPoint::new(WORLD_ONE / 2, WORLD_ONE / 2);
    assert_eq!(game_to_texture_coord(up, 400), Some((300, 100)));
}

#[test]
fn corners_of_the_arena() {
    // Top left corner of the arena is pixel (0, 0).
    assert_eq!(game_to_texture_coord(WorldPoint::new(-WORLD_ONE, WORLD_ONE), 500), Some((0, 0)));
    // The right and bottom edges are just off the canvas.
    assert_eq!(game_to_texture_coord(WorldPoint::new(WORLD_ONE, 0), 500), None);
    assert_eq!(game_to_texture_coord(WorldPoint::new(0, -WORLD_ONE), 500), None);
    // One world unit inside them is the last pixel.
    assert_eq!(
        game_to_texture_coord(WorldPoint::new(WORLD_ONE - 1, -WORLD_ONE + 1), 500),
        Some((499, 499))
    );
}

#[test]
fn points_off_the_canvas_are_not_clamped() {
    assert_eq!(game_to_texture_coord(WorldPoint::new(-WORLD_ONE - 1, 0), 500), None);
    assert_eq!(game_to_texture_coord(WorldPoint::new(0, WORLD_ONE + 1), 500), None);
    assert_eq!(game_to_texture_coord(WorldPoint::new(5 * WORLD_ONE, 0), 500), None);
    assert_eq!(game_to_texture_coord(WorldPoint::new(0, -5 * WORLD_ONE), 500), None);
    assert_eq!(game_to_texture_coord(WorldPoint::new(i64::MIN, i64::MAX), 500), None);
}

#[test]
fn pixel_index_is_the_floor_of_the_canvas_coordinate() {
    // On a canvas of side 2 each pixel is one world unit wide.
    assert_eq!(game_to_texture_coord(WorldPoint::new(-1, 1), 2), Some((0, 0)));
    assert_eq!(game_to_texture_coord(WorldPoint::new(0, 1), 2), Some((1, 0)));
    assert_eq!(game_to_texture_coord(WorldPoint::new(-1, 0), 2), Some((0, 1)));
    assert_eq!(game_to_texture_coord(WorldPoint::new(WORLD_ONE - 1, 0), 2), Some((1, 1)));
}

#[test]
fn world_points_saturate() {
    let p = WorldPoint::new(i64::MAX, i64::MIN);
    assert_eq!(p.x(), WORLD_LIMIT);
    assert_eq!(p.y(), -WORLD_LIMIT);
    let q = WorldPoint::new(7, -9);
    assert_eq!((q.x(), q.y()), (7, -9));
}

#[test]
fn moving_adds_and_saturates() {
    let p = WorldPoint::new(100, -100);
    let q = p.moved_by(-30, 50);
    assert_eq!((q.x(), q.y()), (70, -50));
    let far = p.moved_by(i64::MAX, i64::MIN);
    assert_eq!((far.x(), far.y()), (WORLD_LIMIT, -WORLD_LIMIT));
    let edge = WorldPoint::new(WORLD_LIMIT, 0).moved_by(1, 0);
    assert_eq!(edge.x(), WORLD_LIMIT);
}

#[test]
fn canvas_points_are_bounded() {
    assert!(CanvasPoint::new(0, 0).is_some());
    assert!(CanvasPoint::new(CANVAS_LIMIT, -CANVAS_LIMIT).is_some());
    assert!(CanvasPoint::new(CANVAS_LIMIT + 1, 0).is_none());
    assert!(CanvasPoint::new(0, -CANVAS_LIMIT - 1).is_none());
    let p = CanvasPoint::new(-5, 6).unwrap();
    assert_eq!((p.x(), p.y()), (-5, 6));
}

#[test]
fn pixel_points_lie_on_the_lattice() {
    let p = CanvasPoint::of_pixel(3, 7);
    assert_eq!((p.x(), p.y()), (3 * SUBPIXEL, 7 * SUBPIXEL));
    let o = CanvasPoint::of_pixel(0, 0);
    assert_eq!((o.x(), o.y()), (0, 0));
}
