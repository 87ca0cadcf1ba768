//! The collision detector: three probes ahead of a player decide whether it
//! has hit a trail or left the arena.

use crate::canvas::{Canvas, CanvasModel};
use crate::fixed::{div_round_zero, div_toward_zero, lemma_quotient_keeps_sign};
use crate::heading::{mirrored, rotated, Heading, HEADING_ONE};
use crate::kinetic::{advanced, displacement, step_micros, DISPLACEMENT_DIVISOR};
use crate::mapper::{
    game_to_texture_coord, in_arena, to_pixel, world_point, Point, WorldPoint,
};
use crate::raster::RADIUS_LIMIT;
use vstd::prelude::*;

verus! {

/// The rotation by sixty degrees to the left: one half, and half the square
/// root of three, in units of `1 / HEADING_ONE`.
pub open spec fn sixty_degrees() -> Point {
    Point { x: 536870912, y: 929887697 }
}

/// The point that lies `radius` away from `at` in the direction `h`.
pub open spec fn probe_at(at: Point, h: Point, radius: int) -> Point {
    world_point(
        at.x + div_toward_zero(radius * h.x, HEADING_ONE as int),
        at.y + div_toward_zero(radius * h.y, HEADING_ONE as int),
    )
}

/// The three probes of a player: straight ahead, sixty degrees to the left
/// and sixty degrees to the right, each one radius away.
pub open spec fn collision_points(position: Point, dir: Point, radius: int) -> Seq<Point> {
    seq![
        probe_at(position, dir, radius),
        probe_at(position, rotated(dir, sixty_degrees()), radius),
        probe_at(position, rotated(dir, mirrored(sixty_degrees())), radius),
    ]
}

/// A probe lies off the canvas.
pub open spec fn probe_out_of_bounds(canvas: CanvasModel, probe: Point) -> bool {
    to_pixel(probe, canvas.side).is_none()
}

/// A probe kills when it lies off the canvas, or on an opaque pixel unless
/// the player is free-flying.
pub open spec fn probe_kills(canvas: CanvasModel, probe: Point, free_flying: bool) -> bool {
    match to_pixel(probe, canvas.side) {
        None => true,
        Some((ix, iy)) => canvas.is_opaque_at(ix, iy) && !free_flying,
    }
}

/// A player at `position` heading `dir` dies: one of its probes kills.
pub open spec fn collides(
    canvas: CanvasModel,
    position: Point,
    dir: Point,
    radius: int,
    free_flying: bool,
) -> bool {
    exists|i: int|
        0 <= i < 3 && probe_kills(
            canvas,
            #[trigger] collision_points(position, dir, radius)[i],
            free_flying,
        )
}

/// One of the player's probes lies off the canvas.
pub open spec fn leaves_arena(
    canvas: CanvasModel,
    position: Point,
    dir: Point,
    radius: int,
) -> bool {
    exists|i: int|
        0 <= i < 3 && probe_out_of_bounds(
            canvas,
            #[trigger] collision_points(position, dir, radius)[i],
        )
}

/// A player one of whose probes lies off the canvas dies, whatever effects
/// it holds.
pub proof fn lemma_leaving_arena_kills(
    canvas: CanvasModel,
    position: Point,
    dir: Point,
    radius: int,
    free_flying: bool,
)
    requires
        leaves_arena(canvas, position, dir, radius),
    ensures
        collides(canvas, position, dir, radius, free_flying),
{
    let i = choose|i: int|
        0 <= i < 3 && probe_out_of_bounds(
            canvas,
            #[trigger] collision_points(position, dir, radius)[i],
        );
    assert(probe_kills(canvas, collision_points(position, dir, radius)[i], free_flying));
}

/// On a canvas without opaque pixels a player dies only by leaving it.
pub proof fn lemma_blank_canvas_kills_only_outside(
    canvas: CanvasModel,
    position: Point,
    dir: Point,
    radius: int,
    free_flying: bool,
)
    requires
        forall|x: int, y: int| canvas.contains(x, y) ==> !#[trigger] canvas.is_opaque_at(x, y),
    ensures
        collides(canvas, position, dir, radius, free_flying) <==> leaves_arena(
            canvas,
            position,
            dir,
            radius,
        ),
{
    let points = collision_points(position, dir, radius);
    assert forall|i: int| 0 <= i < 3 implies (probe_kills(canvas, #[trigger] points[i], free_flying)
        <==> probe_out_of_bounds(canvas, points[i])) by {
        match to_pixel(points[i], canvas.side) {
            None => {},
            Some((ix, iy)) => {
                assert(canvas.contains(ix, iy));
            },
        }
    }
}

/// The front probe leaves the arena first: a player that was in the arena
/// before its move and is outside after it is dead, whatever effects it
/// holds. So no living player is ever outside the arena, once all have
/// started inside.
pub proof fn lemma_moving_out_kills(
    canvas: CanvasModel,
    position: Point,
    dir: Point,
    speed: nat,
    elapsed: nat,
    radius: nat,
    free_flying: bool,
)
    requires
        canvas.side > 0,
        in_arena(position),
        !in_arena(advanced(position, dir, speed, elapsed)),
    ensures
        leaves_arena(canvas, advanced(position, dir, speed, elapsed), dir, radius as int),
        collides(canvas, advanced(position, dir, speed, elapsed), dir, radius as int, free_flying),
{
    let after = advanced(position, dir, speed, elapsed);
    let scale = step_micros(elapsed) * speed;
    let dx = displacement(dir.x, speed, elapsed);
    let dy = displacement(dir.y, speed, elapsed);
    let h = HEADING_ONE as int;
    let r = radius as int;
    let front = probe_at(after, dir, r);
    lemma_quotient_keeps_sign(dir.x * scale, DISPLACEMENT_DIVISOR as int);
    lemma_quotient_keeps_sign(dir.y * scale, DISPLACEMENT_DIVISOR as int);
    lemma_quotient_keeps_sign(r * dir.x, h);
    lemma_quotient_keeps_sign(r * dir.y, h);
    assert(scale >= 0) by (nonlinear_arith)
        requires
            scale == step_micros(elapsed) * speed,
    ;
    assert(dir.x * scale > 0 ==> dir.x > 0) by (nonlinear_arith)
        requires
            scale >= 0,
    ;
    assert(dir.x * scale < 0 ==> dir.x < 0) by (nonlinear_arith)
        requires
            scale >= 0,
    ;
    assert(dir.y * scale > 0 ==> dir.y > 0) by (nonlinear_arith)
        requires
            scale >= 0,
    ;
    assert(dir.y * scale < 0 ==> dir.y < 0) by (nonlinear_arith)
        requires
            scale >= 0,
    ;
    assert(dir.x > 0 ==> r * dir.x >= 0) by (nonlinear_arith)
        requires
            r >= 0,
    ;
    assert(dir.x < 0 ==> r * dir.x <= 0) by (nonlinear_arith)
        requires
            r >= 0,
    ;
    assert(dir.y > 0 ==> r * dir.y >= 0) by (nonlinear_arith)
        requires
            r >= 0,
    ;
    assert(dir.y < 0 ==> r * dir.y <= 0) by (nonlinear_arith)
        requires
            r >= 0,
    ;
    assert(!in_arena(front));
    crate::mapper::lemma_arena_is_what_maps(front, canvas.side);
    assert(collision_points(after, dir, r)[0] == front);
    assert(probe_out_of_bounds(canvas, collision_points(after, dir, r)[0]));
    lemma_leaving_arena_kills(canvas, after, dir, r, free_flying);
}

fn sixty_left() -> (t: Heading)
    ensures
        t@ == sixty_degrees(),
{
    assert(crate::heading::is_unit(sixty_degrees())) by (nonlinear_arith);
    match Heading::from_unit(536870912, 929887697) {
        Some(t) => t,
        None => vstd::pervasive::unreached(),
    }
}

fn probe(at: WorldPoint, h: Heading, radius: u64) -> (out: WorldPoint)
    requires
        radius <= RADIUS_LIMIT,
    ensures
        out@ == probe_at(at@, h@, radius as int),
{
    let hx = h.x() as i128;
    let hy = h.y() as i128;
    let r = radius as i128;
    assert(-(1099511627776 * 1073741825) <= r * hx <= 1099511627776 * 1073741825)
        by (nonlinear_arith)
        requires
            0 <= r <= 1099511627776,
            -1073741825 <= hx <= 1073741825,
    ;
    assert(-(1099511627776 * 1073741825) <= r * hy <= 1099511627776 * 1073741825)
        by (nonlinear_arith)
        requires
            0 <= r <= 1099511627776,
            -1073741825 <= hy <= 1073741825,
    ;
    let dx = div_round_zero(r * hx, HEADING_ONE as i128);
    let dy = div_round_zero(r * hy, HEADING_ONE as i128);
    at.moved_by(dx as i64, dy as i64)
}

/// The three probes of a player at `position` heading `dir`.
pub fn get_collision_points(position: WorldPoint, dir: Heading, radius: u64) -> (out: Vec<
    WorldPoint,
>)
    requires
        radius <= RADIUS_LIMIT,
    ensures
        out@.len() == 3,
        forall|i: int|
            0 <= i < 3 ==> (#[trigger] out@[i])@ == collision_points(
                position@,
                dir@,
                radius as int,
            )[i],
{
    let rotation_left = sixty_left();
    let rotation_right = rotation_left.mirror();
    let front = probe(position, dir, radius);
    let left = probe(position, dir.rotate(&rotation_left), radius);
    let right = probe(position, dir.rotate(&rotation_right), radius);
    let mut out: Vec<WorldPoint> = Vec::new();
    out.push(front);
    out.push(left);
    out.push(right);
    out
}

/// Whether a player at `position` heading `dir` dies on this canvas.
pub fn check_collision(
    texture: &Canvas,
    position: WorldPoint,
    dir: Heading,
    radius: u64,
    free_flying: bool,
) -> (dead: bool)
    requires
        radius <= RADIUS_LIMIT,
    ensures
        dead == collides(texture@, position@, dir@, radius as int, free_flying),
{
    let size = texture.size();
    let points = get_collision_points(position, dir, radius);
    let ghost models = collision_points(position@, dir@, radius as int);
    let mut dead = false;
    let mut i: usize = 0;
    while i < 3
        invariant
            i <= 3,
            points@.len() == 3,
            size == texture@.side,
            0 < size <= crate::canvas::MAX_CANVAS_SIZE,
            forall|k: int| 0 <= k < 3 ==> (#[trigger] points@[k])@ == models[k],
            dead == exists|k: int|
                0 <= k < i && probe_kills(texture@, #[trigger] models[k], free_flying),
        decreases 3 - i,
    {
        let ghost m = models[i as int];
        assert(points@[i as int]@ == m);
        let hit = match game_to_texture_coord(points[i], size) {
            Some((x, y)) => {
                let opaque = match texture.sample(x, y) {
                    Some(o) => o,
                    None => true,
                };
                opaque && !free_flying
            },
            None => true,
        };
        assert(hit == probe_kills(texture@, m, free_flying));
        if hit {
            dead = true;
        }
        i += 1;
    }
    dead
}

} // verus!
