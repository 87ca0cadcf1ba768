//! The trail rasteriser: fills the quadrilateral that a moving player sweeps
//! between two frames.

use crate::canvas::{Canvas, CanvasModel, Rgba, MAX_CANVAS_SIZE};
use crate::fixed::{abs_int, div_round_zero, div_toward_zero, lemma_product_bound};
use crate::heading::{Heading, HEADING_ONE};
use crate::mapper::{
    game_to_texture_vec, pixel_index, pixel_point, to_canvas, world_point, CanvasPoint, Point,
    WorldPoint, SUBPIXEL,
};
use vstd::prelude::*;

verus! {

/// No radius is larger than this: about a million arena widths.
pub const RADIUS_LIMIT: u64 = 1099511627776;

/// The four corners of one trail segment on the canvas plane: the two ends of
/// the player's cross-section now, then the two ends of the cross-section one
/// frame before.
#[derive(Clone, Copy, Debug)]
pub struct Quad {
    pub left_now: CanvasPoint,
    pub right_now: CanvasPoint,
    pub left_before: CanvasPoint,
    pub right_before: CanvasPoint,
}

/// The model of a [`Quad`].
pub struct QuadModel {
    pub left_now: Point,
    pub right_now: Point,
    pub left_before: Point,
    pub right_before: Point,
}

impl View for Quad {
    type V = QuadModel;

    open spec fn view(&self) -> QuadModel {
        QuadModel {
            left_now: self.left_now@,
            right_now: self.right_now@,
            left_before: self.left_before@,
            right_before: self.right_before@,
        }
    }
}

/// The shoelace sum of a triangle before it is halved and stripped of its
/// sign: positive for one orientation, negative for the other.
pub open spec fn shoelace(a: Point, b: Point, c: Point) -> int {
    a.x * b.y + b.x * c.y + c.x * a.y - a.y * b.x - b.y * c.x - c.y * a.x
}

/// Twice the area of a triangle. Kept doubled so that it is an integer.
pub open spec fn twice_area(a: Point, b: Point, c: Point) -> int {
    abs_int(shoelace(a, b, c))
}

/// The sum of the doubled areas of the three triangles that arise when `p`
/// takes the place of each corner in turn.
pub open spec fn twice_parts_area(p: Point, a: Point, b: Point, c: Point) -> int {
    twice_area(p, b, c) + twice_area(a, p, c) + twice_area(a, b, p)
}

/// A point counts as inside a triangle when the three partial triangles are
/// together at most 1.05 times as large as the triangle itself. Inside the
/// triangle the ratio is exactly one; the slack takes in a thin rim around it,
/// so that consecutive segments leave no gap. A triangle without area holds
/// no point.
pub open spec fn point_in_triangle(p: Point, a: Point, b: Point, c: Point) -> bool {
    twice_area(a, b, c) > 0 && 20 * twice_parts_area(p, a, b, c) <= 21 * twice_area(a, b, c)
}

/// A point is inside the quad when it is inside one of the two triangles that
/// share the edge from `right_now` to `left_before`.
pub open spec fn point_in_quad(p: Point, q: QuadModel) -> bool {
    point_in_triangle(p, q.left_now, q.right_now, q.left_before) || point_in_triangle(
        p,
        q.right_now,
        q.left_before,
        q.right_before,
    )
}

/// The least of four integers.
pub open spec fn min4(a: int, b: int, c: int, d: int) -> int {
    crate::fixed::min_int(crate::fixed::min_int(a, b), crate::fixed::min_int(c, d))
}

/// The greatest of four integers.
pub open spec fn max4(a: int, b: int, c: int, d: int) -> int {
    crate::fixed::max_int(crate::fixed::max_int(a, b), crate::fixed::max_int(c, d))
}

/// Pixel `(ix, iy)` lies on a canvas of side `size` and within the quad's
/// bounding box, taken in whole pixels.
pub open spec fn in_bounding_box(ix: int, iy: int, q: QuadModel, size: int) -> bool {
    &&& 0 <= ix < size
    &&& 0 <= iy < size
    &&& pixel_index(min4(q.left_now.x, q.right_now.x, q.left_before.x, q.right_before.x)) <= ix
    &&& ix <= pixel_index(max4(q.left_now.x, q.right_now.x, q.left_before.x, q.right_before.x))
    &&& pixel_index(min4(q.left_now.y, q.right_now.y, q.left_before.y, q.right_before.y)) <= iy
    &&& iy <= pixel_index(max4(q.left_now.y, q.right_now.y, q.left_before.y, q.right_before.y))
}

/// The segment paints pixel `(ix, iy)`.
pub open spec fn trail_covers(ix: int, iy: int, q: QuadModel, size: int) -> bool {
    in_bounding_box(ix, iy, q, size) && point_in_quad(pixel_point(ix, iy), q)
}

/// The sideways reach of a player of the given radius: the heading turned
/// left by a quarter turn and scaled to the radius.
pub open spec fn lateral(h: Point, radius: int) -> Point {
    Point {
        x: div_toward_zero(radius * (-h.y), HEADING_ONE as int),
        y: div_toward_zero(radius * h.x, HEADING_ONE as int),
    }
}

/// The left and right ends of a player's cross-section, in world
/// coordinates.
pub open spec fn cross_section(at: Point, h: Point, radius: int) -> (Point, Point) {
    let l = lateral(h, radius);
    (world_point(at.x + l.x, at.y + l.y), world_point(at.x - l.x, at.y - l.y))
}

/// The quad swept between the cross-section at `before` and the one at
/// `now`, on the plane of a canvas of side `size`.
pub open spec fn trail_quad(
    before: Point,
    dir_before: Point,
    now: Point,
    dir_now: Point,
    radius: int,
    size: int,
) -> QuadModel {
    let (left_now, right_now) = cross_section(now, dir_now, radius);
    let (left_before, right_before) = cross_section(before, dir_before, radius);
    QuadModel {
        left_now: to_canvas(left_now, size),
        right_now: to_canvas(right_now, size),
        left_before: to_canvas(left_before, size),
        right_before: to_canvas(right_before, size),
    }
}

/// The canvas after the quad has been filled: every pixel that the quad
/// covers has the colour at full opacity, every other pixel is as before.
pub open spec fn painted(canvas: CanvasModel, q: QuadModel, color: Rgba) -> CanvasModel {
    CanvasModel {
        side: canvas.side,
        pixels: Map::new(
            |p: (int, int)| canvas.contains(p.0, p.1),
            |p: (int, int)|
                if trail_covers(p.0, p.1, q, canvas.side) {
                    color.solid()
                } else {
                    canvas.pixels[p]
                },
        ),
    }
}

/// The canvas after a player has painted the segment between two frames.
pub open spec fn with_trail(
    canvas: CanvasModel,
    before: Point,
    dir_before: Point,
    now: Point,
    dir_now: Point,
    radius: int,
    color: Rgba,
) -> CanvasModel {
    painted(canvas, trail_quad(before, dir_before, now, dir_now, radius, canvas.side), color)
}

/// The signed areas of the three partial triangles add up to the signed area
/// of the triangle, wherever the point lies.
pub proof fn lemma_parts_add_up(p: Point, a: Point, b: Point, c: Point)
    ensures
        shoelace(p, b, c) + shoelace(a, p, c) + shoelace(a, b, p) == shoelace(a, b, c),
{
    assert(p.x * b.y == b.y * p.x && c.x * p.y == p.y * c.x && p.y * b.x == b.x * p.y && c.y * p.x
        == p.x * c.y && a.x * p.y == p.y * a.x && a.y * p.x == p.x * a.y) by (nonlinear_arith);
}

/// The three partial triangles are together never smaller than the triangle:
/// the ratio that decides membership is at least one.
pub proof fn lemma_parts_cover_the_triangle(p: Point, a: Point, b: Point, c: Point)
    ensures
        twice_parts_area(p, a, b, c) >= twice_area(a, b, c),
{
    lemma_parts_add_up(p, a, b, c);
}

/// The tolerance only adds: a point that lies on the inner side of all three
/// edges, or on an edge, is inside the triangle, with a ratio of exactly one.
pub proof fn lemma_points_of_the_triangle_are_inside(p: Point, a: Point, b: Point, c: Point)
    requires
        shoelace(a, b, c) != 0,
        shoelace(a, b, c) > 0 ==> shoelace(p, b, c) >= 0 && shoelace(a, p, c) >= 0 && shoelace(
            a,
            b,
            p,
        ) >= 0,
        shoelace(a, b, c) < 0 ==> shoelace(p, b, c) <= 0 && shoelace(a, p, c) <= 0 && shoelace(
            a,
            b,
            p,
        ) <= 0,
    ensures
        twice_parts_area(p, a, b, c) == twice_area(a, b, c),
        point_in_triangle(p, a, b, c),
{
    lemma_parts_add_up(p, a, b, c);
}

/// A triangle with two corners in one place has no area.
pub proof fn lemma_folded_triangle_has_no_area(a: Point, b: Point)
    ensures
        twice_area(a, b, a) == 0,
        twice_area(a, a, b) == 0,
        twice_area(b, a, a) == 0,
{
    assert(a.x * b.y == b.y * a.x && b.x * a.y == a.y * b.x) by (nonlinear_arith);
}

/// A player that has neither moved nor turned sweeps no area: painting its
/// segment leaves the canvas as it is.
pub proof fn lemma_no_sweep_paints_nothing(
    canvas: CanvasModel,
    at: Point,
    dir: Point,
    radius: int,
    color: Rgba,
)
    requires
        canvas.wf(),
    ensures
        with_trail(canvas, at, dir, at, dir, radius, color) == canvas,
{
    let q = trail_quad(at, dir, at, dir, radius, canvas.side);
    lemma_folded_triangle_has_no_area(q.left_now, q.right_now);
    lemma_folded_triangle_has_no_area(q.right_now, q.left_now);
    assert(painted(canvas, q, color).pixels =~= canvas.pixels);
}

/// Twice the area of the triangle `a`, `b`, `c`.
pub fn triangle_area(a: &CanvasPoint, b: &CanvasPoint, c: &CanvasPoint) -> (area: u128)
    ensures
        area == twice_area(a@, b@, c@),
        area <= 6 * 0x80_0000_0000_0000 * 0x80_0000_0000_0000,
{
    let (ax, ay) = (a.x() as i128, a.y() as i128);
    let (bx, by) = (b.x() as i128, b.y() as i128);
    let (cx, cy) = (c.x() as i128, c.y() as i128);
    proof {
        let l: int = 0x80_0000_0000_0000;
        lemma_product_bound(ax as int, by as int, l, l);
        lemma_product_bound(bx as int, cy as int, l, l);
        lemma_product_bound(cx as int, ay as int, l, l);
        lemma_product_bound(ay as int, bx as int, l, l);
        lemma_product_bound(by as int, cx as int, l, l);
        lemma_product_bound(cy as int, ax as int, l, l);
        assert(l * l == 0x80_0000_0000_0000 * 0x80_0000_0000_0000);
        assert(0x80_0000_0000_0000 * 0x80_0000_0000_0000 == 0x4000_0000_0000_0000_0000_0000_0000)
            by (nonlinear_arith);
    }
    let sum: i128 = ax * by + bx * cy + cx * ay - ay * bx - by * cx - cy * ax;
    if sum < 0 {
        (-sum) as u128
    } else {
        sum as u128
    }
}

/// Whether `p` counts as inside the triangle `a`, `b`, `c`.
pub fn is_point_inside_of_triangle(
    p: &CanvasPoint,
    a: &CanvasPoint,
    b: &CanvasPoint,
    c: &CanvasPoint,
) -> (inside: bool)
    ensures
        inside == point_in_triangle(p@, a@, b@, c@),
{
    assert(0x80_0000_0000_0000 * 0x80_0000_0000_0000 == 0x4000_0000_0000_0000_0000_0000_0000)
        by (nonlinear_arith);
    let area = triangle_area(a, b, c);
    let parts_area = triangle_area(p, b, c) + triangle_area(a, p, c) + triangle_area(a, b, p);
    area > 0 && 20 * parts_area <= 21 * area
}

/// Whether `p` counts as inside the quad.
pub fn is_point_inside_of_quad(p: &CanvasPoint, quad: &Quad) -> (inside: bool)
    ensures
        inside == point_in_quad(p@, quad@),
{
    is_point_inside_of_triangle(p, &quad.left_now, &quad.right_now, &quad.left_before)
        || is_point_inside_of_triangle(p, &quad.right_now, &quad.left_before, &quad.right_before)
}

fn min_of_four(a: i64, b: i64, c: i64, d: i64) -> (m: i64)
    ensures
        m == min4(a as int, b as int, c as int, d as int),
{
    let ab = if a <= b {
        a
    } else {
        b
    };
    let cd = if c <= d {
        c
    } else {
        d
    };
    if ab <= cd {
        ab
    } else {
        cd
    }
}

fn max_of_four(a: i64, b: i64, c: i64, d: i64) -> (m: i64)
    ensures
        m == max4(a as int, b as int, c as int, d as int),
{
    let ab = if a >= b {
        a
    } else {
        b
    };
    let cd = if c >= d {
        c
    } else {
        d
    };
    if ab >= cd {
        ab
    } else {
        cd
    }
}

/// The pixel indices on the canvas between the pixels of `lo` and `hi`: from
/// the first of the pair up to, not including, the second.
fn axis_range(lo: i64, hi: i64, size: usize) -> (range: (usize, usize))
    requires
        size <= MAX_CANVAS_SIZE,
    ensures
        range.0 == crate::fixed::min_int(
            crate::fixed::max_int(pixel_index(lo as int), 0),
            size as int,
        ),
        range.1 == crate::fixed::min_int(
            crate::fixed::max_int(pixel_index(hi as int) + 1, 0),
            size as int,
        ),
{
    proof {
        crate::mapper::lemma_pixel_index_range(lo as int, 0);
        crate::mapper::lemma_pixel_index_range(hi as int, 0);
        crate::mapper::lemma_pixel_index_range(lo as int, size as int);
        crate::mapper::lemma_pixel_index_range(hi as int, size as int);
    }
    let edge: i64 = (size as i64) * SUBPIXEL;
    let start: usize = if lo < 0 {
        0
    } else if lo >= edge {
        size
    } else {
        (lo / SUBPIXEL) as usize
    };
    let end: usize = if hi < 0 {
        0
    } else if hi >= edge {
        size
    } else {
        (hi / SUBPIXEL) as usize + 1
    };
    (start, end)
}

/// Pixel `a` comes before pixel `b` when the pixels are listed column by
/// column, each column from the top down.
pub open spec fn comes_before(a: (usize, usize), b: (usize, usize)) -> bool {
    a.0 < b.0 || (a.0 == b.0 && a.1 < b.1)
}

/// Every pixel of a canvas of side `size` that the quad covers, each once,
/// column by column.
pub fn get_all_coordinates_in_quad(quad: &Quad, size: usize) -> (out: Vec<(usize, usize)>)
    requires
        size <= MAX_CANVAS_SIZE,
    ensures
        forall|k: int|
            0 <= k < out@.len() ==> trail_covers(
                (#[trigger] out@[k]).0 as int,
                out@[k].1 as int,
                quad@,
                size as int,
            ),
        forall|ix: int, iy: int| #[trigger]
            trail_covers(ix, iy, quad@, size as int) ==> out@.contains((ix as usize, iy as usize)),
        forall|j: int, k: int| 0 <= j < k < out@.len() ==> comes_before(out@[j], out@[k]),
        out@.no_duplicates(),
{
    let x_lo = min_of_four(
        quad.left_now.x(),
        quad.right_now.x(),
        quad.left_before.x(),
        quad.right_before.x(),
    );
    let x_hi = max_of_four(
        quad.left_now.x(),
        quad.right_now.x(),
        quad.left_before.x(),
        quad.right_before.x(),
    );
    let y_lo = min_of_four(
        quad.left_now.y(),
        quad.right_now.y(),
        quad.left_before.y(),
        quad.right_before.y(),
    );
    let y_hi = max_of_four(
        quad.left_now.y(),
        quad.right_now.y(),
        quad.left_before.y(),
        quad.right_before.y(),
    );
    let (x_start, x_end) = axis_range(x_lo, x_hi, size);
    let (y_start, y_end) = axis_range(y_lo, y_hi, size);
    let ghost q = quad@;
    let ghost s = size as int;
    assert(forall|ix: int, iy: int| #[trigger]
        in_bounding_box(ix, iy, q, s) <==> x_start <= ix < x_end && y_start <= iy < y_end);
    let mut points: Vec<(usize, usize)> = Vec::new();
    let mut x = x_start;
    while x < x_end
        invariant
            q == quad@,
            s == size as int,
            size <= MAX_CANVAS_SIZE,
            x_end <= size,
            y_end <= size,
            x_start <= x,
            forall|ix: int, iy: int| #[trigger]
                in_bounding_box(ix, iy, q, s) <==> x_start <= ix < x_end && y_start <= iy < y_end,
            forall|k: int|
                0 <= k < points@.len() ==> trail_covers(
                    (#[trigger] points@[k]).0 as int,
                    points@[k].1 as int,
                    q,
                    s,
                ) && points@[k].0 < x,
            forall|ix: int, iy: int| #[trigger]
                trail_covers(ix, iy, q, s) && ix < x ==> points@.contains(
                    (ix as usize, iy as usize),
                ),
            forall|j: int, k: int| 0 <= j < k < points@.len() ==> comes_before(points@[j], points@[k]),
            points@.no_duplicates(),
        decreases x_end - x,
    {
        let mut y = y_start;
        while y < y_end
            invariant
                q == quad@,
                s == size as int,
                size <= MAX_CANVAS_SIZE,
                x_end <= size,
                y_end <= size,
                x_start <= x < x_end,
                y_start <= y,
                forall|ix: int, iy: int| #[trigger]
                    in_bounding_box(ix, iy, q, s) <==> x_start <= ix < x_end && y_start <= iy
                        < y_end,
                forall|k: int|
                    0 <= k < points@.len() ==> trail_covers(
                        (#[trigger] points@[k]).0 as int,
                        points@[k].1 as int,
                        q,
                        s,
                    ) && (points@[k].0 < x || (points@[k].0 == x && points@[k].1 < y)),
                forall|ix: int, iy: int| #[trigger]
                    trail_covers(ix, iy, q, s) && (ix < x || (ix == x && iy < y))
                        ==> points@.contains((ix as usize, iy as usize)),
                forall|j: int, k: int|
                    0 <= j < k < points@.len() ==> comes_before(points@[j], points@[k]),
                points@.no_duplicates(),
            decreases y_end - y,
        {
            let p = CanvasPoint::of_pixel(x, y);
            if is_point_inside_of_quad(&p, quad) {
                let ghost before = points@;
                points.push((x, y));
                proof {
                    assert(in_bounding_box(x as int, y as int, q, s));
                    assert(points@[before.len() as int] == (x, y));
                    assert forall|ix: int, iy: int| #[trigger]
                        trail_covers(ix, iy, q, s) && (ix < x || (ix == x && iy < y + 1))
                        implies points@.contains((ix as usize, iy as usize)) by {
                        if ix == x && iy == y {
                            assert(points@[before.len() as int] == (ix as usize, iy as usize));
                        } else {
                            assert(before.contains((ix as usize, iy as usize)));
                            let k = choose|k: int|
                                0 <= k < before.len() && before[k] == (ix as usize, iy as usize);
                            assert(points@[k] == (ix as usize, iy as usize));
                        }
                    }
                }
            }
            y += 1;
        }
        x += 1;
    }
    points
}

/// Paints the trail segment that a player of the given radius sweeps when it
/// moves from `position_before`, heading `dir_before`, to
/// `position_now`, heading `dir_now`. Every covered pixel takes the colour
/// at full opacity; every other pixel keeps what it had.
pub fn draw_trail(
    position_before: WorldPoint,
    dir_before: Heading,
    position_now: WorldPoint,
    dir_now: Heading,
    radius: u64,
    texture: &mut Canvas,
    color: Rgba,
)
    requires
        radius <= RADIUS_LIMIT,
    ensures
        final(texture).side() == old(texture).side(),
        final(texture)@ == with_trail(
            old(texture)@,
            position_before@,
            dir_before@,
            position_now@,
            dir_now@,
            radius as int,
            color,
        ),
        forall|ix: int, iy: int|
            old(texture).contains(ix, iy) ==> #[trigger] final(texture).at(ix, iy) == if trail_covers(
                ix,
                iy,
                trail_quad(
                    position_before@,
                    dir_before@,
                    position_now@,
                    dir_now@,
                    radius as int,
                    old(texture).side(),
                ),
                old(texture).side(),
            ) {
                color.solid()
            } else {
                old(texture).at(ix, iy)
            },
{
    let size = texture.size();
    let (left_before, right_before) = cross_section_of(position_before, dir_before, radius);
    let (left_now, right_now) = cross_section_of(position_now, dir_now, radius);
    let quad = Quad {
        left_now: game_to_texture_vec(left_now, size),
        right_now: game_to_texture_vec(right_now, size),
        left_before: game_to_texture_vec(left_before, size),
        right_before: game_to_texture_vec(right_before, size),
    };
    let ghost q = trail_quad(
        position_before@,
        dir_before@,
        position_now@,
        dir_now@,
        radius as int,
        size as int,
    );
    assert(quad@ == q);
    let coords_to_draw = get_all_coordinates_in_quad(&quad, size);
    let solid = color.to_solid();
    let mut i: usize = 0;
    while i < coords_to_draw.len()
        invariant
            i <= coords_to_draw@.len(),
            texture.side() == old(texture).side(),
            texture.side() == size,
            solid == color.solid(),
            forall|k: int|
                0 <= k < coords_to_draw@.len() ==> trail_covers(
                    (#[trigger] coords_to_draw@[k]).0 as int,
                    coords_to_draw@[k].1 as int,
                    q,
                    size as int,
                ),
            forall|ix: int, iy: int|
                old(texture).contains(ix, iy) ==> #[trigger] texture.at(ix, iy) == if exists|
                    k: int,
                |
                    0 <= k < i && coords_to_draw@[k] == (ix as usize, iy as usize) {
                    solid
                } else {
                    old(texture).at(ix, iy)
                },
        decreases coords_to_draw@.len() - i,
    {
        let (x, y) = coords_to_draw[i];
        let ghost prev = *texture;
        assert(trail_covers(x as int, y as int, q, size as int));
        texture.paint(x, y, solid);
        proof {
            assert forall|ix: int, iy: int| old(texture).contains(ix, iy) implies #[trigger] texture.at(
                ix,
                iy,
            ) == if exists|k: int|
                0 <= k < i + 1 && coords_to_draw@[k] == (ix as usize, iy as usize) {
                solid
            } else {
                old(texture).at(ix, iy)
            } by {
                if (ix, iy) == (x as int, y as int) {
                    assert(coords_to_draw@[i as int] == (ix as usize, iy as usize));
                } else {
                    assert(texture.at(ix, iy) == prev.at(ix, iy));
                    if exists|k: int|
                        0 <= k < i + 1 && coords_to_draw@[k] == (ix as usize, iy as usize) {
                        let k = choose|k: int|
                            0 <= k < i + 1 && coords_to_draw@[k] == (ix as usize, iy as usize);
                        assert(k < i);
                    }
                }
            }
        }
        i += 1;
    }
    proof {
        assert forall|ix: int, iy: int| old(texture).contains(ix, iy) implies #[trigger] texture.at(
            ix,
            iy,
        ) == if trail_covers(ix, iy, q, size as int) {
            color.solid()
        } else {
            old(texture).at(ix, iy)
        } by {
            if trail_covers(ix, iy, q, size as int) {
                assert(coords_to_draw@.contains((ix as usize, iy as usize)));
            } else {
                if exists|k: int|
                    0 <= k < i && coords_to_draw@[k] == (ix as usize, iy as usize) {
                    let k = choose|k: int|
                        0 <= k < i && coords_to_draw@[k] == (ix as usize, iy as usize);
                    assert(trail_covers(
                        coords_to_draw@[k].0 as int,
                        coords_to_draw@[k].1 as int,
                        q,
                        size as int,
                    ));
                }
            }
        }
        assert(texture@.pixels =~= painted(old(texture)@, q, color).pixels);
    }
}

/// The two ends of a player's cross-section: the point `radius` to the left
/// of `at` and the point `radius` to its right.
pub fn cross_section_of(at: WorldPoint, dir: Heading, radius: u64) -> (ends: (
    WorldPoint,
    WorldPoint,
))
    requires
        radius <= RADIUS_LIMIT,
    ensures
        (ends.0@, ends.1@) == cross_section(at@, dir@, radius as int),
{
    let hx = dir.x() as i128;
    let hy = dir.y() as i128;
    let r = radius as i128;
    proof {
        lemma_product_bound(r as int, -hy as int, 1099511627776, 1073741825);
        lemma_product_bound(r as int, hx as int, 1099511627776, 1073741825);
    }
    let lx = div_round_zero(r * (-hy), HEADING_ONE as i128);
    let ly = div_round_zero(r * hx, HEADING_ONE as i128);
    (at.moved_by(lx as i64, ly as i64), at.moved_by((-lx) as i64, (-ly) as i64))
}

} // verus!
