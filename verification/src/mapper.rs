//! World coordinates, canvas coordinates and the mapping between them.
//!
//! The arena spans `-1` to `1` on both axes. A world coordinate counts units
//! of `1 / WORLD_ONE`; a canvas coordinate counts units of `1 / SUBPIXEL` of a
//! pixel, chosen so that the mapping needs no rounding at all.

use crate::canvas::MAX_CANVAS_SIZE;
use crate::fixed::saturate;
use vstd::prelude::*;

verus! {

/// World units per unit length: the arena's right edge is at `WORLD_ONE`.
pub const WORLD_ONE: i64 = 1048576;

/// World coordinates saturate at this distance from the origin, about four
/// million arena widths.
pub const WORLD_LIMIT: i64 = 4398046511104;

/// Canvas units per pixel.
pub const SUBPIXEL: i64 = 2097152;

/// No canvas coordinate of a world point lies farther from zero than this.
pub const CANVAS_LIMIT: i64 = 36028797018963968;

/// A point of the plane with integer coordinates; the model of both kinds of
/// point below.
pub struct Point {
    pub x: int,
    pub y: int,
}

/// A point of the world.
#[derive(Clone, Copy, Debug)]
pub struct WorldPoint {
    x: i64,
    y: i64,
}

/// A point of the canvas plane, finer than a pixel.
#[derive(Clone, Copy, Debug)]
pub struct CanvasPoint {
    x: i64,
    y: i64,
}

/// Both coordinates lie within [`WORLD_LIMIT`].
pub open spec fn in_world(p: Point) -> bool {
    -WORLD_LIMIT <= p.x <= WORLD_LIMIT && -WORLD_LIMIT <= p.y <= WORLD_LIMIT
}

/// Both coordinates lie within [`CANVAS_LIMIT`].
pub open spec fn in_canvas_plane(p: Point) -> bool {
    -CANVAS_LIMIT <= p.x <= CANVAS_LIMIT && -CANVAS_LIMIT <= p.y <= CANVAS_LIMIT
}

/// The world point nearest to `(x, y)`.
pub open spec fn world_point(x: int, y: int) -> Point {
    Point { x: saturate(x, WORLD_LIMIT as int), y: saturate(y, WORLD_LIMIT as int) }
}

/// Where a world point lies on a canvas of side `size`: the left edge of the
/// arena maps to 0, the right edge to `size` pixels, and the vertical axis is
/// flipped so that the top of the arena is row 0.
pub open spec fn to_canvas(p: Point, size: int) -> Point {
    Point { x: (p.x + WORLD_ONE) * size, y: (WORLD_ONE - p.y) * size }
}

/// The canvas point at the corner of pixel `(ix, iy)` that the pixel is
/// sampled at.
pub open spec fn pixel_point(ix: int, iy: int) -> Point {
    Point { x: ix * SUBPIXEL, y: iy * SUBPIXEL }
}

/// The pixel column or row that a canvas coordinate falls in.
pub open spec fn pixel_index(c: int) -> int {
    c / (SUBPIXEL as int)
}

/// The pixel that a world point falls on, if it lies on the canvas.
pub open spec fn to_pixel(p: Point, size: int) -> Option<(int, int)> {
    let c = to_canvas(p, size);
    let ix = pixel_index(c.x);
    let iy = pixel_index(c.y);
    if 0 <= ix < size && 0 <= iy < size {
        Some((ix, iy))
    } else {
        None
    }
}

impl View for WorldPoint {
    type V = Point;

    closed spec fn view(&self) -> Point {
        Point { x: self.x as int, y: self.y as int }
    }
}

impl View for CanvasPoint {
    type V = Point;

    closed spec fn view(&self) -> Point {
        Point { x: self.x as int, y: self.y as int }
    }
}

impl WorldPoint {
    #[verifier::type_invariant]
    spec fn inv(self) -> bool {
        in_world(self@)
    }

    /// The world point nearest to `(x, y)`.
    pub fn new(x: i64, y: i64) -> (p: WorldPoint)
        ensures
            p@ == world_point(x as int, y as int),
            in_world(p@),
    {
        let cx = if x < -WORLD_LIMIT {
            -WORLD_LIMIT
        } else if x > WORLD_LIMIT {
            WORLD_LIMIT
        } else {
            x
        };
        let cy = if y < -WORLD_LIMIT {
            -WORLD_LIMIT
        } else if y > WORLD_LIMIT {
            WORLD_LIMIT
        } else {
            y
        };
        WorldPoint { x: cx, y: cy }
    }

    /// The horizontal coordinate.
    pub fn x(&self) -> (v: i64)
        ensures
            v == self@.x,
            in_world(self@),
    {
        proof {
            use_type_invariant(self);
        }
        self.x
    }

    /// The vertical coordinate.
    pub fn y(&self) -> (v: i64)
        ensures
            v == self@.y,
            in_world(self@),
    {
        proof {
            use_type_invariant(self);
        }
        self.y
    }

    /// This point moved by `(dx, dy)`, saturating at the world's limit.
    pub fn moved_by(&self, dx: i64, dy: i64) -> (p: WorldPoint)
        ensures
            p@ == world_point(self@.x + dx, self@.y + dy),
    {
        proof {
            use_type_invariant(self);
        }
        let nx: i128 = self.x as i128 + dx as i128;
        let ny: i128 = self.y as i128 + dy as i128;
        let limit: i128 = WORLD_LIMIT as i128;
        let cx = if nx < -limit {
            -limit
        } else if nx > limit {
            limit
        } else {
            nx
        };
        let cy = if ny < -limit {
            -limit
        } else if ny > limit {
            limit
        } else {
            ny
        };
        WorldPoint { x: cx as i64, y: cy as i64 }
    }
}

impl CanvasPoint {
    #[verifier::type_invariant]
    spec fn inv(self) -> bool {
        in_canvas_plane(self@)
    }

    /// The canvas point `(x, y)`, or nothing when a coordinate lies beyond
    /// [`CANVAS_LIMIT`].
    pub fn new(x: i64, y: i64) -> (out: Option<CanvasPoint>)
        ensures
            out.is_some() <==> in_canvas_plane(Point { x: x as int, y: y as int }),
            out matches Some(p) ==> p@ == (Point { x: x as int, y: y as int }),
    {
        if x < -CANVAS_LIMIT || x > CANVAS_LIMIT || y < -CANVAS_LIMIT || y > CANVAS_LIMIT {
            None
        } else {
            Some(CanvasPoint { x, y })
        }
    }

    /// The point that pixel `(ix, iy)` is sampled at.
    pub fn of_pixel(ix: usize, iy: usize) -> (p: CanvasPoint)
        requires
            ix <= MAX_CANVAS_SIZE,
            iy <= MAX_CANVAS_SIZE,
        ensures
            p@ == pixel_point(ix as int, iy as int),
    {
        CanvasPoint { x: (ix as i64) * SUBPIXEL, y: (iy as i64) * SUBPIXEL }
    }

    /// The horizontal coordinate.
    pub fn x(&self) -> (v: i64)
        ensures
            v == self@.x,
            in_canvas_plane(self@),
    {
        proof {
            use_type_invariant(self);
        }
        self.x
    }

    /// The vertical coordinate.
    pub fn y(&self) -> (v: i64)
        ensures
            v == self@.y,
            in_canvas_plane(self@),
    {
        proof {
            use_type_invariant(self);
        }
        self.y
    }
}

/// Maps a world point to the canvas plane of a canvas of side `texture_size`.
pub fn game_to_texture_vec(game_coord: WorldPoint, texture_size: usize) -> (out: CanvasPoint)
    requires
        texture_size <= MAX_CANVAS_SIZE,
    ensures
        out@ == to_canvas(game_coord@, texture_size as int),
{
    let gx = game_coord.x();
    let gy = game_coord.y();
    let size = texture_size as i64;
    assert((gx + WORLD_ONE) * size <= CANVAS_LIMIT && (gx + WORLD_ONE) * size >= -CANVAS_LIMIT)
        by (nonlinear_arith)
        requires
            -4398046511104 <= gx <= 4398046511104,
            0 <= size <= 4096,
    ;
    assert((WORLD_ONE - gy) * size <= CANVAS_LIMIT && (WORLD_ONE - gy) * size >= -CANVAS_LIMIT)
        by (nonlinear_arith)
        requires
            -4398046511104 <= gy <= 4398046511104,
            0 <= size <= 4096,
    ;
    CanvasPoint { x: (gx + WORLD_ONE) * size, y: (WORLD_ONE - gy) * size }
}

/// The pixel that a world point falls on. A point off the canvas maps to
/// nothing: it is never moved onto the nearest pixel.
pub fn game_to_texture_coord(game_coord: WorldPoint, texture_size: usize) -> (out: Option<
    (usize, usize),
>)
    requires
        texture_size <= MAX_CANVAS_SIZE,
    ensures
        match to_pixel(game_coord@, texture_size as int) {
            Some((ix, iy)) => out == Some((ix as usize, iy as usize)),
            None => out.is_none(),
        },
{
    let mapped = game_to_texture_vec(game_coord, texture_size);
    let mx = mapped.x();
    let my = mapped.y();
    let edge: i64 = (texture_size as i64) * SUBPIXEL;
    proof {
        let s = texture_size as int;
        let sub = SUBPIXEL as int;
        // A coordinate lies on the canvas exactly when its pixel index does.
        assert(forall|c: int| 0 <= c < s * sub <==> 0 <= #[trigger] pixel_index(c) < s) by {
            assert forall|c: int| 0 <= c < s * sub <==> 0 <= #[trigger] pixel_index(c) < s by {
                lemma_pixel_index_range(c, s);
            }
        }
    }
    if mx < 0 || mx >= edge || my < 0 || my >= edge {
        return None;
    }
    Some(((mx / SUBPIXEL) as usize, (my / SUBPIXEL) as usize))
}

/// A canvas coordinate lies between 0 and `s` pixels exactly when its pixel
/// index lies between 0 and `s`.
pub proof fn lemma_pixel_index_range(c: int, s: int)
    ensures
        0 <= c < s * SUBPIXEL <==> 0 <= pixel_index(c) < s,
{
    let sub = SUBPIXEL as int;
    let q = c / sub;
    assert(c == sub * q + c % sub && 0 <= c % sub < sub) by {
        vstd::arithmetic::div_mod::lemma_fundamental_div_mod(c, sub);
        vstd::arithmetic::div_mod::lemma_mod_bound(c, sub);
    }
    assert(sub * q == q * sub && s * sub == sub * s) by (nonlinear_arith);
}

/// The point lies in the arena: from the left edge up to, not including, the
/// right edge, and from the top edge down to, not including, the bottom
/// edge.
pub open spec fn in_arena(p: Point) -> bool {
    -WORLD_ONE <= p.x < WORLD_ONE && -WORLD_ONE < p.y <= WORLD_ONE
}

/// On a canvas of positive size no two world points map to the same canvas
/// point.
pub proof fn lemma_mapping_is_one_to_one(p: Point, q: Point, size: int)
    requires
        size > 0,
        to_canvas(p, size) == to_canvas(q, size),
    ensures
        p == q,
{
    let w = WORLD_ONE as int;
    assert(p.x == q.x) by (nonlinear_arith)
        requires
            (p.x + w) * size == (q.x + w) * size,
            size > 0,
    ;
    assert(p.y == q.y) by (nonlinear_arith)
        requires
            (w - p.y) * size == (w - q.y) * size,
            size > 0,
    ;
}

/// The points that fall on a pixel are those of the arena.
pub proof fn lemma_arena_is_what_maps(p: Point, size: int)
    requires
        size > 0,
    ensures
        to_pixel(p, size).is_some() <==> in_arena(p),
{
    let w = WORLD_ONE as int;
    let c = to_canvas(p, size);
    lemma_pixel_index_range(c.x, size);
    lemma_pixel_index_range(c.y, size);
    assert(size * 2097152 == (2 * w) * size) by (nonlinear_arith)
        requires
            w == 1048576,
    ;
    assert(0 <= (p.x + w) * size < (2 * w) * size <==> 0 <= p.x + w < 2 * w) by (nonlinear_arith)
        requires
            size > 0,
    ;
    assert(0 <= (w - p.y) * size < (2 * w) * size <==> 0 <= w - p.y < 2 * w) by (nonlinear_arith)
        requires
            size > 0,
    ;
}

/// The top left corner of the arena is the corner of the first pixel, and the
/// bottom right corner of the arena is the far corner of the last one.
pub proof fn lemma_corners_of_the_arena(size: int)
    ensures
        to_canvas(Point { x: -WORLD_ONE as int, y: WORLD_ONE as int }, size) == pixel_point(0, 0),
        to_canvas(Point { x: WORLD_ONE as int, y: -WORLD_ONE as int }, size) == pixel_point(
            size,
            size,
        ),
{
    assert(0 * size == 0 && 2097152 * size == size * 2097152) by (nonlinear_arith);
}

} // verus!
