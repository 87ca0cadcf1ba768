//! The arena's pixel buffer.

use vstd::prelude::*;

verus! {

/// One pixel: four channels of eight bits.
#[derive(Clone, Copy, Debug, PartialEq, Eq, Structural)]
pub struct Rgba {
    pub r: u8,
    pub g: u8,
    pub b: u8,
    pub a: u8,
}

impl Rgba {
    /// The colour of an untouched canvas: every channel zero.
    pub open spec fn clear() -> Rgba {
        Rgba { r: 0, g: 0, b: 0, a: 0 }
    }

    /// A pixel blocks a player when its alpha channel is not zero.
    pub open spec fn is_opaque(self) -> bool {
        self.a != 0
    }

    /// The same colour with full alpha, as a trail is painted.
    pub open spec fn solid(self) -> Rgba {
        Rgba { r: self.r, g: self.g, b: self.b, a: 255 }
    }

    /// The same colour with full alpha.
    pub fn to_solid(self) -> (out: Rgba)
        ensures
            out == self.solid(),
    {
        Rgba { r: self.r, g: self.g, b: self.b, a: 255 }
    }
}

/// The model of a [`Canvas`]: its side and the colour of each of its pixels.
pub struct CanvasModel {
    pub side: int,
    pub pixels: Map<(int, int), Rgba>,
}

impl CanvasModel {
    /// `(x, y)` names a pixel of the canvas.
    pub open spec fn contains(self, x: int, y: int) -> bool {
        0 <= x < self.side && 0 <= y < self.side
    }

    /// The canvas is a full square of pixels.
    pub open spec fn wf(self) -> bool {
        forall|x: int, y: int| self.contains(x, y) <==> #[trigger] self.pixels.dom().contains((x, y))
    }

    /// A canvas of the given side on which every pixel is clear.
    pub open spec fn blank(side: int) -> CanvasModel {
        CanvasModel {
            side,
            pixels: Map::new(
                |p: (int, int)| 0 <= p.0 < side && 0 <= p.1 < side,
                |p: (int, int)| Rgba::clear(),
            ),
        }
    }

    /// The canvas with one pixel overwritten; unchanged when the pixel lies
    /// outside.
    pub open spec fn with_pixel(self, x: int, y: int, color: Rgba) -> CanvasModel {
        if self.contains(x, y) {
            CanvasModel { side: self.side, pixels: self.pixels.insert((x, y), color) }
        } else {
            self
        }
    }

    /// Whether the pixel at `(x, y)` is opaque.
    pub open spec fn is_opaque_at(self, x: int, y: int) -> bool {
        self.pixels[(x, y)].is_opaque()
    }
}

/// Largest side length a canvas may have.
pub const MAX_CANVAS_SIZE: usize = 4096;

/// A square grid of RGBA pixels, stored row by row, four bytes per pixel.
pub struct Canvas {
    size: usize,
    data: Vec<u8>,
}

/// Offset of the first byte of pixel `(x, y)` in a buffer of side `size`.
pub open spec fn pixel_offset(size: int, x: int, y: int) -> int {
    (y * size + x) * 4
}

/// Every pixel of the grid lies inside the buffer.
pub proof fn lemma_pixel_offset_in_range(size: int, x: int, y: int)
    requires
        0 <= x < size,
        0 <= y < size,
    ensures
        0 <= pixel_offset(size, x, y),
        pixel_offset(size, x, y) + 4 <= size * size * 4,
{
    assert(y * size + x + 1 <= size * size) by (nonlinear_arith)
        requires
            0 <= x < size,
            0 <= y < size,
    ;
    assert(0 <= y * size) by (nonlinear_arith)
        requires
            0 <= y,
            0 < size,
    ;
}

/// Two different pixels never share a byte.
pub proof fn lemma_pixel_offset_distinct(size: int, x1: int, y1: int, x2: int, y2: int)
    requires
        0 <= x1 < size,
        0 <= x2 < size,
        0 <= y1,
        0 <= y2,
        (x1, y1) != (x2, y2),
    ensures
        pixel_offset(size, x1, y1) + 4 <= pixel_offset(size, x2, y2)
            || pixel_offset(size, x2, y2) + 4 <= pixel_offset(size, x1, y1),
{
    if y1 < y2 {
        assert(y1 * size + size <= y2 * size) by (nonlinear_arith)
            requires
                y1 < y2,
                0 < size,
        ;
    } else if y2 < y1 {
        assert(y2 * size + size <= y1 * size) by (nonlinear_arith)
            requires
                y2 < y1,
                0 < size,
        ;
    }
}

/// The bytes are the pixels of the canvas: row by row, four bytes per pixel
/// in the order red, green, blue, alpha.
pub open spec fn shows(bytes: Seq<u8>, canvas: CanvasModel) -> bool {
    &&& bytes.len() == canvas.side * canvas.side * 4
    &&& forall|x: int, y: int|
        canvas.contains(x, y) ==> #[trigger] canvas.pixels[(x, y)] == (Rgba {
            r: bytes[pixel_offset(canvas.side, x, y)],
            g: bytes[pixel_offset(canvas.side, x, y) + 1],
            b: bytes[pixel_offset(canvas.side, x, y) + 2],
            a: bytes[pixel_offset(canvas.side, x, y) + 3],
        })
}

/// The model of every canvas is a full square of pixels.
pub proof fn lemma_view_is_well_formed(canvas: Canvas)
    ensures
        canvas@.wf(),
{
}

impl Canvas {
    /// The buffer has the length its side calls for.
    #[verifier::type_invariant]
    spec fn wf(&self) -> bool {
        &&& 0 < self.size <= MAX_CANVAS_SIZE
        &&& self.data.len() == self.size * self.size * 4
    }

    /// Side length in pixels.
    pub closed spec fn side(&self) -> int {
        self.size as int
    }

    /// The raw bytes, row by row.
    pub closed spec fn bytes(&self) -> Seq<u8> {
        self.data@
    }

    /// The pixel in column `x` of row `y`.
    pub open spec fn at(&self, x: int, y: int) -> Rgba {
        let o = pixel_offset(self.side(), x, y);
        Rgba {
            r: self.bytes()[o],
            g: self.bytes()[o + 1],
            b: self.bytes()[o + 2],
            a: self.bytes()[o + 3],
        }
    }

    /// The canvas as a map from pixels to colours.
    pub open spec fn view(&self) -> CanvasModel {
        CanvasModel {
            side: self.side(),
            pixels: Map::new(
                |p: (int, int)| self.contains(p.0, p.1),
                |p: (int, int)| self.at(p.0, p.1),
            ),
        }
    }

    /// `(x, y)` names a pixel of this canvas.
    pub open spec fn contains(&self, x: int, y: int) -> bool {
        0 <= x < self.side() && 0 <= y < self.side()
    }

    /// Every pixel is clear.
    pub open spec fn is_blank(&self) -> bool {
        forall|x: int, y: int| self.contains(x, y) ==> #[trigger] self.at(x, y) == Rgba::clear()
    }

    /// A blank canvas of the given side, or nothing when the side is zero or
    /// larger than [`MAX_CANVAS_SIZE`].
    pub fn new(size: usize) -> (out: Option<Canvas>)
        ensures
            out.is_some() <==> 0 < size <= MAX_CANVAS_SIZE,
            out matches Some(c) ==> c.side() == size && c.is_blank() && c@ == CanvasModel::blank(
                size as int,
            ),
    {
        if size == 0 || size > MAX_CANVAS_SIZE {
            return None;
        }
        assert(size * size * 4 <= 4096 * 4096 * 4) by (nonlinear_arith)
            requires
                0 < size <= 4096,
        ;
        let data = vec![0u8; size * size * 4];
        let c = Canvas { size, data };
        proof {
            assert forall|x: int, y: int| c.contains(x, y) implies #[trigger] c.at(x, y)
                == Rgba::clear() by {
                lemma_pixel_offset_in_range(size as int, x, y);
            }
            assert(c@.pixels =~= CanvasModel::blank(size as int).pixels);
        }
        Some(c)
    }

    /// Side length in pixels.
    pub fn size(&self) -> (n: usize)
        ensures
            n == self.side(),
            n == self@.side,
            0 < n <= MAX_CANVAS_SIZE,
    {
        proof {
            use_type_invariant(self);
        }
        self.size
    }

    /// The pixel at `(x, y)`, or nothing when it lies outside the canvas.
    pub fn get(&self, x: usize, y: usize) -> (out: Option<Rgba>)
        ensures
            out == if self.contains(x as int, y as int) {
                Some(self.at(x as int, y as int))
            } else {
                None
            },
    {
        proof {
            use_type_invariant(self);
        }
        if x >= self.size || y >= self.size {
            return None;
        }
        proof {
            lemma_pixel_offset_in_range(self.size as int, x as int, y as int);
        }
        let o = (y * self.size + x) * 4;
        Some(Rgba { r: self.data[o], g: self.data[o + 1], b: self.data[o + 2], a: self.data[o + 3] })
    }

    /// Whether the pixel at `(x, y)` is opaque; nothing when it lies outside
    /// the canvas.
    pub fn sample(&self, x: usize, y: usize) -> (out: Option<bool>)
        ensures
            out == if self.contains(x as int, y as int) {
                Some(self.at(x as int, y as int).is_opaque())
            } else {
                None
            },
            out == if self@.contains(x as int, y as int) {
                Some(self@.is_opaque_at(x as int, y as int))
            } else {
                None::<bool>
            },
    {
        match self.get(x, y) {
            Some(p) => Some(p.a != 0),
            None => None,
        }
    }

    /// Overwrites all four channels of the pixel at `(x, y)`. Returns whether
    /// the pixel exists; a write outside the canvas changes nothing.
    pub fn paint(&mut self, x: usize, y: usize, color: Rgba) -> (done: bool)
        ensures
            final(self).side() == old(self).side(),
            done == old(self).contains(x as int, y as int),
            !done ==> *final(self) == *old(self),
            done ==> final(self).at(x as int, y as int) == color,
            final(self)@ == old(self)@.with_pixel(x as int, y as int, color),
            forall|u: int, v: int|
                old(self).contains(u, v) && (u, v) != (x as int, y as int)
                    ==> #[trigger] final(self).at(u, v) == old(self).at(u, v),
    {
        proof {
            use_type_invariant(&*self);
        }
        if x >= self.size || y >= self.size {
            return false;
        }
        proof {
            lemma_pixel_offset_in_range(self.size as int, x as int, y as int);
        }
        let o = (y * self.size + x) * 4;
        self.data[o] = color.r;
        self.data[o + 1] = color.g;
        self.data[o + 2] = color.b;
        self.data[o + 3] = color.a;
        proof {
            assert forall|u: int, v: int|
                old(self).contains(u, v) && (u, v) != (x as int, y as int)
                implies #[trigger] self.at(u, v) == old(self).at(u, v) by {
                lemma_pixel_offset_distinct(self.size as int, x as int, y as int, u, v);
                lemma_pixel_offset_in_range(self.size as int, u, v);
            }
            assert(self@.pixels =~= old(self)@.with_pixel(x as int, y as int, color).pixels);
        }
        true
    }

    /// Zeroes every pixel.
    pub fn clear(&mut self)
        ensures
            final(self).side() == old(self).side(),
            final(self).is_blank(),
            final(self)@ == CanvasModel::blank(old(self).side()),
    {
        proof {
            use_type_invariant(&*self);
        }
        let n = self.data.len();
        let mut i: usize = 0;
        while i < n
            invariant
                n == self.data.len(),
                self.size == old(self).size,
                0 < self.size <= MAX_CANVAS_SIZE,
                n == self.size * self.size * 4,
                i <= n,
                forall|k: int| 0 <= k < i ==> self.data@[k] == 0,
            decreases n - i,
        {
            self.data[i] = 0;
            i += 1;
        }
        proof {
            assert forall|x: int, y: int| self.contains(x, y) implies #[trigger] self.at(x, y)
                == Rgba::clear() by {
                lemma_pixel_offset_in_range(self.size as int, x, y);
            }
            assert(self@.pixels =~= CanvasModel::blank(old(self).side()).pixels);
        }
    }

    /// The raw bytes for display: row by row, four per pixel in the order
    /// red, green, blue, alpha.
    pub fn as_bytes(&self) -> (out: &Vec<u8>)
        ensures
            out@ == self.bytes(),
            out@.len() == self.side() * self.side() * 4,
            shows(out@, self@),
    {
        proof {
            use_type_invariant(self);
        }
        &self.data
    }
}

} // verus!
