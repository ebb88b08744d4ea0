//! The integer half of the raster sink: the binary P6 header, the frame
//! buffer's size and background fill, and the clipped pixel rectangles
//! ink is rasterized into.
use vstd::prelude::*;

use crate::prim::Rgb;
use crate::text::{decimal_bytes, push_decimal_bytes};

verus! {

/// The P6 header for a `width` x `height` raster: magic, dimensions, and a
/// maxval of 255, each line ended by `\n`.
pub open spec fn ppm_header_bytes(width: u32, height: u32) -> Seq<u8> {
    seq![0x50u8, 0x36, 0x0A] + decimal_bytes(width as nat) + seq![0x20u8] + decimal_bytes(
        height as nat,
    ) + seq![0x0Au8, 0x32, 0x35, 0x35, 0x0A]
}

/// The ASCII header of every frame file: `P6\n{w} {h}\n255\n`.
pub fn ppm_header(width: u32, height: u32) -> (header: Vec<u8>)
    ensures
        header@ == ppm_header_bytes(width, height),
{
    let mut out: Vec<u8> = Vec::new();
    out.push(0x50);
    out.push(0x36);
    out.push(0x0A);
    push_decimal_bytes(&mut out, width as u64);
    out.push(0x20);
    push_decimal_bytes(&mut out, height as u64);
    out.push(0x0A);
    out.push(0x32);
    out.push(0x35);
    out.push(0x35);
    out.push(0x0A);
    assert(out@ =~= ppm_header_bytes(width, height));
    out
}

/// The header of a raster sink's frames, checked: `None` when either
/// raster dimension is zero, since such a sink draws nothing at all.
pub fn raster_header(size: (u32, u32)) -> (r: Option<Vec<u8>>)
    ensures
        (size.0 == 0 || size.1 == 0) <==> r is None,
        r matches Some(h) ==> h@ == ppm_header_bytes(size.0, size.1),
{
    if size.0 == 0 || size.1 == 0 {
        None
    } else {
        Some(ppm_header(size.0, size.1))
    }
}

/// The byte length `w·h·3` of a frame's pixel data, or `None` when the
/// frame is too large for it to fit in `usize`.
pub fn frame_byte_len(size: (u32, u32)) -> (len: Option<usize>)
    ensures
        size.0 * size.1 * 3 <= usize::MAX ==> len == Some((size.0 * size.1 * 3) as usize),
        size.0 * size.1 * 3 > usize::MAX ==> len is None,
{
    assert(size.0 * size.1 * 3 <= 0xffff_ffff * 0xffff_ffff * 3) by (nonlinear_arith)
        requires
            size.0 <= 0xffff_ffff,
            size.1 <= 0xffff_ffff,
    ;
    let bytes: u128 = size.0 as u128 * size.1 as u128 * 3;
    if bytes <= usize::MAX as u128 {
        Some(bytes as usize)
    } else {
        None
    }
}

/// Refill every whole pixel with the background triple: no frame inherits a
/// pixel from its predecessor. A trailing partial pixel (fewer than three
/// bytes) is left as it was.
pub fn fill_background(pixels: &mut Vec<u8>, background: Rgb)
    ensures
        final(pixels)@.len() == old(pixels)@.len(),
        forall|i: int|
            0 <= i < old(pixels)@.len() - old(pixels)@.len() % 3 ==> #[trigger] final(pixels)@[i]
                == background.channels()[i % 3],
        forall|i: int|
            old(pixels)@.len() - old(pixels)@.len() % 3 <= i < old(pixels)@.len()
                ==> #[trigger] final(pixels)@[i] == old(pixels)@[i],
{
    let len = pixels.len();
    let whole = len - len % 3;
    let mut i: usize = 0;
    while i < whole
        invariant
            len == old(pixels)@.len(),
            whole == len - len % 3,
            i % 3 == 0,
            i <= whole,
            pixels@.len() == len,
            forall|j: int| 0 <= j < i ==> #[trigger] pixels@[j] == background.channels()[j % 3],
            forall|j: int| i <= j < len ==> #[trigger] pixels@[j] == old(pixels)@[j],
        decreases whole - i,
    {
        pixels.set(i, background.r);
        pixels.set(i + 1, background.g);
        pixels.set(i + 2, background.b);
        i = i + 3;
    }
}

/// A half-open pixel rectangle `[x0, x1) × [y0, y1)` on the canvas — the
/// region ink can reach. A well-formed tile is never empty.
#[derive(Clone, Copy, Debug, PartialEq, Eq, Structural)]
pub struct Tile {
    /// Left column, inclusive.
    pub x0: u32,
    /// Top row, inclusive.
    pub y0: u32,
    /// Right column, exclusive.
    pub x1: u32,
    /// Bottom row, exclusive.
    pub y1: u32,
}

/// `v` clamped to `[lo, hi]`.
pub open spec fn clamp(v: int, lo: int, hi: int) -> int {
    if v < lo {
        lo
    } else if v > hi {
        hi
    } else {
        v
    }
}

/// The tile with these corners when it is non-empty, `None` otherwise.
pub open spec fn tile_of(x0: int, y0: int, x1: int, y1: int) -> Option<Tile> {
    if x0 < x1 && y0 < y1 {
        Some(Tile { x0: x0 as u32, y0: y0 as u32, x1: x1 as u32, y1: y1 as u32 })
    } else {
        None
    }
}

impl Tile {
    /// Both extents are positive.
    pub open spec fn wf(self) -> bool {
        self.x0 < self.x1 && self.y0 < self.y1
    }

    /// Whether pixel `(x, y)` lies inside.
    pub open spec fn contains(self, x: int, y: int) -> bool {
        self.x0 <= x < self.x1 && self.y0 <= y < self.y1
    }

    /// The number of pixels covered.
    pub open spec fn spec_area(self) -> int {
        (self.x1 - self.x0) * (self.y1 - self.y0)
    }

    /// The row-major offset of `(x, y)` within the tile.
    pub open spec fn spec_offset(self, x: int, y: int) -> int {
        (y - self.y0) * (self.x1 - self.x0) + (x - self.x0)
    }

    /// The common part of two tiles, `None` when they do not overlap.
    pub open spec fn meet(self, o: Tile) -> Option<Tile> {
        tile_of(
            if self.x0 >= o.x0 { self.x0 as int } else { o.x0 as int },
            if self.y0 >= o.y0 { self.y0 as int } else { o.y0 as int },
            if self.x1 <= o.x1 { self.x1 as int } else { o.x1 as int },
            if self.y1 <= o.y1 { self.y1 as int } else { o.y1 as int },
        )
    }

    /// A tile from its corners; `None` when it would be empty.
    pub fn new(x0: u32, y0: u32, x1: u32, y1: u32) -> (t: Option<Tile>)
        ensures
            t == tile_of(x0 as int, y0 as int, x1 as int, y1 as int),
    {
        if x0 < x1 && y0 < y1 {
            Some(Tile { x0, y0, x1, y1 })
        } else {
            None
        }
    }

    /// Clip an integer destination rectangle to a `dims` canvas: each
    /// coordinate is clamped to `[0, dim]`, and an empty result is `None`.
    pub fn clip(x0: i64, y0: i64, x1: i64, y1: i64, dims: (u32, u32)) -> (t: Option<Tile>)
        ensures
            t == tile_of(
                clamp(x0 as int, 0, dims.0 as int),
                clamp(y0 as int, 0, dims.1 as int),
                clamp(x1 as int, 0, dims.0 as int),
                clamp(y1 as int, 0, dims.1 as int),
            ),
    {
        let cx0 = clamp_to(x0, dims.0);
        let cy0 = clamp_to(y0, dims.1);
        let cx1 = clamp_to(x1, dims.0);
        let cy1 = clamp_to(y1, dims.1);
        Tile::new(cx0, cy0, cx1, cy1)
    }

    /// The overlap with `other`; `None` when `other` is `None` or the two
    /// do not overlap.
    pub fn intersect(self, other: Option<Tile>) -> (t: Option<Tile>)
        ensures
            t == match other {
                Some(o) => self.meet(o),
                None => None,
            },
    {
        let o = match other {
            Some(o) => o,
            None => return None,
        };
        let x0 = if self.x0 >= o.x0 { self.x0 } else { o.x0 };
        let y0 = if self.y0 >= o.y0 { self.y0 } else { o.y0 };
        let x1 = if self.x1 <= o.x1 { self.x1 } else { o.x1 };
        let y1 = if self.y1 <= o.y1 { self.y1 } else { o.y1 };
        Tile::new(x0, y0, x1, y1)
    }

    /// How many pixels the tile covers.
    pub fn area(self) -> (n: usize)
        requires
            self.wf(),
            self.spec_area() <= usize::MAX,
        ensures
            n == self.spec_area(),
    {
        ((self.x1 - self.x0) as usize) * ((self.y1 - self.y0) as usize)
    }

    /// Row-major offset **within the tile**, not the canvas.
    pub fn offset(self, x: u32, y: u32) -> (n: usize)
        requires
            self.contains(x as int, y as int),
            self.spec_area() <= usize::MAX,
        ensures
            n == self.spec_offset(x as int, y as int),
            n < self.spec_area(),
    {
        proof {
            lemma_offset_in_range(self, x as int, y as int);
        }
        ((y - self.y0) as usize) * ((self.x1 - self.x0) as usize) + ((x - self.x0) as usize)
    }
}

/// `v` clamped to `[0, hi]`, as a pixel coordinate.
fn clamp_to(v: i64, hi: u32) -> (c: u32)
    ensures
        c == clamp(v as int, 0, hi as int),
{
    if v < 0 {
        0
    } else if v > hi as i64 {
        hi
    } else {
        v as u32
    }
}

/// Every pixel of a tile has an offset below the tile's area.
proof fn lemma_offset_in_range(t: Tile, x: int, y: int)
    requires
        t.contains(x, y),
    ensures
        0 <= t.spec_offset(x, y) < t.spec_area(),
{
    let w = t.x1 - t.x0;
    let h = t.y1 - t.y0;
    let dy = y - t.y0;
    let dx = x - t.x0;
    assert(0 <= dy * w + dx < h * w) by (nonlinear_arith)
        requires
            0 <= dy < h,
            0 <= dx < w,
    ;
    assert(h * w == w * h) by (nonlinear_arith);
}

/// Intersection does not depend on the order of its operands.
pub proof fn law_meet_commutes(a: Tile, b: Tile)
    ensures
        a.meet(b) == b.meet(a),
{
}

/// A pixel lies in the intersection of two tiles exactly when it lies in
/// both; well-formed tiles that share no pixel intersect to `None`.
pub proof fn law_meet_is_common_part(a: Tile, b: Tile, x: int, y: int)
    ensures
        (a.meet(b) matches Some(m) && m.contains(x, y)) <==> (a.contains(x, y) && b.contains(x, y)),
        a.meet(b) matches Some(m) ==> m.wf(),
{
}

/// Row-major offsets within a tile are distinct for distinct pixels and
/// land in `[0, area)`: the tile's scratch buffer is indexed without
/// collisions.
pub proof fn law_offset_is_injective(t: Tile, x: int, y: int, u: int, v: int)
    requires
        t.contains(x, y),
        t.contains(u, v),
        t.spec_offset(x, y) == t.spec_offset(u, v),
    ensures
        x == u && y == v,
        0 <= t.spec_offset(x, y) < t.spec_area(),
{
    lemma_offset_in_range(t, x, y);
    let w = t.x1 - t.x0;
    let dy1 = y - t.y0;
    let dy2 = v - t.y0;
    let dx1 = x - t.x0;
    let dx2 = u - t.x0;
    assert(dy1 == dy2 && dx1 == dx2) by (nonlinear_arith)
        requires
            0 <= dx1 < w,
            0 <= dx2 < w,
            0 <= dy1,
            0 <= dy2,
            dy1 * w + dx1 == dy2 * w + dx2,
    {
        if dy1 < dy2 {
            assert(dy1 * w + w <= dy2 * w);
        } else if dy2 < dy1 {
            assert(dy2 * w + w <= dy1 * w);
        }
    }
}

/// Offsets walk a tile in row-major order: the top-left pixel is offset 0,
/// a step right along a row is one more, and the first pixel of a row
/// follows the last pixel of the row above.
pub proof fn law_offset_is_row_major(t: Tile, x: int, y: int)
    requires
        t.contains(x, y),
    ensures
        t.spec_offset(t.x0 as int, t.y0 as int) == 0,
        x + 1 < t.x1 ==> t.spec_offset(x + 1, y) == t.spec_offset(x, y) + 1,
        y + 1 < t.y1 ==> t.spec_offset(t.x0 as int, y + 1) == t.spec_offset(t.x1 - 1, y) + 1,
        0 <= t.spec_offset(x, y) < t.spec_area(),
{
    lemma_offset_in_range(t, x, y);
    let w = t.x1 - t.x0;
    let dy = y - t.y0;
    assert((dy + 1) * w == dy * w + w) by (nonlinear_arith);
}

/// Every offset below a well-formed tile's area is the offset of exactly
/// the pixel `(x0 + n mod w, y0 + n div w)` of the tile, `w` its width: the
/// offsets cover the scratch buffer with no gap.
pub proof fn law_offset_is_onto(t: Tile, n: int)
    requires
        t.wf(),
        0 <= n < t.spec_area(),
    ensures
        t.contains(t.x0 + n % (t.x1 - t.x0), t.y0 + n / (t.x1 - t.x0)),
        t.spec_offset(t.x0 + n % (t.x1 - t.x0), t.y0 + n / (t.x1 - t.x0)) == n,
{
    let w = t.x1 - t.x0;
    let h = t.y1 - t.y0;
    assert(0 <= n / w < h && 0 <= n % w < w && (n / w) * w + n % w == n) by (nonlinear_arith)
        requires
            w > 0,
            h > 0,
            0 <= n < w * h,
    {
        assert(n == w * (n / w) + n % w);
        if n / w >= h {
            assert(w * (n / w) >= w * h);
        }
    }
}

/// A clipped rectangle never reaches outside its canvas.
pub proof fn law_clip_stays_on_canvas(x0: int, y0: int, x1: int, y1: int, dims: (u32, u32), x: int, y: int)
    ensures
        tile_of(
            clamp(x0, 0, dims.0 as int),
            clamp(y0, 0, dims.1 as int),
            clamp(x1, 0, dims.0 as int),
            clamp(y1, 0, dims.1 as int),
        ) matches Some(t) ==> (t.contains(x, y) ==> 0 <= x < dims.0 && 0 <= y < dims.1),
{
}

} // verus!
