//! The frame buffer behind a rotated drawing surface.
//!
//! Bit `x + y * width` of the frame buffer holds the panel pixel at
//! column `x`, row `y`: set for white (`BinaryColor::Off`), clear for
//! black (`BinaryColor::On`). The drawing plane is the panel turned by
//! the display's rotation; its bounding box maps one to one onto the
//! panel's pixels, and a point outside it is not drawn.

use vstd::prelude::*;
use fixedbitset::FixedBitSet;
use crate::bitset::{
    bitset_bits, bitset_blocks, bitset_clear, bitset_insert, bitset_insert_all, bitset_remove,
    bitset_with_capacity, padding_clear,
};
use crate::error::DisplayError;
use crate::geometry::{BinaryColor, Pixel, Point, Rectangle, Size};

verus! {

/// Display rotation.
#[derive(Clone, Copy, Debug, PartialEq, Eq, Structural)]
pub enum DisplayRotation {
    /// No rotation, normal display
    Rotate0,
    /// Rotate by 90 degrees clockwise
    Rotate90,
    /// Rotate by 180 degrees clockwise
    Rotate180,
    /// Rotate 270 degrees clockwise
    Rotate270,
}

/// Where point `(x, y)` of the rotated drawing plane lands on a panel of
/// `w` by `h` pixels: the plane is the panel turned by `rotation`.
pub open spec fn rotate_point(rotation: DisplayRotation, w: int, h: int, x: int, y: int) -> (int, int) {
    match rotation {
        DisplayRotation::Rotate0 => (x, y),
        DisplayRotation::Rotate90 => (w - 1 - y, x),
        DisplayRotation::Rotate180 => (w - 1 - x, h - 1 - y),
        DisplayRotation::Rotate270 => (y, h - 1 - x),
    }
}

/// The frame buffer bit that point `p` is drawn into, if it lands on the
/// panel.
pub open spec fn frame_bit(dims: Size, rotation: DisplayRotation, p: Point) -> Option<int> {
    let w = dims.width as int;
    let h = dims.height as int;
    let t = rotate_point(rotation, w, h, p.x as int, p.y as int);
    if 0 <= t.0 < w && 0 <= t.1 < h {
        Some(t.0 + t.1 * w)
    } else {
        None
    }
}

/// The frame buffer bits after drawing one pixel.
pub open spec fn draw_pixel_bits(bits: Seq<bool>, dims: Size, rotation: DisplayRotation, px: Pixel) -> Seq<bool> {
    match frame_bit(dims, rotation, px.0) {
        Some(i) => bits.update(i, px.1 == BinaryColor::Off),
        None => bits,
    }
}

/// The frame buffer bits after drawing `pixels` in order.
pub open spec fn draw_bits(bits: Seq<bool>, dims: Size, rotation: DisplayRotation, pixels: Seq<Pixel>) -> Seq<bool>
    decreases pixels.len(),
{
    if pixels.len() == 0 {
        bits
    } else {
        draw_pixel_bits(draw_bits(bits, dims, rotation, pixels.drop_last()), dims, rotation, pixels.last())
    }
}

/// The frame buffer bits after filling it with `color`.
pub open spec fn filled_bits(len: nat, color: BinaryColor) -> Seq<bool> {
    Seq::new(len, |i: int| color == BinaryColor::Off)
}

/// The bounding box of the drawing plane: the panel, turned on its side
/// for a quarter turn.
pub open spec fn bounding_rect(dims: Size, rotation: DisplayRotation) -> Rectangle {
    let origin = Point { x: 0, y: 0 };
    match rotation {
        DisplayRotation::Rotate0 | DisplayRotation::Rotate180 => Rectangle { top_left: origin, size: dims },
        DisplayRotation::Rotate90 | DisplayRotation::Rotate270 => Rectangle {
            top_left: origin,
            size: Size { width: dims.height, height: dims.width },
        },
    }
}

/// `p` lies inside `r`.
pub open spec fn in_rect(r: Rectangle, p: Point) -> bool {
    &&& r.top_left.x <= p.x < r.top_left.x + r.size.width
    &&& r.top_left.y <= p.y < r.top_left.y + r.size.height
}

proof fn lemma_index_below_area(x: int, y: int, w: int, h: int)
    requires
        0 <= x < w,
        0 <= y < h,
    ensures
        0 <= y * w,
        x + y * w < w * h,
{
    assert(0 <= y * w) by (nonlinear_arith)
        requires 0 <= y, 0 <= w;
    assert(y * w <= (h - 1) * w) by (nonlinear_arith)
        requires y <= h - 1, 0 <= w;
    assert((h - 1) * w == w * h - w) by (nonlinear_arith);
}

/// The points that have a frame buffer bit are exactly the points of the
/// bounding box; a point outside it is not drawn.
pub proof fn lemma_drawable_area(dims: Size, rotation: DisplayRotation, p: Point)
    ensures
        frame_bit(dims, rotation, p) is Some <==> in_rect(bounding_rect(dims, rotation), p),
{
}

proof fn lemma_index_unique(x1: int, y1: int, x2: int, y2: int, w: int)
    requires
        0 <= x1 < w,
        0 <= x2 < w,
        x1 + y1 * w == x2 + y2 * w,
    ensures
        x1 == x2,
        y1 == y2,
{
    assert((y1 - y2) * w == x2 - x1) by (nonlinear_arith)
        requires x1 + y1 * w == x2 + y2 * w;
    if y1 > y2 {
        assert((y1 - y2) * w >= w) by (nonlinear_arith)
            requires y1 - y2 >= 1, w >= 0;
    } else if y1 < y2 {
        assert((y2 - y1) * w >= w) by (nonlinear_arith)
            requires y2 - y1 >= 1, w >= 0;
        assert((y1 - y2) * w == -((y2 - y1) * w)) by (nonlinear_arith);
    }
}

/// Two different points never share a frame buffer bit, so drawing one
/// pixel leaves every other point's pixel as it was.
pub proof fn lemma_distinct_points_distinct_bits(dims: Size, rotation: DisplayRotation, p: Point, q: Point)
    requires
        frame_bit(dims, rotation, p) is Some,
        frame_bit(dims, rotation, q) is Some,
        p != q,
    ensures
        frame_bit(dims, rotation, p) != frame_bit(dims, rotation, q),
{
    let w = dims.width as int;
    let h = dims.height as int;
    let tp = rotate_point(rotation, w, h, p.x as int, p.y as int);
    let tq = rotate_point(rotation, w, h, q.x as int, q.y as int);
    if frame_bit(dims, rotation, p) == frame_bit(dims, rotation, q) {
        lemma_index_unique(tp.0, tp.1, tq.0, tq.1, w);
        assert(p.x == q.x && p.y == q.y);
    }
}

proof fn lemma_frame_bit_in_range(dims: Size, rotation: DisplayRotation, p: Point)
    requires
        frame_bit(dims, rotation, p) is Some,
    ensures
        0 <= frame_bit(dims, rotation, p)->0 < dims.width * dims.height,
{
    let w = dims.width as int;
    let h = dims.height as int;
    let t = rotate_point(rotation, w, h, p.x as int, p.y as int);
    lemma_index_below_area(t.0, t.1, w, h);
}

/// Every frame buffer bit is the bit of a point of the bounding box:
/// together with the two laws above, the bounding box maps one to one
/// onto the frame buffer's bits, whatever the rotation.
pub proof fn lemma_every_bit_drawable(dims: Size, rotation: DisplayRotation, i: int)
    requires
        dims.width <= i32::MAX,
        dims.height <= i32::MAX,
        0 <= i < dims.width * dims.height,
    ensures
        exists|p: Point| #[trigger] frame_bit(dims, rotation, p) == Some(i)
            && in_rect(bounding_rect(dims, rotation), p),
{
    let w = dims.width as int;
    let h = dims.height as int;
    assert(w > 0) by (nonlinear_arith)
        requires 0 <= i < w * h, h >= 0;
    let tx = i % w;
    let ty = i / w;
    assert(i == tx + ty * w && 0 <= tx < w && 0 <= ty < h) by (nonlinear_arith)
        requires w > 0, 0 <= i < w * h, tx == i % w, ty == i / w;
    let p = match rotation {
        DisplayRotation::Rotate0 => Point { x: tx as i32, y: ty as i32 },
        DisplayRotation::Rotate90 => Point { x: ty as i32, y: (w - 1 - tx) as i32 },
        DisplayRotation::Rotate180 => Point { x: (w - 1 - tx) as i32, y: (h - 1 - ty) as i32 },
        DisplayRotation::Rotate270 => Point { x: (h - 1 - ty) as i32, y: tx as i32 },
    };
    assert(frame_bit(dims, rotation, p) == Some(i));
    lemma_drawable_area(dims, rotation, p);
}

proof fn lemma_draw_keeps_length(bits: Seq<bool>, dims: Size, rotation: DisplayRotation, pixels: Seq<Pixel>)
    requires
        bits.len() == dims.width * dims.height,
    ensures
        draw_bits(bits, dims, rotation, pixels).len() == bits.len(),
    decreases pixels.len(),
{
    if pixels.len() > 0 {
        lemma_draw_keeps_length(bits, dims, rotation, pixels.drop_last());
        if frame_bit(dims, rotation, pixels.last().0) is Some {
            lemma_frame_bit_in_range(dims, rotation, pixels.last().0);
        }
    }
}

/// After drawing `pixels`, the bit of a point drawn at least once is set
/// by the last pixel drawn there: set for `Off`, clear for `On`.
pub proof fn lemma_last_pixel_wins(
    bits: Seq<bool>,
    dims: Size,
    rotation: DisplayRotation,
    pixels: Seq<Pixel>,
    k: int,
)
    requires
        bits.len() == dims.width * dims.height,
        0 <= k < pixels.len(),
        frame_bit(dims, rotation, pixels[k].0) is Some,
        forall|j: int| k < j < pixels.len() ==> #[trigger] pixels[j].0 != pixels[k].0,
    ensures
        draw_bits(bits, dims, rotation, pixels)[frame_bit(dims, rotation, pixels[k].0)->0]
            == (pixels[k].1 == BinaryColor::Off),
    decreases pixels.len(),
{
    lemma_draw_keeps_length(bits, dims, rotation, pixels);
    lemma_frame_bit_in_range(dims, rotation, pixels[k].0);
    if k < pixels.len() - 1 {
        let init = pixels.drop_last();
        let last = pixels.last();
        assert(last == pixels[pixels.len() - 1]);
        assert(init[k] == pixels[k]);
        assert forall|j: int| k < j < init.len() implies #[trigger] init[j].0 != init[k].0 by {
            assert(init[j] == pixels[j]);
        }
        lemma_last_pixel_wins(bits, dims, rotation, init, k);
        lemma_draw_keeps_length(bits, dims, rotation, init);
        if frame_bit(dims, rotation, last.0) is Some {
            lemma_distinct_points_distinct_bits(dims, rotation, last.0, pixels[k].0);
            lemma_frame_bit_in_range(dims, rotation, last.0);
        }
    } else {
        lemma_draw_keeps_length(bits, dims, rotation, pixels.drop_last());
    }
}

/// After drawing `pixels`, the bit of a point that none of them is drawn
/// at is unchanged.
pub proof fn lemma_undrawn_point_unchanged(
    bits: Seq<bool>,
    dims: Size,
    rotation: DisplayRotation,
    pixels: Seq<Pixel>,
    p: Point,
)
    requires
        bits.len() == dims.width * dims.height,
        frame_bit(dims, rotation, p) is Some,
        forall|j: int| 0 <= j < pixels.len() ==> #[trigger] pixels[j].0 != p,
    ensures
        draw_bits(bits, dims, rotation, pixels)[frame_bit(dims, rotation, p)->0]
            == bits[frame_bit(dims, rotation, p)->0],
    decreases pixels.len(),
{
    if pixels.len() > 0 {
        let init = pixels.drop_last();
        assert forall|j: int| 0 <= j < init.len() implies #[trigger] init[j].0 != p by {
            assert(init[j] == pixels[j]);
        }
        lemma_undrawn_point_unchanged(bits, dims, rotation, init, p);
        lemma_draw_keeps_length(bits, dims, rotation, init);
        let last = pixels.last();
        assert(last == pixels[pixels.len() - 1]);
        if frame_bit(dims, rotation, last.0) is Some {
            lemma_distinct_points_distinct_bits(dims, rotation, last.0, p);
            lemma_frame_bit_in_range(dims, rotation, last.0);
        }
        lemma_frame_bit_in_range(dims, rotation, p);
    }
}

/// Drawing two batches of pixels one after the other is drawing them
/// joined into one.
pub proof fn lemma_draw_batches(
    bits: Seq<bool>,
    dims: Size,
    rotation: DisplayRotation,
    first: Seq<Pixel>,
    second: Seq<Pixel>,
)
    ensures
        draw_bits(draw_bits(bits, dims, rotation, first), dims, rotation, second)
            == draw_bits(bits, dims, rotation, first + second),
    decreases second.len(),
{
    if second.len() > 0 {
        lemma_draw_batches(bits, dims, rotation, first, second.drop_last());
        assert((first + second).drop_last() =~= first + second.drop_last());
        assert((first + second).last() == second.last());
    }
}

/// When every pixel drawn has colour `color`, every bit that one of them
/// lands on ends up as `color` makes it.
proof fn lemma_uniform_colour_bit(
    bits: Seq<bool>,
    dims: Size,
    rotation: DisplayRotation,
    pixels: Seq<Pixel>,
    color: BinaryColor,
    i: int,
    k: int,
)
    requires
        bits.len() == dims.width * dims.height,
        forall|j: int| 0 <= j < pixels.len() ==> #[trigger] pixels[j].1 == color,
        0 <= k < pixels.len(),
        frame_bit(dims, rotation, pixels[k].0) == Some(i),
    ensures
        draw_bits(bits, dims, rotation, pixels)[i] == (color == BinaryColor::Off),
    decreases pixels.len(),
{
    let init = pixels.drop_last();
    let last = pixels.last();
    assert(last == pixels[pixels.len() - 1]);
    lemma_draw_keeps_length(bits, dims, rotation, init);
    lemma_frame_bit_in_range(dims, rotation, pixels[k].0);
    if frame_bit(dims, rotation, last.0) != Some(i) {
        assert(k < pixels.len() - 1);
        assert(init[k] == pixels[k]);
        assert forall|j: int| 0 <= j < init.len() implies #[trigger] init[j].1 == color by {
            assert(init[j] == pixels[j]);
        }
        lemma_uniform_colour_bit(bits, dims, rotation, init, color, i, k);
        if frame_bit(dims, rotation, last.0) is Some {
            lemma_frame_bit_in_range(dims, rotation, last.0);
        }
    }
}

/// Drawing every point of the bounding box in one colour, in any order
/// and with any repeats, leaves the same frame buffer as `clear` with that
/// colour.
pub proof fn lemma_fill_box_is_clear(
    bits: Seq<bool>,
    dims: Size,
    rotation: DisplayRotation,
    pixels: Seq<Pixel>,
    color: BinaryColor,
)
    requires
        dims.width <= i32::MAX,
        dims.height <= i32::MAX,
        bits.len() == dims.width * dims.height,
        forall|j: int| 0 <= j < pixels.len() ==> #[trigger] pixels[j].1 == color,
        forall|p: Point| in_rect(bounding_rect(dims, rotation), p)
            ==> exists|j: int| 0 <= j < pixels.len() && #[trigger] pixels[j].0 == p,
    ensures
        draw_bits(bits, dims, rotation, pixels) == filled_bits(bits.len(), color),
{
    lemma_draw_keeps_length(bits, dims, rotation, pixels);
    assert forall|i: int| 0 <= i < bits.len()
        implies #[trigger] draw_bits(bits, dims, rotation, pixels)[i] == filled_bits(bits.len(), color)[i] by {
        lemma_every_bit_drawable(dims, rotation, i);
        let p = choose|p: Point| #[trigger] frame_bit(dims, rotation, p) == Some(i)
            && in_rect(bounding_rect(dims, rotation), p);
        let j = choose|j: int| 0 <= j < pixels.len() && #[trigger] pixels[j].0 == p;
        lemma_uniform_colour_bit(bits, dims, rotation, pixels, color, i, j);
    }
    assert(draw_bits(bits, dims, rotation, pixels) =~= filled_bits(bits.len(), color));
}

/// Drawing in the colour that the whole frame buffer was filled with
/// changes nothing.
pub proof fn lemma_redraw_fill_colour(
    len: nat,
    dims: Size,
    rotation: DisplayRotation,
    pixels: Seq<Pixel>,
    color: BinaryColor,
)
    requires
        len == dims.width * dims.height,
        forall|j: int| 0 <= j < pixels.len() ==> #[trigger] pixels[j].1 == color,
    ensures
        draw_bits(filled_bits(len, color), dims, rotation, pixels) == filled_bits(len, color),
    decreases pixels.len(),
{
    if pixels.len() > 0 {
        let init = pixels.drop_last();
        assert forall|j: int| 0 <= j < init.len() implies #[trigger] init[j].1 == color by {
            assert(init[j] == pixels[j]);
        }
        lemma_redraw_fill_colour(len, dims, rotation, init, color);
        let last = pixels.last();
        assert(last == pixels[pixels.len() - 1]);
        if frame_bit(dims, rotation, last.0) is Some {
            lemma_frame_bit_in_range(dims, rotation, last.0);
            assert(filled_bits(len, color).update(frame_bit(dims, rotation, last.0)->0, color == BinaryColor::Off)
                =~= filled_bits(len, color));
        }
    }
}

/// Where each rotation draws a point, in closed form, for a panel `w`
/// pixels wide and `h` high: without rotation `(x, y)` is bit
/// `x + y * w`; a quarter turn puts it at column `w - 1 - y`, row `x`; a
/// half turn at column `w - 1 - x`, row `h - 1 - y`; three quarters at
/// column `y`, row `h - 1 - x`. A point off the panel gets no bit.
pub proof fn lemma_frame_bit_closed_form(dims: Size, rotation: DisplayRotation, p: Point)
    ensures
        ({
            let w = dims.width as int;
            let h = dims.height as int;
            let x = p.x as int;
            let y = p.y as int;
            frame_bit(dims, rotation, p) == match rotation {
                DisplayRotation::Rotate0 => if 0 <= x < w && 0 <= y < h {
                    Some(x + y * w)
                } else {
                    None::<int>
                },
                DisplayRotation::Rotate90 => if 0 <= y < w && 0 <= x < h {
                    Some((w - 1 - y) + x * w)
                } else {
                    None::<int>
                },
                DisplayRotation::Rotate180 => if 0 <= x < w && 0 <= y < h {
                    Some((w - 1 - x) + (h - 1 - y) * w)
                } else {
                    None::<int>
                },
                DisplayRotation::Rotate270 => if 0 <= y < w && 0 <= x < h {
                    Some(y + (h - 1 - x) * w)
                } else {
                    None::<int>
                },
            }
        }),
{
}

/// A half turn reverses the frame buffer: the point that has bit `i`
/// without rotation has bit `w * h - 1 - i` when turned by 180 degrees.
pub proof fn lemma_half_turn_reverses(dims: Size, p: Point)
    ensures
        frame_bit(dims, DisplayRotation::Rotate0, p) is Some
            <==> frame_bit(dims, DisplayRotation::Rotate180, p) is Some,
        frame_bit(dims, DisplayRotation::Rotate0, p) is Some ==>
            frame_bit(dims, DisplayRotation::Rotate180, p)->0
                == dims.width * dims.height - 1 - frame_bit(dims, DisplayRotation::Rotate0, p)->0,
{
    lemma_frame_bit_closed_form(dims, DisplayRotation::Rotate0, p);
    lemma_frame_bit_closed_form(dims, DisplayRotation::Rotate180, p);
    let w = dims.width as int;
    let h = dims.height as int;
    let x = p.x as int;
    let y = p.y as int;
    assert((w - 1 - x) + (h - 1 - y) * w == w * h - 1 - (x + y * w)) by (nonlinear_arith);
}

/// A rotated drawing surface over a frame buffer of one bit per pixel.
pub struct EpdDisplay {
    dimensions: Size,
    rotation: DisplayRotation,
    frame_buffer: FixedBitSet,
}

impl EpdDisplay {
    /// One bit per panel pixel, the words past the last pixel clear.
    #[verifier::type_invariant]
    spec fn holds_one_bit_per_pixel(&self) -> bool {
        &&& bitset_bits(self.frame_buffer).len() == self.dimensions.width * self.dimensions.height
        &&& self.dimensions.width * self.dimensions.height <= u32::MAX
        &&& padding_clear(bitset_blocks(self.frame_buffer), bitset_bits(self.frame_buffer).len())
    }

    /// The panel's size in pixels.
    pub closed spec fn dims(&self) -> Size {
        self.dimensions
    }

    /// The rotation of the drawing plane.
    pub closed spec fn rot(&self) -> DisplayRotation {
        self.rotation
    }

    /// The frame buffer's bits.
    pub closed spec fn pixels(&self) -> Seq<bool> {
        bitset_bits(self.frame_buffer)
    }

    /// A surface over `dimensions` with every bit clear.
    pub fn new(dimensions: Size, rotation: DisplayRotation) -> (d: Self)
        requires
            dimensions.width * dimensions.height <= u32::MAX,
        ensures
            d.dims() == dimensions,
            d.rot() == rotation,
            d.pixels() == filled_bits((dimensions.width * dimensions.height) as nat, BinaryColor::On),
    {
        let pixel_count = dimensions.width * dimensions.height;
        let frame_buffer = bitset_with_capacity(pixel_count as usize);
        assert(bitset_bits(frame_buffer) =~= filled_bits(pixel_count as nat, BinaryColor::On));
        EpdDisplay { dimensions, rotation, frame_buffer }
    }

    /// The frame buffer that a driver sends to the panel: one bit per
    /// pixel, and the words that hold them clear past the last pixel.
    pub fn frame_buffer(&self) -> (fb: &FixedBitSet)
        ensures
            bitset_bits(*fb) == self.pixels(),
            self.pixels().len() == self.dims().width * self.dims().height,
            padding_clear(bitset_blocks(*fb), self.pixels().len()),
    {
        proof {
            use_type_invariant(self);
        }
        &self.frame_buffer
    }

    /// The frame buffer bit that `point` is drawn into, or `None` where
    /// the point falls outside the bounding box.
    pub fn frame_buffer_bit(&self, point: Point) -> (bit: Option<usize>)
        ensures
            match bit {
                Some(b) => frame_bit(self.dims(), self.rot(), point) == Some(b as int)
                    && b < self.pixels().len(),
                None => frame_bit(self.dims(), self.rot(), point) is None,
            },
    {
        proof {
            use_type_invariant(self);
        }
        let width = self.dimensions.width as i64;
        let height = self.dimensions.height as i64;
        let x = point.x as i64;
        let y = point.y as i64;
        let (tx, ty): (i64, i64) = match self.rotation {
            DisplayRotation::Rotate0 => (x, y),
            DisplayRotation::Rotate90 => (width - 1 - y, x),
            DisplayRotation::Rotate180 => (width - 1 - x, height - 1 - y),
            DisplayRotation::Rotate270 => (y, height - 1 - x),
        };
        if tx < 0 || ty < 0 || tx >= width || ty >= height {
            None
        } else {
            proof {
                lemma_index_below_area(tx as int, ty as int, width as int, height as int);
            }
            Some((tx + ty * width) as usize)
        }
    }

    /// Draws `pixels` in order; a pixel outside the bounding box is left
    /// out. Always succeeds.
    pub fn draw_iter(&mut self, pixels: &[Pixel]) -> (r: Result<(), DisplayError>)
        ensures
            r is Ok,
            final(self).dims() == old(self).dims(),
            final(self).rot() == old(self).rot(),
            final(self).pixels() == draw_bits(old(self).pixels(), old(self).dims(), old(self).rot(), pixels@),
    {
        proof {
            use_type_invariant(&*self);
        }
        let mut k: usize = 0;
        while k < pixels.len()
            invariant
                0 <= k <= pixels@.len(),
                self.dims() == old(self).dims(),
                self.rot() == old(self).rot(),
                self.pixels() == draw_bits(old(self).pixels(), old(self).dims(), old(self).rot(), pixels@.take(k as int)),
            decreases pixels@.len() - k,
        {
            proof {
                use_type_invariant(&*self);
            }
            let Pixel(point, color) = pixels[k];
            let bit = self.frame_buffer_bit(point);
            match bit {
                Some(b) => match color {
                    BinaryColor::On => bitset_remove(&mut self.frame_buffer, b),
                    BinaryColor::Off => bitset_insert(&mut self.frame_buffer, b),
                },
                None => {},
            }
            assert(pixels@.take(k as int + 1).drop_last() =~= pixels@.take(k as int));
            k = k + 1;
        }
        assert(pixels@.take(pixels@.len() as int) =~= pixels@);
        Ok(())
    }

    /// Fills the whole frame buffer with `color`: the same as drawing every
    /// point of the bounding box in it. Always succeeds.
    pub fn clear(&mut self, color: BinaryColor) -> (r: Result<(), DisplayError>)
        ensures
            r is Ok,
            final(self).dims() == old(self).dims(),
            final(self).rot() == old(self).rot(),
            final(self).pixels() == filled_bits(old(self).pixels().len(), color),
    {
        proof {
            use_type_invariant(&*self);
        }
        match color {
            BinaryColor::On => bitset_clear(&mut self.frame_buffer),
            BinaryColor::Off => bitset_insert_all(&mut self.frame_buffer),
        }
        assert(self.pixels() =~= filled_bits(old(self).pixels().len(), color));
        Ok(())
    }

    /// The drawing plane's bounding box.
    pub fn bounding_box(&self) -> (r: Rectangle)
        ensures
            r == bounding_rect(self.dims(), self.rot()),
    {
        let dimensions = self.dimensions;
        let origin = Point { x: 0, y: 0 };
        match self.rotation {
            DisplayRotation::Rotate0 | DisplayRotation::Rotate180 => Rectangle { top_left: origin, size: dimensions },
            DisplayRotation::Rotate90 | DisplayRotation::Rotate270 => Rectangle {
                top_left: origin,
                size: Size { width: dimensions.height, height: dimensions.width },
            },
        }
    }
}

} // verus!
