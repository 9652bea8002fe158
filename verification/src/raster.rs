//! The mathematical model of a pixel buffer, and the index arithmetic that
//! ties a flat channel offset to a `(x, y, channel)` coordinate.
use vstd::arithmetic::div_mod::lemma_fundamental_div_mod;
use vstd::arithmetic::div_mod::lemma_fundamental_div_mod_converse;
use vstd::prelude::*;
use crate::geometry::Point;

verus! {

/// A pixel buffer as a value: its dimensions, the number of channels per
/// pixel, and the channels of all pixels, row by row.
pub struct Raster {
    pub width: nat,
    pub height: nat,
    pub channels: nat,
    pub data: Seq<u8>,
}

impl Raster {
    /// The channel array has exactly one entry per channel of each pixel.
    pub open spec fn wf(self) -> bool {
        self.data.len() == self.width * self.height * self.channels
    }

    /// Whether `(x, y, c)` names a channel of a pixel of this buffer.
    pub open spec fn contains(self, x: int, y: int, c: int) -> bool {
        0 <= x < self.width && 0 <= y < self.height && 0 <= c < self.channels
    }

    /// Where channel `c` of the pixel at `(x, y)` lies in the channel array.
    pub open spec fn offset(self, x: int, y: int, c: int) -> int {
        (y * self.width + x) * self.channels + c
    }

    /// The channel `c` of the pixel at `(x, y)`.
    pub open spec fn at(self, x: int, y: int, c: int) -> u8 {
        self.data[self.offset(x, y, c)]
    }

    /// The channels of the pixel at `(x, y)`.
    pub open spec fn pixel(self, x: int, y: int) -> Seq<u8> {
        self.data.subrange(self.offset(x, y, 0), self.offset(x, y, 0) + self.channels)
    }

    /// The column of the pixel that owns offset `i`.
    pub open spec fn x_of(self, i: int) -> int {
        (i / self.channels as int) % self.width as int
    }

    /// The row of the pixel that owns offset `i`.
    pub open spec fn y_of(self, i: int) -> int {
        (i / self.channels as int) / self.width as int
    }

    /// The channel that offset `i` holds.
    pub open spec fn c_of(self, i: int) -> int {
        i % self.channels as int
    }

    /// Whether two buffers have the same shape.
    pub open spec fn same_shape(self, other: Raster) -> bool {
        self.width == other.width && self.height == other.height && self.channels
            == other.channels
    }

    /// The buffer with `data` in place of its channel array.
    pub open spec fn with_data(self, data: Seq<u8>) -> Raster {
        Raster { width: self.width, height: self.height, channels: self.channels, data }
    }

    /// The buffer with the channels of the pixel at `(x, y)` replaced by
    /// `pixel`.
    pub open spec fn with_pixel(self, x: int, y: int, pixel: Seq<u8>) -> Raster {
        self.with_data(
            Seq::new(
                self.data.len(),
                |i: int|
                    if self.offset(x, y, 0) <= i < self.offset(x, y, 0) + self.channels {
                        pixel[i - self.offset(x, y, 0)]
                    } else {
                        self.data[i]
                    },
            ),
        )
    }

    /// Whether a buffer of this size whose top left corner is put at
    /// `(ox, oy)` covers the pixel at `(x, y)`.
    pub open spec fn covers(self, ox: int, oy: int, x: int, y: int) -> bool {
        ox <= x < ox + self.width && oy <= y < oy + self.height
    }

    /// Whether a buffer of this size put at `(ox, oy)` lies inside `canvas`.
    pub open spec fn fits(self, canvas: Raster, ox: int, oy: int) -> bool {
        0 <= ox && 0 <= oy && ox + self.width <= canvas.width && oy + self.height
            <= canvas.height
    }

    /// What a channel `(x, y, c)` of a canvas holds once this buffer was
    /// pasted at `(ox, oy)`, where it held `under` before.
    pub open spec fn pasted_value(self, ox: int, oy: int, x: int, y: int, c: int, under: u8) -> u8 {
        if self.covers(ox, oy, x, y) {
            self.at(x - ox, y - oy, c)
        } else {
            under
        }
    }

    /// The buffer after `top` was pasted with its top left corner at
    /// `(ox, oy)`: the pixels that `top` covers are `top`'s, all others
    /// are unchanged.
    pub open spec fn paste(self, top: Raster, ox: int, oy: int) -> Raster {
        self.with_data(
            Seq::new(
                self.data.len(),
                |i: int| top.pasted_value(ox, oy, self.x_of(i), self.y_of(i), self.c_of(i), self.data[i]),
            ),
        )
    }

    /// The buffer after each of `tops` was pasted in turn, `tops[k]` at
    /// `at[k]`: the plain sequential way to merge images.
    pub open spec fn overlay(self, tops: Seq<Raster>, at: Seq<Point>) -> Raster
        decreases tops.len(),
    {
        if tops.len() == 0 {
            self
        } else {
            self.overlay(tops.drop_last(), at.drop_last()).paste(
                tops.last(),
                at.last().x as int,
                at.last().y as int,
            )
        }
    }

    /// The source offset that nearest-neighbour sampling reads for the
    /// destination offset `k`, when `from` source pixels are mapped onto
    /// `to` destination pixels along one axis.
    pub open spec fn nearest(k: int, from: int, to: int) -> int {
        (k * from) / to
    }

    /// The buffer resized to `width` by `height` pixels: the pixel at
    /// `(x, y)` of the result is the source pixel at
    /// `(x * self.width / width, y * self.height / height)`, rounded down.
    pub open spec fn resize_nearest(self, width: nat, height: nat) -> Raster {
        let shape = Raster { width, height, channels: self.channels, data: Seq::empty() };
        shape.with_data(
            Seq::new(
                width * height * self.channels,
                |i: int|
                    self.at(
                        Self::nearest(shape.x_of(i), self.width as int, width as int),
                        Self::nearest(shape.y_of(i), self.height as int, height as int),
                        shape.c_of(i),
                    ),
            ),
        )
    }

    /// A buffer of the given shape with every channel zero.
    pub open spec fn blank(width: nat, height: nat, channels: nat) -> Raster {
        Raster { width, height, channels, data: Seq::new(width * height * channels, |i: int| 0u8) }
    }

    /// A buffer of the given shape in which every pixel is `pixel`.
    pub open spec fn uniform(width: nat, height: nat, pixel: Seq<u8>) -> Raster {
        Raster {
            width,
            height,
            channels: pixel.len(),
            data: Seq::new(width * height * pixel.len(), |i: int| pixel[i % pixel.len() as int]),
        }
    }
}

/// A row of `w` pixels with `c` channels each takes `w * c` entries, and
/// `h` such rows take `w * h * c`.
pub proof fn lemma_row_stride(w: nat, h: nat, c: nat)
    ensures
        w * h * c == h * (w * c),
        h >= 1 ==> w * c <= w * h * c,
{
    assert(w * h * c == h * (w * c)) by (nonlinear_arith);
    if h >= 1 {
        assert(w * c <= h * (w * c)) by (nonlinear_arith)
            requires
                h >= 1,
        ;
    }
}

/// The offset of a channel of the buffer lies inside the channel array.
pub proof fn lemma_offset_in_range(r: Raster, x: int, y: int, c: int)
    requires
        r.wf(),
        r.contains(x, y, c),
    ensures
        0 <= r.offset(x, y, c) < r.data.len(),
{
    let w = r.width as int;
    let h = r.height as int;
    let n = r.channels as int;
    assert(0 <= y * w + x < w * h) by (nonlinear_arith)
        requires
            0 <= x < w,
            0 <= y < h,
    ;
    let p = y * w + x;
    assert(0 <= p * n + c < (w * h) * n) by (nonlinear_arith)
        requires
            0 <= p < w * h,
            0 <= c < n,
    ;
}

/// Taking the coordinate of an offset undoes `offset`.
pub proof fn lemma_offset_decode(r: Raster, x: int, y: int, c: int)
    requires
        r.contains(x, y, c),
    ensures
        r.x_of(r.offset(x, y, c)) == x,
        r.y_of(r.offset(x, y, c)) == y,
        r.c_of(r.offset(x, y, c)) == c,
{
    let w = r.width as int;
    let n = r.channels as int;
    let p = y * w + x;
    lemma_fundamental_div_mod_converse(r.offset(x, y, c), n, p, c);
    lemma_fundamental_div_mod_converse(p, w, y, x);
}

/// Every offset of the channel array is the offset of exactly the
/// coordinate that `x_of`, `y_of` and `c_of` give.
pub proof fn lemma_decode_offset(r: Raster, i: int)
    requires
        r.wf(),
        0 <= i < r.data.len(),
    ensures
        r.contains(r.x_of(i), r.y_of(i), r.c_of(i)),
        r.offset(r.x_of(i), r.y_of(i), r.c_of(i)) == i,
{
    let w = r.width as int;
    let h = r.height as int;
    let n = r.channels as int;
    assert(n > 0 && w > 0 && h > 0) by (nonlinear_arith)
        requires
            0 <= i < w * h * n,
            w >= 0,
            h >= 0,
            n >= 0,
    ;
    let p = i / n;
    lemma_fundamental_div_mod(i, n);
    lemma_fundamental_div_mod(p, w);
    assert(0 <= p < w * h) by (nonlinear_arith)
        requires
            i == n * p + (i % n),
            0 <= i % n < n,
            0 <= i < w * h * n,
    ;
    assert(0 <= p / w < h) by (nonlinear_arith)
        requires
            p == w * (p / w) + (p % w),
            0 <= p % w < w,
            0 <= p < w * h,
    ;
    assert((p / w * w + p % w) * n + i % n == i) by (nonlinear_arith)
        requires
            p == w * (p / w) + (p % w),
            i == n * p + (i % n),
    ;
}

/// Two well-formed buffers of one shape that agree on every channel of
/// every pixel are the same buffer.
pub proof fn lemma_raster_ext(a: Raster, b: Raster)
    requires
        a.wf(),
        b.wf(),
        a.same_shape(b),
        forall|x: int, y: int, c: int| a.contains(x, y, c) ==> a.at(x, y, c) == b.at(x, y, c),
    ensures
        a == b,
{
    assert forall|i: int| 0 <= i < a.data.len() implies a.data[i] == b.data[i] by {
        lemma_decode_offset(a, i);
        assert(a.at(a.x_of(i), a.y_of(i), a.c_of(i)) == b.at(a.x_of(i), a.y_of(i), a.c_of(i)));
    }
    assert(a.data =~= b.data);
}

/// What a channel `(x, y, c)` of a canvas holds once each of `tops` was
/// pasted in turn, `tops[k]` at `at[k]`, where it held `under` before: the
/// channel of the last buffer that covers the pixel, if any does.
pub open spec fn overlaid_value(
    tops: Seq<Raster>,
    at: Seq<Point>,
    x: int,
    y: int,
    c: int,
    under: u8,
) -> u8
    decreases tops.len(),
{
    if tops.len() == 0 {
        under
    } else {
        tops.last().pasted_value(
            at.last().x as int,
            at.last().y as int,
            x,
            y,
            c,
            overlaid_value(tops.drop_last(), at.drop_last(), x, y, c, under),
        )
    }
}

/// Pasting keeps the shape and the well-formedness of the canvas.
pub proof fn lemma_paste_shape(canvas: Raster, top: Raster, ox: int, oy: int)
    ensures
        canvas.paste(top, ox, oy).same_shape(canvas),
        canvas.paste(top, ox, oy).data.len() == canvas.data.len(),
        canvas.wf() ==> canvas.paste(top, ox, oy).wf(),
{
}

/// Every channel of a canvas after a sequence of pastes is given by
/// `overlaid_value`.
pub proof fn lemma_overlay_pointwise(canvas: Raster, tops: Seq<Raster>, at: Seq<Point>)
    ensures
        canvas.overlay(tops, at).same_shape(canvas),
        canvas.overlay(tops, at).data.len() == canvas.data.len(),
        canvas.wf() ==> canvas.overlay(tops, at).wf(),
        forall|i: int|
            0 <= i < canvas.data.len() ==> #[trigger] canvas.overlay(tops, at).data[i]
                == overlaid_value(
                tops,
                at,
                canvas.x_of(i),
                canvas.y_of(i),
                canvas.c_of(i),
                canvas.data[i],
            ),
    decreases tops.len(),
{
    if tops.len() > 0 {
        lemma_overlay_pointwise(canvas, tops.drop_last(), at.drop_last());
        let before = canvas.overlay(tops.drop_last(), at.drop_last());
        lemma_paste_shape(before, tops.last(), at.last().x as int, at.last().y as int);
    }
}

/// After a paste, a channel of a pixel that the pasted buffer covers is
/// that buffer's, and any other channel is what the canvas held before.
pub proof fn lemma_paste_at(canvas: Raster, top: Raster, ox: int, oy: int, x: int, y: int, c: int)
    requires
        canvas.wf(),
        canvas.contains(x, y, c),
    ensures
        canvas.paste(top, ox, oy).at(x, y, c) == top.pasted_value(
            ox,
            oy,
            x,
            y,
            c,
            canvas.at(x, y, c),
        ),
{
    lemma_offset_in_range(canvas, x, y, c);
    lemma_offset_decode(canvas, x, y, c);
}

/// Every pixel of a resized buffer is the source pixel that the ratio of
/// the sizes maps it to, rounded down.
pub proof fn lemma_resize_at(source: Raster, width: nat, height: nat, x: int, y: int, c: int)
    requires
        0 <= x < width,
        0 <= y < height,
        0 <= c < source.channels,
    ensures
        source.resize_nearest(width, height).wf(),
        source.resize_nearest(width, height).at(x, y, c) == source.at(
            (x * source.width) / (width as int),
            (y * source.height) / (height as int),
            c,
        ),
{
    let resized = source.resize_nearest(width, height);
    lemma_offset_in_range(resized, x, y, c);
    lemma_offset_decode(resized, x, y, c);
}

/// Resizing a buffer to its own size gives the buffer back.
pub proof fn lemma_resize_same_size(source: Raster)
    requires
        source.wf(),
    ensures
        source.resize_nearest(source.width, source.height) == source,
{
    let resized = source.resize_nearest(source.width, source.height);
    assert forall|i: int| 0 <= i < source.data.len() implies resized.data[i] == source.data[i] by {
        lemma_decode_offset(source, i);
        let x = source.x_of(i);
        let y = source.y_of(i);
        assert((x * source.width) / (source.width as int) == x) by (nonlinear_arith)
            requires
                0 <= x < source.width,
        ;
        assert((y * source.height) / (source.height as int) == y) by (nonlinear_arith)
            requires
                0 <= y < source.height,
        ;
    }
    assert(resized.data =~= source.data);
}

} // verus!
