//! Row-wise writing: every row of a canvas is a chunk of its channel
//! array of its own, written by exactly one task.
use rayon::iter::IndexedParallelIterator;
use rayon::iter::ParallelIterator;
use rayon::slice::ParallelSliceMut;
use vstd::arithmetic::div_mod::lemma_fundamental_div_mod;
use vstd::arithmetic::div_mod::lemma_fundamental_div_mod_converse;
use vstd::prelude::*;
use crate::geometry::Point;
use crate::image::views;
use crate::image::Image;
use crate::raster::overlaid_value;
use crate::raster::Raster;

verus! {

/// What is to be written into the rows of a canvas.
pub(crate) enum RowJob<'a, const C: usize> {
    /// Paste `images[k]` with its top left corner at `origins[k]`, for
    /// each `k` in turn.
    Overlay { images: &'a [&'a Image<C>], origins: &'a [Point] },
    /// Fill a canvas of `width` by `height` pixels with the pixels of
    /// `source` that nearest-neighbour sampling picks.
    Resize { source: &'a Image<C>, width: u32, height: u32 },
}

/// The `r`-th chunk of `stride` entries of `data`.
pub(crate) open spec fn chunk(data: Seq<u8>, stride: int, r: int) -> Seq<u8> {
    data.subrange(r * stride, r * stride + stride)
}

impl<'a, const C: usize> RowJob<'a, C> {
    /// What the job leaves in channel `c` of the pixel at `(x, y)`, which
    /// held `under` before.
    pub(crate) open spec fn value_at(&self, x: int, y: int, c: int, under: u8) -> u8 {
        match self {
            RowJob::Overlay { images, origins } => overlaid_value(
                views(images@),
                origins@,
                x,
                y,
                c,
                under,
            ),
            RowJob::Resize { source, width, height } => source@.at(
                Raster::nearest(x, source@.width as int, *width as int),
                Raster::nearest(y, source@.height as int, *height as int),
                c,
            ),
        }
    }

    /// The row `r` of the canvas after the job, where it was `row` before.
    pub(crate) open spec fn row_after(&self, row: Seq<u8>, r: int) -> Seq<u8> {
        Seq::new(
            row.len(),
            |j: int| self.value_at(j / (C as int), r, j % (C as int), row[j]),
        )
    }

    /// The canvas after the job.
    pub(crate) open spec fn apply(&self, canvas: Raster) -> Raster {
        canvas.with_data(
            Seq::new(
                canvas.data.len(),
                |i: int|
                    self.value_at(canvas.x_of(i), canvas.y_of(i), canvas.c_of(i), canvas.data[i]),
            ),
        )
    }

    /// Whether the job can write row `r` of a canvas whose rows have `len`
    /// entries.
    pub(crate) open spec fn row_ready(&self, len: int, r: int) -> bool {
        &&& C > 0
        &&& match self {
            RowJob::Overlay { images, origins } => {
                &&& images@.len() == origins@.len()
                &&& forall|k: int|
                    0 <= k < images@.len() ==> (#[trigger] images@[k]).wf() && (origins@[k].x
                        + images@[k]@.width) * C <= len
            },
            RowJob::Resize { source, width, height } => {
                &&& source.wf()
                &&& len == *width * C
                &&& 0 <= r < *height
                &&& source@.width > 0
                &&& source@.height > 0
            },
        }
    }

    /// Whether the job can write every row of `canvas`.
    pub(crate) open spec fn ready(&self, canvas: Raster) -> bool {
        forall|r: int|
            0 <= r < canvas.height ==> #[trigger] self.row_ready(
                (canvas.width * canvas.channels) as int,
                r,
            )
    }
}

/// A pixel with `n` channels takes the entries from `x * n` up to
/// `x * n + n` of its row, so an entry `j` belongs to pixel `j / n`.
pub(crate) proof fn lemma_span(j: int, n: int, from: int, count: int)
    requires
        n > 0,
        0 <= j,
        0 <= from,
        0 <= count,
    ensures
        (from <= j / n < from + count) <==> (from * n <= j < (from + count) * n),
        j == (j / n) * n + j % n,
        0 <= j % n < n,
{
    lemma_fundamental_div_mod(j, n);
    assert((from <= j / n) <==> (from * n <= j)) by (nonlinear_arith)
        requires
            j == n * (j / n) + j % n,
            0 <= j % n < n,
            n > 0,
    ;
    assert((j / n < from + count) <==> (j < (from + count) * n)) by (nonlinear_arith)
        requires
            j == n * (j / n) + j % n,
            0 <= j % n < n,
            n > 0,
    ;
    assert(j == (j / n) * n + j % n) by (nonlinear_arith)
        requires
            j == n * (j / n) + j % n,
    ;
}

/// Copies row `sy` of `src` into `row`, from the pixel `dst` of the row on.
fn copy_span<const C: usize>(row: &mut [u8], dst: usize, src: &Image<C>, sy: u32)
    requires
        C > 0,
        src.wf(),
        sy < src@.height,
        (dst + src@.width) * C <= old(row)@.len(),
    ensures
        final(row)@.len() == old(row)@.len(),
        forall|j: int|
            0 <= j < old(row)@.len() ==> #[trigger] final(row)@[j] == if dst <= j / (C as int) < dst
                + src@.width {
                src@.at(j / (C as int) - dst, sy as int, j % (C as int))
            } else {
                old(row)@[j]
            },
{
    let len: usize = row.len();
    if src.width == 0 {
        return ;
    }
    let from: usize = src.pixel_offset(0, sy);
    let src_len: usize = src.data.len();
    proof {
        crate::raster::lemma_offset_in_range(src@, src@.width - 1, sy as int, C - 1);
        assert((dst + src@.width) * C == dst * C + src@.width * C) by (nonlinear_arith);
        assert(0 <= dst * C) by (nonlinear_arith)
            requires
                0 <= dst,
                C > 0,
        ;
        assert(src@.offset(src@.width - 1, sy as int, C - 1) == src@.offset(0, sy as int, 0)
            + src@.width * C - 1) by (nonlinear_arith)
            requires
                src@.offset(src@.width - 1, sy as int, C - 1) == (sy * src@.width + (src@.width
                    - 1)) * C + (C - 1),
                src@.offset(0, sy as int, 0) == (sy * src@.width + 0) * C + 0,
        ;
    }
    let count: usize = src.width as usize * C;
    let to: usize = dst * C;
    let mut i: usize = 0;
    while i < count
        invariant
            i <= count,
            count == src@.width * C,
            to == dst * C,
            to + count <= len,
            len == row@.len(),
            row@.len() == old(row)@.len(),
            from + count <= src.data@.len() <= usize::MAX,
            forall|j: int|
                0 <= j < len ==> #[trigger] row@[j] == if to <= j < to + i {
                    src.data@[from + (j - to)]
                } else {
                    old(row)@[j]
                },
        decreases count - i,
    {
        row[to + i] = src.data[from + i];
        i += 1;
    }
    proof {
        assert forall|j: int| 0 <= j < old(row)@.len() implies #[trigger] row@[j] == if dst <= j / (
        C as int) < dst + src@.width {
            src@.at(j / (C as int) - dst, sy as int, j % (C as int))
        } else {
            old(row)@[j]
        } by {
            lemma_span(j, C as int, dst as int, src@.width as int);
            if dst <= j / (C as int) < dst + src@.width {
                let x = j / (C as int) - dst;
                assert(src@.offset(x, sy as int, j % (C as int)) == from + (j - to))
                    by (nonlinear_arith)
                    requires
                        src@.offset(x, sy as int, j % (C as int)) == (sy * src@.width + x) * C + j
                            % (C as int),
                        from == (sy * src@.width + 0) * C + 0,
                        to == dst * C,
                        x == j / (C as int) - dst,
                        j == (j / (C as int)) * C + j % (C as int),
                ;
            }
        }
    }
}

/// Nearest-neighbour sampling never leaves the source: for `k < to`, the
/// sampled offset is below `from`.
pub(crate) proof fn lemma_nearest_in_range(k: int, from: int, to: int)
    requires
        0 <= k < to,
        0 < from,
    ensures
        0 <= Raster::nearest(k, from, to) < from,
{
    lemma_fundamental_div_mod(k * from, to);
    assert(0 <= k * from < to * from) by (nonlinear_arith)
        requires
            0 <= k < to,
            0 < from,
    ;
    let q = (k * from) / to;
    assert(0 <= q < from) by (nonlinear_arith)
        requires
            k * from == to * q + (k * from) % to,
            0 <= (k * from) % to < to,
            0 <= k * from < to * from,
    ;
}

/// Computes the source offset that nearest-neighbour sampling reads for
/// the destination offset `k`.
fn nearest(k: u32, from: u32, to: u32) -> (at: u32)
    requires
        k < to,
        0 < from,
    ensures
        at == Raster::nearest(k as int, from as int, to as int),
        at < from,
{
    proof {
        lemma_nearest_in_range(k as int, from as int, to as int);
        assert(k as int * from as int <= 0xffff_ffff * 0xffff_ffff) by (nonlinear_arith)
            requires
                0 <= k <= 0xffff_ffff,
                0 <= from <= 0xffff_ffff,
        ;
    }
    let scaled: u64 = k as u64 * from as u64;
    (scaled / to as u64) as u32
}

impl<'a, const C: usize> RowJob<'a, C> {
    /// Writes row `r` of the canvas.
    pub(crate) fn run_row(&self, row: &mut [u8], r: usize)
        requires
            self.row_ready(old(row)@.len() as int, r as int),
        ensures
            final(row)@ == self.row_after(old(row)@, r as int),
    {
        match self {
            RowJob::Overlay { images, origins } => {
                overlay_row(row, r, images, origins);
            },
            RowJob::Resize { source, width, height } => {
                resize_row(row, r, source, *width, *height);
            },
        }
        assert(row@ =~= self.row_after(old(row)@, r as int));
    }
}

/// Writes into `row`, the row `r` of a canvas, what the images leave
/// there when they are pasted in turn.
fn overlay_row<const C: usize>(row: &mut [u8], r: usize, images: &[&Image<C>], origins: &[Point])
    requires
        C > 0,
        images@.len() == origins@.len(),
        forall|k: int|
            0 <= k < images@.len() ==> (#[trigger] images@[k]).wf() && (origins@[k].x
                + images@[k]@.width) * C <= old(row)@.len(),
    ensures
        final(row)@.len() == old(row)@.len(),
        forall|j: int|
            0 <= j < old(row)@.len() ==> #[trigger] final(row)@[j] == overlaid_value(
                views(images@),
                origins@,
                j / (C as int),
                r as int,
                j % (C as int),
                old(row)@[j],
            ),
{
    let count: usize = images.len();
    let mut k: usize = 0;
    while k < count
        invariant
            C > 0,
            k <= count,
            count == images@.len(),
            images@.len() == origins@.len(),
            row@.len() == old(row)@.len(),
            forall|k: int|
                0 <= k < images@.len() ==> (#[trigger] images@[k]).wf() && (origins@[k].x
                    + images@[k]@.width) * C <= old(row)@.len(),
            forall|j: int|
                0 <= j < old(row)@.len() ==> #[trigger] row@[j] == overlaid_value(
                    views(images@).take(k as int),
                    origins@.take(k as int),
                    j / (C as int),
                    r as int,
                    j % (C as int),
                    old(row)@[j],
                ),
        decreases count - k,
    {
        let image: &Image<C> = images[k];
        let origin: Point = origins[k];
        let ghost before = row@;
        assert(images@[k as int].wf());
        if (origin.y as usize) <= r && r - (origin.y as usize) < (image.height as usize) {
            let sy: u32 = (r - origin.y as usize) as u32;
            copy_span(row, origin.x as usize, image, sy);
        }
        proof {
            let tops = views(images@).take(k + 1);
            let at = origins@.take(k + 1);
            assert(tops.drop_last() =~= views(images@).take(k as int));
            assert(at.drop_last() =~= origins@.take(k as int));
            assert(tops.last() == image@);
            assert(at.last() == origin);
        }
        k += 1;
    }
    assert(views(images@).take(count as int) =~= views(images@));
    assert(origins@.take(count as int) =~= origins@);
}

/// Writes into `row`, the row `r` of a canvas of `width` by `height`
/// pixels, the pixels of `source` that nearest-neighbour sampling picks.
fn resize_row<const C: usize>(row: &mut [u8], r: usize, source: &Image<C>, width: u32, height: u32)
    requires
        C > 0,
        source.wf(),
        old(row)@.len() == width * C,
        r < height,
        source@.width > 0,
        source@.height > 0,
    ensures
        final(row)@.len() == old(row)@.len(),
        forall|j: int|
            0 <= j < old(row)@.len() ==> #[trigger] final(row)@[j] == source@.at(
                Raster::nearest(j / (C as int), source@.width as int, width as int),
                Raster::nearest(r as int, source@.height as int, height as int),
                j % (C as int),
            ),
{
    let len: usize = row.len();
    let src_len: usize = source.data.len();
    let sy: u32 = nearest(r as u32, source.height, height);
    let mut x: u32 = 0;
    while x < width
        invariant
            C > 0,
            x <= width,
            source.wf(),
            source@.width > 0,
            sy < source@.height,
            sy == Raster::nearest(r as int, source@.height as int, height as int),
            len == row@.len(),
            len == width * C,
            src_len == source.data@.len(),
            forall|j: int|
                0 <= j < x * C ==> #[trigger] row@[j] == source@.at(
                    Raster::nearest(j / (C as int), source@.width as int, width as int),
                    sy as int,
                    j % (C as int),
                ),
        decreases width - x,
    {
        let sx: u32 = nearest(x, source.width, width);
        let from: usize = source.pixel_offset(sx, sy);
        proof {
            assert(x * C + C <= width * C) by (nonlinear_arith)
                requires
                    x < width,
                    C > 0,
            ;
            assert(0 <= x * C) by (nonlinear_arith)
                requires
                    0 <= x,
                    C > 0,
            ;
        }
        let to: usize = x as usize * C;
        let mut c: usize = 0;
        while c < C
            invariant
                C > 0,
                c <= C,
                to == x * C,
                to + C <= len,
                len == row@.len(),
                from + C <= src_len,
                src_len == source.data@.len(),
                from == source@.offset(sx as int, sy as int, 0),
                sx == Raster::nearest(x as int, source@.width as int, width as int),
                forall|j: int|
                    0 <= j < to ==> #[trigger] row@[j] == source@.at(
                        Raster::nearest(j / (C as int), source@.width as int, width as int),
                        sy as int,
                        j % (C as int),
                    ),
                forall|j: int| to <= j < to + c ==> #[trigger] row@[j] == source.data@[from + (j - to)],
            decreases C - c,
        {
            row[to + c] = source.data[from + c];
            c += 1;
        }
        proof {
            assert forall|j: int| 0 <= j < (x + 1) * C implies #[trigger] row@[j] == source@.at(
                Raster::nearest(j / (C as int), source@.width as int, width as int),
                sy as int,
                j % (C as int),
            ) by {
                assert((x + 1) * C == to + C) by (nonlinear_arith)
                    requires
                        to == x * C,
                ;
                if j >= to {
                    lemma_fundamental_div_mod_converse(j, C as int, x as int, j - to);
                    assert(source@.offset(sx as int, sy as int, j - to) == from + (j - to));
                }
            }
        }
        x += 1;
    }
}

/// Runs `RowJob::run_row` on every row of `data` in parallel, through
/// rayon's `par_chunks_mut`, `enumerate` and `for_each`: the array is cut
/// into consecutive chunks of `stride` entries that do not overlap, each
/// chunk is handed to the job together with its index, and the call
/// returns when every chunk has been written. What a chunk holds
/// afterwards is what `run_row` leaves in it.
#[verifier::external_body]
fn for_each_row<const C: usize>(data: &mut Vec<u8>, stride: usize, rows: usize, job: &RowJob<C>)
    requires
        stride > 0,
        old(data)@.len() == rows * stride,
        forall|r: int| 0 <= r < rows ==> #[trigger] job.row_ready(stride as int, r),
    ensures
        final(data)@.len() == old(data)@.len(),
        forall|r: int|
            0 <= r < rows ==> #[trigger] chunk(final(data)@, stride as int, r) == job.row_after(
                chunk(old(data)@, stride as int, r),
                r,
            ),
{
    data.par_chunks_mut(stride).enumerate().for_each(|(r, row)| job.run_row(row, r));
}

/// An entry `j` of row `r` of a canvas of `w` pixels per row with `n`
/// channels each is the canvas offset `r * (w * n) + j`, and belongs to
/// channel `j % n` of the pixel at `(j / n, r)`.
proof fn lemma_row_decode(canvas: Raster, r: int, j: int)
    requires
        canvas.channels > 0,
        canvas.width > 0,
        0 <= r,
        0 <= j < canvas.width * canvas.channels,
    ensures
        canvas.x_of(r * (canvas.width * canvas.channels) + j) == j / (canvas.channels as int),
        canvas.y_of(r * (canvas.width * canvas.channels) + j) == r,
        canvas.c_of(r * (canvas.width * canvas.channels) + j) == j % (canvas.channels as int),
{
    let w = canvas.width as int;
    let n = canvas.channels as int;
    let i = r * (w * n) + j;
    let q = j / n;
    lemma_fundamental_div_mod(j, n);
    assert(0 <= q < w) by (nonlinear_arith)
        requires
            j == n * q + j % n,
            0 <= j % n < n,
            0 <= j < w * n,
    ;
    assert(i == (r * w + q) * n + j % n) by (nonlinear_arith)
        requires
            i == r * (w * n) + j,
            j == n * q + j % n,
    ;
    lemma_fundamental_div_mod_converse(i, n, r * w + q, j % n);
    lemma_fundamental_div_mod_converse(r * w + q, w, r, q);
}

/// Splits a canvas offset into the row it lies in and its place there.
proof fn lemma_row_split(i: int, stride: int, rows: int)
    requires
        stride > 0,
        0 <= i < rows * stride,
    ensures
        0 <= i / stride < rows,
        0 <= i % stride < stride,
        i == (i / stride) * stride + i % stride,
{
    lemma_fundamental_div_mod(i, stride);
    assert(0 <= i / stride < rows) by (nonlinear_arith)
        requires
            i == stride * (i / stride) + i % stride,
            0 <= i % stride < stride,
            0 <= i < rows * stride,
    ;
    assert(i == (i / stride) * stride + i % stride) by (nonlinear_arith)
        requires
            i == stride * (i / stride) + i % stride,
    ;
}

/// Writes every row of `canvas` as `job` says, all rows in parallel.
pub(crate) fn run_rows<const C: usize>(canvas: &mut Image<C>, job: &RowJob<C>)
    requires
        old(canvas).wf(),
        job.ready(old(canvas)@),
    ensures
        final(canvas).wf(),
        final(canvas)@ == job.apply(old(canvas)@),
{
    let len: usize = canvas.data.len();
    if len == 0 {
        assert(canvas.data@ =~= job.apply(canvas@).data);
        return ;
    }
    let ghost before = canvas@;
    proof {
        crate::raster::lemma_row_stride(before.width, before.height, before.channels);
        assert(before.height >= 1 && before.width >= 1 && before.channels >= 1) by (nonlinear_arith)
            requires
                before.width * before.height * before.channels > 0,
        ;
    }
    let stride: usize = canvas.width as usize * C;
    let rows: usize = canvas.height as usize;
    proof {
        assert(rows * stride == before.height * (before.width * before.channels));
        assert(before.width * before.channels > 0) by (nonlinear_arith)
            requires
                before.width >= 1,
                before.channels >= 1,
        ;
        assert forall|r: int| 0 <= r < rows implies #[trigger] job.row_ready(stride as int, r) by {
            assert(job.row_ready((before.width * before.channels) as int, r));
        }
    }
    for_each_row(&mut canvas.data, stride, rows, job);
    proof {
        let after = canvas.data@;
        let want = job.apply(before).data;
        assert forall|i: int| 0 <= i < len implies after[i] == want[i] by {
            lemma_row_split(i, stride as int, rows as int);
            let r = i / (stride as int);
            let j = i % (stride as int);
            assert(r * stride + stride <= len) by (nonlinear_arith)
                requires
                    r < rows,
                    len == rows * stride,
                    stride > 0,
            ;
            assert(0 <= r * stride) by (nonlinear_arith)
                requires
                    0 <= r,
                    stride > 0,
            ;
            assert(chunk(after, stride as int, r)[j] == after[i]);
            assert(chunk(before.data, stride as int, r)[j] == before.data[i]);
            assert(chunk(after, stride as int, r) == job.row_after(
                chunk(before.data, stride as int, r),
                r,
            ));
            lemma_row_decode(before, r, j);
        }
        assert(after =~= want);
    }
}

} // verus!
