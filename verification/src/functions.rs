//! Pasting images onto a canvas and resizing them, row by row in parallel.
use vstd::prelude::*;
use crate::cell::ImageCell;
use crate::geometry::Point;
use crate::image::buffer_len;
use crate::image::views;
use crate::image::Image;
use crate::raster::lemma_overlay_pointwise;
use crate::raster::Raster;
use crate::rows::run_rows;
use crate::rows::RowJob;

verus! {

/// Whether each of `images` wherever `origins` puts it lies between the
/// left and the right edge of `canvas`.
pub open spec fn all_within(canvas: Raster, images: Seq<Raster>, origins: Seq<Point>) -> bool {
    &&& images.len() == origins.len()
    &&& forall|k: int|
        0 <= k < images.len() ==> (#[trigger] origins[k]).x + images[k].width <= canvas.width
}

/// Whether each of `images` is well formed.
pub open spec fn all_wf<const C: usize>(images: Seq<&Image<C>>) -> bool {
    forall|k: int| 0 <= k < images.len() ==> (#[trigger] images[k]).wf()
}

/// Pastes `images[k]` with its top left corner at `origins[k]`, for each
/// `k`, in one parallel pass over the rows of `canvas`. The result is that
/// of pasting the images one after the other; what reaches below the
/// bottom edge of the canvas is cut off.
pub fn paste_all<const C: usize>(canvas: &mut Image<C>, images: &[&Image<C>], origins: &[Point])
    requires
        old(canvas).wf(),
        all_wf(images@),
        all_within(old(canvas)@, views(images@), origins@),
    ensures
        final(canvas).wf(),
        final(canvas)@ == old(canvas)@.overlay(views(images@), origins@),
{
    proof {
        lemma_overlay_pointwise(canvas@, views(images@), origins@);
    }
    if C == 0 {
        assert(canvas@.data.len() == 0) by (nonlinear_arith)
            requires
                canvas@.data.len() == canvas@.width * canvas@.height * 0,
        ;
        assert(canvas@.data =~= canvas@.overlay(views(images@), origins@).data);
        return ;
    }
    let job = RowJob::Overlay { images, origins };
    proof {
        let before = canvas@;
        assert forall|r: int| 0 <= r < before.height implies #[trigger] job.row_ready(
            (before.width * before.channels) as int,
            r,
        ) by {
            assert forall|k: int| 0 <= k < images@.len() implies (#[trigger] images@[k]).wf() && (
            origins@[k].x + images@[k]@.width) * C <= before.width * before.channels by {
                assert(origins@[k].x + views(images@)[k].width <= before.width);
                assert((origins@[k].x + images@[k]@.width) * C <= before.width * C)
                    by (nonlinear_arith)
                    requires
                        origins@[k].x + images@[k]@.width <= before.width,
                        C > 0,
                ;
            }
        }
    }
    run_rows(canvas, &job);
    assert(canvas@.data =~= old(canvas)@.overlay(views(images@), origins@).data);
}

/// Pastes `top` onto the canvas that `bottom` holds, with its top left
/// corner at `loc`: afterwards every pixel that `top` covers is `top`'s,
/// and every other pixel is as it was.
pub fn paste<const C: usize>(bottom: &mut ImageCell<C>, top: &Image<C>, loc: Point)
    requires
        old(bottom).wf(),
        top.wf(),
        top@.fits(old(bottom)@, loc.x as int, loc.y as int),
    ensures
        final(bottom).wf(),
        final(bottom)@ == old(bottom)@.paste(top@, loc.x as int, loc.y as int),
        final(bottom).issued() == old(bottom).issued(),
{
    let images: Vec<&Image<C>> = vec![top];
    let origins: Vec<Point> = vec![loc];
    proof {
        lemma_overlay_one(bottom@, top@, loc);
        assert(views(images@) =~= seq![top@]);
        assert(origins@ =~= seq![loc]);
    }
    paste_all(&mut bottom.underlying, images.as_slice(), origins.as_slice());
}

/// Overlaying a single buffer is pasting it.
pub proof fn lemma_overlay_one(canvas: Raster, top: Raster, loc: Point)
    ensures
        canvas.overlay(seq![top], seq![loc]) == canvas.paste(top, loc.x as int, loc.y as int),
{
    reveal_with_fuel(Raster::overlay, 2);
    assert(seq![top].drop_last() =~= Seq::<Raster>::empty());
}

/// Resizes `image` to `nwidth` by `nheight` pixels by nearest-neighbour
/// sampling: the pixel at `(x, y)` of the result is the pixel of `image`
/// at `(x * width / nwidth, y * height / nheight)`, both rounded down.
/// All rows of the result are written in parallel.
pub fn resize_nearest_neighbor<const C: usize>(image: &Image<C>, nwidth: u32, nheight: u32) -> (resized:
    Image<C>)
    requires
        image.wf(),
        buffer_len(nwidth as int, nheight as int, C as int) <= usize::MAX,
        nwidth > 0 && nheight > 0 ==> image@.width > 0 && image@.height > 0,
    ensures
        resized.wf(),
        resized@ == image@.resize_nearest(nwidth as nat, nheight as nat),
{
    let mut resized: Image<C> = Image::new(nwidth, nheight);
    if C == 0 || nwidth == 0 || nheight == 0 {
        assert(resized@.data.len() == 0) by (nonlinear_arith)
            requires
                resized@.data.len() == nwidth * nheight * C,
                C == 0 || nwidth == 0 || nheight == 0,
        ;
        assert(resized@.data =~= image@.resize_nearest(nwidth as nat, nheight as nat).data);
        return resized;
    }
    let job = RowJob::Resize { source: image, width: nwidth, height: nheight };
    run_rows(&mut resized, &job);
    assert(resized@.data =~= image@.resize_nearest(nwidth as nat, nheight as nat).data);
    resized
}

} // verus!
