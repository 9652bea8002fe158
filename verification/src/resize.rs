//! Placing images of any size: an image that is not of the size of a cell
//! is resized to it first.
use vstd::prelude::*;
use crate::functions::resize_nearest_neighbor;
use crate::image::views;
use crate::image::Image;
use crate::merger::lemma_cell_buffer_fits;
use crate::merger::Merger;
use crate::raster::lemma_resize_same_size;
use crate::raster::Raster;

verus! {

/// Whether `image` can be resized to `width` by `height` pixels: it is
/// well formed, and it has a pixel to sample where the result has one.
pub open spec fn resizable(image: Raster, width: int, height: int) -> bool {
    image.wf() && (width > 0 && height > 0 ==> image.width > 0 && image.height > 0)
}

/// The values of a sequence of images, in the same order.
pub open spec fn owned_views<const C: usize>(images: Seq<Image<C>>) -> Seq<Raster> {
    Seq::new(images.len(), |k: int| images[k]@)
}

/// Each of `images`, resized to `width` by `height` pixels.
pub open spec fn resized_all(images: Seq<Raster>, width: nat, height: nat) -> Seq<Raster> {
    Seq::new(images.len(), |k: int| images[k].resize_nearest(width, height))
}

/// Places `image` in the next free cell of `merger`, resized to the size
/// of a cell where it has another size. The grid must have a free cell.
pub fn resize_push<const C: usize, M: Merger<C>>(merger: &mut M, image: &Image<C>)
    requires
        old(merger).grid().wf(),
        old(merger).grid().space() > 0,
        resizable(
            image@,
            old(merger).grid().layout.cell_width as int,
            old(merger).grid().layout.cell_height as int,
        ),
    ensures
        final(merger).grid().wf(),
        final(merger).grid() == old(merger).grid().push(
            image@.resize_nearest(
                old(merger).grid().layout.cell_width as nat,
                old(merger).grid().layout.cell_height as nat,
            ),
        ),
{
    let (width, height) = merger.get_image_dimensions();
    let (image_width, image_height) = image.dimensions();
    // The canvas is in memory, and a cell is no larger than the canvas.
    let canvas_len: usize = merger.get_canvas().capacity();
    if image_width != width || image_height != height {
        proof {
            lemma_cell_buffer_fits(merger.grid().layout, C as int);
        }
        let resized = resize_nearest_neighbor(image, width, height);
        merger.push(&resized);
    } else {
        proof {
            lemma_resize_same_size(image@);
        }
        merger.push(image);
    }
}

/// Places `images` in the next free cells of `merger`, each resized to
/// the size of a cell where it has another size. The grid must have a
/// free cell for each of them.
pub fn resize_bulk_push<const C: usize, M: Merger<C>>(merger: &mut M, images: Vec<Image<C>>)
    requires
        old(merger).grid().wf(),
        images@.len() <= old(merger).grid().space(),
        forall|k: int|
            0 <= k < images@.len() ==> resizable(
                (#[trigger] images@[k])@,
                old(merger).grid().layout.cell_width as int,
                old(merger).grid().layout.cell_height as int,
            ),
    ensures
        final(merger).grid().wf(),
        final(merger).grid() == old(merger).grid().bulk_push(
            resized_all(
                owned_views(images@),
                old(merger).grid().layout.cell_width as nat,
                old(merger).grid().layout.cell_height as nat,
            ),
        ),
{
    let (width, height) = merger.get_image_dimensions();
    // The canvas is in memory, and a cell is no larger than the canvas.
    let canvas_len: usize = merger.get_canvas().capacity();
    let count: usize = images.len();
    let ghost given = images@;
    let ghost want = resized_all(owned_views(given), width as nat, height as nat);
    proof {
        lemma_cell_buffer_fits(merger.grid().layout, C as int);
    }
    let mut fitted: Vec<Image<C>> = Vec::with_capacity(count);
    for image in it: images
        invariant
            it.seq() == given,
            fitted@.len() == it.index(),
            want == resized_all(owned_views(given), width as nat, height as nat),
            crate::image::buffer_len(width as int, height as int, C as int) <= usize::MAX,
            forall|k: int|
                0 <= k < given.len() ==> resizable(
                    (#[trigger] given[k])@,
                    width as int,
                    height as int,
                ),
            forall|k: int|
                0 <= k < fitted@.len() ==> (#[trigger] fitted@[k]).wf() && fitted@[k]@ == want[k],
    {
        let (image_width, image_height) = image.dimensions();
        assert(resizable(given[it.index()]@, width as int, height as int));
        if image_width != width || image_height != height {
            let resized = resize_nearest_neighbor(&image, width, height);
            fitted.push(resized);
        } else {
            proof {
                lemma_resize_same_size(image@);
            }
            fitted.push(image);
        }
    }
    let mut fitted_refs: Vec<&Image<C>> = Vec::with_capacity(count);
    let mut k: usize = 0;
    while k < count
        invariant
            k <= count,
            count == fitted@.len(),
            fitted_refs@.len() == k,
            forall|i: int| 0 <= i < k ==> *(#[trigger] fitted_refs@[i]) == fitted@[i],
        decreases count - k,
    {
        fitted_refs.push(&fitted[k]);
        k += 1;
    }
    proof {
        assert(views(fitted_refs@) =~= want);
    }
    merger.bulk_push(fitted_refs.as_slice());
}

} // verus!
