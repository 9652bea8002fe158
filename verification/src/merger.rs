//! Mergers: a canvas laid out as a grid, filled slot by slot.
use vstd::prelude::*;
use crate::cell::ImageCell;
use crate::functions::all_wf;
use crate::functions::paste;
use crate::functions::paste_all;
use crate::geometry::lemma_cell_within;
use crate::geometry::rows_for;
use crate::geometry::GridLayout;
use crate::geometry::Padding;
use crate::geometry::Point;
use crate::image::buffer_len;
use crate::image::views;
use crate::image::Image;
use crate::raster::Raster;

verus! {

/// A merger as a value: the grid, the number of images placed so far, and
/// the canvas.
pub struct GridModel {
    pub layout: GridLayout,
    pub count: nat,
    pub canvas: Raster,
}

impl GridModel {
    /// The canvas has the size that the grid gives it, and no more images
    /// are placed than the grid has cells.
    pub open spec fn wf(self) -> bool {
        &&& self.layout.valid()
        &&& self.canvas.wf()
        &&& self.canvas.width == self.layout.spec_canvas_width()
        &&& self.canvas.height == self.layout.spec_canvas_height()
        &&& self.count <= self.layout.spec_capacity()
    }

    /// The empty merger over `layout` for images of `channels` channels:
    /// no image placed, every channel of the canvas zero.
    pub open spec fn empty(layout: GridLayout, channels: nat) -> GridModel {
        GridModel {
            layout,
            count: 0,
            canvas: Raster::blank(
                layout.spec_canvas_width() as nat,
                layout.spec_canvas_height() as nat,
                channels,
            ),
        }
    }

    /// The number of cells of the grid.
    pub open spec fn capacity(self) -> int {
        self.layout.spec_capacity()
    }

    /// The number of cells that are still free.
    pub open spec fn space(self) -> int {
        self.capacity() - self.count
    }

    /// The index of the cell that was filled last, or -1 where none was.
    pub open spec fn last_pasted_index(self) -> int {
        self.count - 1
    }

    /// Whether `image` has the size of a cell and the channels of the
    /// canvas.
    pub open spec fn takes(self, image: Raster) -> bool {
        &&& image.wf()
        &&& image.width == self.layout.cell_width
        &&& image.height == self.layout.cell_height
        &&& image.channels == self.canvas.channels
    }

    /// Whether each of `images` has the size of a cell.
    pub open spec fn takes_all(self, images: Seq<Raster>) -> bool {
        forall|k: int| 0 <= k < images.len() ==> self.takes(#[trigger] images[k])
    }

    /// The merger after `image` was placed in the next free cell.
    pub open spec fn push(self, image: Raster) -> GridModel {
        let origin = self.layout.spec_origin(self.count as int);
        GridModel {
            layout: self.layout,
            count: self.count + 1,
            canvas: self.canvas.paste(image, origin.x as int, origin.y as int),
        }
    }

    /// The merger after each of `images` was placed by a `push` of its
    /// own, in order.
    pub open spec fn push_each(self, images: Seq<Raster>) -> GridModel
        decreases images.len(),
    {
        if images.len() == 0 {
            self
        } else {
            self.push_each(images.drop_last()).push(images.last())
        }
    }

    /// The merger after `images` were placed together in the next free
    /// cells: `images[k]` lies in the cell `count + k`.
    pub open spec fn bulk_push(self, images: Seq<Raster>) -> GridModel {
        GridModel {
            layout: self.layout,
            count: self.count + images.len(),
            canvas: self.canvas.overlay(
                images,
                self.layout.origins(self.count as int, images.len()),
            ),
        }
    }

    /// The merger after `cover` was pasted over the cell `index`. The
    /// number of images placed stays as it is.
    pub open spec fn cover_cell(self, index: int, cover: Raster) -> GridModel {
        let origin = self.layout.spec_origin(index);
        GridModel {
            layout: self.layout,
            count: self.count,
            canvas: self.canvas.paste(cover, origin.x as int, origin.y as int),
        }
    }

    /// The merger after the cell `index` was blanked: every channel of
    /// the cell is zero, everything else is as it was.
    pub open spec fn remove(self, index: int) -> GridModel {
        self.cover_cell(
            index,
            Raster::blank(
                self.layout.cell_width as nat,
                self.layout.cell_height as nat,
                self.canvas.channels,
            ),
        )
    }
}

/// Why an image was not placed.
#[derive(Debug, Clone, Copy, PartialEq, Eq, Structural)]
pub enum PushError {
    /// The grid has no free cell left for it.
    NoSpace,
    /// It does not have the size of a cell.
    WrongSize,
}

/// What every merger offers: a canvas laid out as a grid, and the means
/// to place images in its cells.
pub trait Merger<const C: usize>: Sized {
    /// The merger as a value.
    spec fn grid(&self) -> GridModel;

    /// The width and the height of a cell, which every image must have.
    fn get_image_dimensions(&self) -> (dimensions: (u32, u32))
        ensures
            dimensions.0 == self.grid().layout.cell_width,
            dimensions.1 == self.grid().layout.cell_height,
    ;

    /// The number of cells that are still free.
    fn additional_space(&self) -> (space: u32)
        requires
            self.grid().wf(),
        ensures
            space == self.grid().space(),
    ;

    /// The canvas with everything placed so far.
    fn get_canvas(&self) -> (canvas: &Image<C>)
        ensures
            canvas@ == self.grid().canvas,
    ;

    /// The canvas, without the merger around it.
    fn into_canvas(self) -> (canvas: Image<C>)
        ensures
            canvas@ == self.grid().canvas,
    ;

    /// Places `image` in the next free cell. The grid must have a free
    /// cell, and the image the size of a cell.
    fn push(&mut self, image: &Image<C>)
        requires
            old(self).grid().wf(),
            old(self).grid().takes(image@),
            old(self).grid().space() > 0,
        ensures
            final(self).grid().wf(),
            final(self).grid() == old(self).grid().push(image@),
    ;

    /// Places `images` in the next free cells, all in one parallel pass
    /// over the canvas: `images[k]` lies in the cell `count + k`
    /// afterwards. The grid must have a free cell for each of them, and
    /// each of them the size of a cell.
    fn bulk_push(&mut self, images: &[&Image<C>])
        requires
            old(self).grid().wf(),
            old(self).grid().takes_all(views(images@)),
            images@.len() <= old(self).grid().space(),
        ensures
            final(self).grid().wf(),
            final(self).grid() == old(self).grid().bulk_push(views(images@)),
    ;
}

/// A merger for images whose size is known beforehand: every image has
/// the size of a cell of the grid.
pub struct KnownSizeMerger<const C: usize> {
    pub(crate) canvas: ImageCell<C>,
    pub(crate) layout: GridLayout,
    pub(crate) num_images: u32,
}

impl<const C: usize> KnownSizeMerger<C> {
    /// The merger as a value.
    pub open(crate) spec fn view(&self) -> GridModel {
        GridModel { layout: self.layout, count: self.num_images as nat, canvas: self.canvas@ }
    }

    /// The merger is well formed.
    pub open(crate) spec fn wf(&self) -> bool {
        self@.wf() && self@.canvas.channels == C
    }

    /// Whether a merger can be made for these parameters: both counts are
    /// at least one, and the size of the canvas and the number of cells
    /// fit in 32 bits.
    pub open spec fn constructible(
        image_dimensions: (u32, u32),
        images_per_row: u32,
        total_images: u32,
        padding: Option<Padding>,
    ) -> bool {
        images_per_row >= 1 && total_images >= 1 && GridLayout::describable(
            image_dimensions,
            images_per_row,
            rows_for(total_images as int, images_per_row as int),
            padding,
        )
    }

    /// The grid that these parameters describe.
    pub open spec fn layout_for(
        image_dimensions: (u32, u32),
        images_per_row: u32,
        total_images: u32,
        padding: Option<Padding>,
    ) -> GridLayout {
        GridLayout::describe(
            image_dimensions,
            images_per_row,
            rows_for(total_images as int, images_per_row as int),
            padding,
        )
    }

    /// An empty merger for `total_images` images of size
    /// `image_dimensions` at `images_per_row` images per row, with
    /// `padding` between them. The canvas is allocated at the size that
    /// the grid gives it, with every channel zero.
    pub fn new(
        image_dimensions: (u32, u32),
        images_per_row: u32,
        total_images: u32,
        padding: Option<Padding>,
    ) -> (merger: Self)
        requires
            Self::constructible(image_dimensions, images_per_row, total_images, padding),
            buffer_len(
                Self::layout_for(
                    image_dimensions,
                    images_per_row,
                    total_images,
                    padding,
                ).spec_canvas_width(),
                Self::layout_for(
                    image_dimensions,
                    images_per_row,
                    total_images,
                    padding,
                ).spec_canvas_height(),
                C as int,
            ) <= usize::MAX,
        ensures
            merger.wf(),
            merger@ == GridModel::empty(
                Self::layout_for(image_dimensions, images_per_row, total_images, padding),
                C as nat,
            ),
    {
        let layout: GridLayout = GridLayout::new(
            image_dimensions,
            images_per_row,
            total_images,
            padding,
        ).unwrap();
        let canvas: Image<C> = Image::new(layout.canvas_width(), layout.canvas_height());
        KnownSizeMerger { canvas: ImageCell::new(canvas), layout, num_images: 0 }
    }

    /// An empty merger over a canvas whose channel array the caller
    /// supplies. It is present exactly when a merger can be made for the
    /// parameters and the array has the size of the canvas that the grid
    /// asks for; the canvas then holds what the array held.
    pub fn new_from_raw(
        image_dimensions: (u32, u32),
        images_per_row: u32,
        total_images: u32,
        padding: Option<Padding>,
        container: Vec<u8>,
    ) -> (merger: Option<Self>)
        ensures
            merger.is_some() <==> Self::constructible(
                image_dimensions,
                images_per_row,
                total_images,
                padding,
            ) && container@.len() == buffer_len(
                Self::layout_for(
                    image_dimensions,
                    images_per_row,
                    total_images,
                    padding,
                ).spec_canvas_width(),
                Self::layout_for(
                    image_dimensions,
                    images_per_row,
                    total_images,
                    padding,
                ).spec_canvas_height(),
                C as int,
            ),
            merger.is_some() ==> {
                let layout = Self::layout_for(
                    image_dimensions,
                    images_per_row,
                    total_images,
                    padding,
                );
                &&& merger.unwrap().wf()
                &&& merger.unwrap()@ == (GridModel {
                    layout,
                    count: 0,
                    canvas: Raster {
                        width: layout.spec_canvas_width() as nat,
                        height: layout.spec_canvas_height() as nat,
                        channels: C as nat,
                        data: container@,
                    },
                })
            },
    {
        match GridLayout::new(image_dimensions, images_per_row, total_images, padding) {
            Some(layout) => {
                match Image::new_from_raw(layout.canvas_width(), layout.canvas_height(), container) {
                    Some(canvas) => Some(
                        KnownSizeMerger { canvas: ImageCell::new(canvas), layout, num_images: 0 },
                    ),
                    None => None,
                }
            },
            None => None,
        }
    }

    /// The number of images placed so far.
    pub fn get_num_images(&self) -> (count: u32)
        ensures
            count == self@.count,
    {
        self.num_images
    }

    /// The grid of the merger.
    pub fn get_layout(&self) -> (layout: GridLayout)
        ensures
            layout == self@.layout,
    {
        self.layout
    }

    /// The top left corner of the cell `index`.
    pub fn get_paste_coordinates_unchecked(&self, index: u32) -> (at: (u32, u32))
        requires
            self.wf(),
            index < self@.capacity(),
        ensures
            at.0 == self@.layout.spec_origin(index as int).x,
            at.1 == self@.layout.spec_origin(index as int).y,
    {
        let origin = self.layout.origin(index);
        (origin.x, origin.y)
    }

    /// The top left corner of the next free cell.
    pub fn get_next_paste_coordinates(&self) -> (at: (u32, u32))
        requires
            self.wf(),
            self@.space() > 0,
        ensures
            at.0 == self@.layout.spec_origin(self@.last_pasted_index() + 1).x,
            at.1 == self@.layout.spec_origin(self@.last_pasted_index() + 1).y,
    {
        self.get_paste_coordinates_unchecked(self.num_images)
    }

    /// Places `image` in the next free cell, or says why it cannot: the
    /// grid is full, or the image is not of the size of a cell. Where it
    /// cannot, nothing changes.
    pub fn try_push(&mut self, image: &Image<C>) -> (outcome: Result<(), PushError>)
        requires
            old(self).wf(),
            image.wf(),
        ensures
            final(self).wf(),
            match outcome {
                Ok(_) => old(self)@.space() > 0 && old(self)@.takes(image@) && final(self)@ == old(
                    self,
                )@.push(image@),
                Err(PushError::NoSpace) => old(self)@.space() == 0 && *final(self) == *old(self),
                Err(PushError::WrongSize) => old(self)@.space() > 0 && !old(self)@.takes(image@)
                    && *final(self) == *old(self),
            },
    {
        if self.additional_space() == 0 {
            return Err(PushError::NoSpace);
        }
        if image.width() != self.layout.cell_width || image.height() != self.layout.cell_height {
            return Err(PushError::WrongSize);
        }
        self.push(image);
        Ok(())
    }

    /// Places `images` in the next free cells, or says why it cannot:
    /// the grid lacks a free cell for one of them, or one of them is
    /// not of the size of a cell. Where it cannot, nothing changes.
    pub fn try_bulk_push(&mut self, images: &[&Image<C>]) -> (outcome: Result<(), PushError>)
        requires
            old(self).wf(),
            all_wf(images@),
        ensures
            final(self).wf(),
            match outcome {
                Ok(_) => images@.len() <= old(self)@.space() && old(self)@.takes_all(
                    views(images@),
                ) && final(self)@ == old(self)@.bulk_push(views(images@)),
                Err(PushError::NoSpace) => images@.len() > old(self)@.space() && *final(self)
                    == *old(self),
                Err(PushError::WrongSize) => images@.len() <= old(self)@.space() && !old(
                    self,
                )@.takes_all(views(images@)) && *final(self) == *old(self),
            },
    {
        let count: usize = images.len();
        if count > self.additional_space() as usize {
            return Err(PushError::NoSpace);
        }
        let mut k: usize = 0;
        while k < count
            invariant
                k <= count,
                count == images@.len(),
                count <= self@.space(),
                all_wf(images@),
                self.wf(),
                *self == *old(self),
                forall|i: int| 0 <= i < k ==> self@.takes(#[trigger] views(images@)[i]),
            decreases count - k,
        {
            let image: &Image<C> = images[k];
            if image.width() != self.layout.cell_width || image.height()
                != self.layout.cell_height {
                assert(!self@.takes(views(images@)[k as int]));
                return Err(PushError::WrongSize);
            }
            assert(images@[k as int].wf());
            k += 1;
        }
        self.bulk_push(images);
        Ok(())
    }

    /// Pastes the image over `container` onto the cell `index`. Nothing
    /// is done, and the result is absent, unless `container` has one
    /// entry per channel of each pixel of a cell. The number of images
    /// placed stays as it is.
    pub fn remove_image_raw(&mut self, index: u32, container: Vec<u8>) -> (done: Option<()>)
        requires
            old(self).wf(),
            index < old(self)@.capacity(),
        ensures
            final(self).wf(),
            done.is_some() <==> container@.len() == buffer_len(
                old(self)@.layout.cell_width as int,
                old(self)@.layout.cell_height as int,
                C as int,
            ),
            done.is_some() ==> final(self)@ == old(self)@.cover_cell(
                index as int,
                Raster {
                    width: old(self)@.layout.cell_width as nat,
                    height: old(self)@.layout.cell_height as nat,
                    channels: C as nat,
                    data: container@,
                },
            ),
            done.is_none() ==> *final(self) == *old(self),
    {
        let origin = self.layout.origin(index);
        match Image::new_from_raw(self.layout.cell_width, self.layout.cell_height, container) {
            Some(cover) => {
                paste(&mut self.canvas, &cover, origin);
                Some(())
            },
            None => None,
        }
    }

    /// Blanks the cell `index`: every channel of every pixel of the cell
    /// becomes zero, and everything else, the padding and the other
    /// cells, stays as it is. The cell is not given free: the number of
    /// images placed stays as it is.
    pub fn remove_image(&mut self, index: u32)
        requires
            old(self).wf(),
            index < old(self)@.capacity(),
        ensures
            final(self).wf(),
            final(self)@ == old(self)@.remove(index as int),
    {
        let origin = self.layout.origin(index);
        // The canvas is in memory, and a cell is no larger than the canvas.
        let canvas_len: usize = self.canvas.get_image().capacity();
        proof {
            lemma_cell_buffer_fits(self.layout, C as int);
        }
        let blank: Image<C> = Image::new(self.layout.cell_width, self.layout.cell_height);
        paste(&mut self.canvas, &blank, origin);
    }
}

impl<const C: usize> Merger<C> for KnownSizeMerger<C> {
    open(crate) spec fn grid(&self) -> GridModel {
        self@
    }

    fn get_image_dimensions(&self) -> (dimensions: (u32, u32)) {
        (self.layout.cell_width, self.layout.cell_height)
    }

    fn additional_space(&self) -> (space: u32) {
        self.layout.capacity() - self.num_images
    }

    fn get_canvas(&self) -> (canvas: &Image<C>) {
        self.canvas.get_image()
    }

    fn into_canvas(self) -> (canvas: Image<C>) {
        self.canvas.into_inner()
    }

    fn push(&mut self, image: &Image<C>) {
        let origin = self.layout.origin(self.num_images);
        paste(&mut self.canvas, image, origin);
        self.num_images = self.num_images + 1;
    }

    fn bulk_push(&mut self, images: &[&Image<C>]) {
        let count: usize = images.len();
        let first: u32 = self.num_images;
        let mut origins: Vec<Point> = Vec::with_capacity(count);
        let mut k: usize = 0;
        while k < count
            invariant
                self.wf(),
                first == self.num_images,
                k <= count,
                first + count <= self@.capacity(),
                origins@ == self.layout.origins(first as int, k as nat),
                forall|i: int|
                    0 <= i < k ==> (#[trigger] origins@[i]).x + self.layout.cell_width
                        <= self.layout.spec_canvas_width(),
            decreases count - k,
        {
            let origin = self.layout.origin(first + k as u32);
            origins.push(origin);
            k += 1;
            assert(origins@ =~= self.layout.origins(first as int, k as nat));
        }
        proof {
            assert forall|i: int| 0 <= i < images@.len() implies (#[trigger] images@[i]).wf() by {
                assert(self@.takes(views(images@)[i]));
            }
            assert forall|i: int| 0 <= i < views(images@).len() implies (#[trigger] origins@[i]).x
                + views(images@)[i].width <= self.canvas@.width by {
                assert(self@.takes(views(images@)[i]));
            }
            crate::raster::lemma_overlay_pointwise(self.canvas@, views(images@), origins@);
        }
        paste_all(&mut self.canvas.underlying, images, origins.as_slice());
        self.num_images = first + count as u32;
    }
}

/// The channel array of a cell is no longer than that of the canvas.
pub proof fn lemma_cell_buffer_fits(layout: GridLayout, channels: int)
    requires
        layout.valid(),
        channels >= 0,
    ensures
        buffer_len(layout.cell_width as int, layout.cell_height as int, channels) <= buffer_len(
            layout.spec_canvas_width(),
            layout.spec_canvas_height(),
            channels,
        ),
{
    let cw = layout.cell_width as int;
    let ch = layout.cell_height as int;
    let w = layout.spec_canvas_width();
    let h = layout.spec_canvas_height();
    assert(layout.spec_capacity() >= 1) by (nonlinear_arith)
        requires
            layout.spec_capacity() == layout.columns * layout.rows,
            layout.columns >= 1,
            layout.rows >= 1,
    ;
    lemma_cell_within(layout, 0);
    assert(cw * ch * channels <= w * h * channels) by (nonlinear_arith)
        requires
            0 <= cw <= w,
            0 <= ch <= h,
            channels >= 0,
    ;
}

/// Placing images one at a time gives the canvas that the plain
/// sequential way of merging gives: each image pasted in turn at the
/// corner of its cell.
pub proof fn lemma_push_each_is_overlay(merger: GridModel, images: Seq<Raster>)
    ensures
        merger.push_each(images).layout == merger.layout,
        merger.push_each(images).count == merger.count + images.len(),
        merger.push_each(images).canvas == merger.canvas.overlay(
            images,
            merger.layout.origins(merger.count as int, images.len()),
        ),
    decreases images.len(),
{
    if images.len() > 0 {
        lemma_push_each_is_overlay(merger, images.drop_last());
        let origins = merger.layout.origins(merger.count as int, images.len());
        assert(origins.drop_last() =~= merger.layout.origins(
            merger.count as int,
            images.drop_last().len(),
        ));
    }
}

/// Placing images together gives what placing them one at a time, in the
/// same order, gives.
pub proof fn lemma_bulk_push_is_push_each(merger: GridModel, images: Seq<Raster>)
    ensures
        merger.bulk_push(images) == merger.push_each(images),
{
    lemma_push_each_is_overlay(merger, images);
}

/// Placing images, one at a time or together, keeps a merger well formed
/// as long as the grid has a free cell for each of them.
pub proof fn lemma_push_each_wf(merger: GridModel, images: Seq<Raster>)
    requires
        merger.wf(),
        images.len() <= merger.space(),
    ensures
        merger.push_each(images).wf(),
        merger.push_each(images).space() == merger.space() - images.len(),
    decreases images.len(),
{
    if images.len() > 0 {
        lemma_push_each_wf(merger, images.drop_last());
        lemma_push_each_is_overlay(merger, images.drop_last());
    }
}

/// Blanking a cell sets every channel of the pixels of that cell to zero
/// and leaves every other pixel of the canvas, in the padding or in
/// another cell, as it was; the size of the canvas and the number of
/// images placed stay as they are.
pub proof fn lemma_remove_blanks_one_cell(merger: GridModel, index: int)
    requires
        merger.wf(),
        0 <= index < merger.capacity(),
    ensures
        merger.remove(index).wf(),
        merger.remove(index).count == merger.count,
        merger.remove(index).canvas.same_shape(merger.canvas),
        forall|x: int, y: int, c: int|
            merger.canvas.contains(x, y, c) ==> #[trigger] merger.remove(index).canvas.at(x, y, c)
                == if merger.layout.in_cell(index, x, y) {
                0u8
            } else {
                merger.canvas.at(x, y, c)
            },
        forall|other: int, x: int, y: int, c: int|
            0 <= other < merger.capacity() && other != index && merger.canvas.contains(x, y, c)
                && #[trigger] merger.layout.in_cell(other, x, y) ==> #[trigger] merger.remove(
                index,
            ).canvas.at(x, y, c) == merger.canvas.at(x, y, c),
{
    let origin = merger.layout.spec_origin(index);
    let blank = Raster::blank(
        merger.layout.cell_width as nat,
        merger.layout.cell_height as nat,
        merger.canvas.channels,
    );
    assert forall|x: int, y: int, c: int| merger.canvas.contains(x, y, c) implies #[trigger]
        merger.remove(index).canvas.at(x, y, c) == if merger.layout.in_cell(index, x, y) {
        0u8
    } else {
        merger.canvas.at(x, y, c)
    } by {
        crate::raster::lemma_paste_at(merger.canvas, blank, origin.x as int, origin.y as int, x, y, c);
        if merger.layout.in_cell(index, x, y) {
            crate::raster::lemma_offset_in_range(blank, x - origin.x, y - origin.y, c);
        }
    }
    assert forall|other: int, x: int, y: int, c: int|
        0 <= other < merger.capacity() && other != index && merger.canvas.contains(x, y, c)
            && #[trigger] merger.layout.in_cell(other, x, y) implies #[trigger] merger.remove(
        index,
    ).canvas.at(x, y, c) == merger.canvas.at(x, y, c) by {
        crate::geometry::lemma_cells_disjoint(merger.layout, index, other, x, y);
    }
}

} // verus!
