//! A merger whose grid is given by its number of rows.
use vstd::prelude::*;
use crate::cell::ImageCell;
use crate::geometry::GridLayout;
use crate::geometry::Padding;
use crate::image::buffer_len;
use crate::image::Image;
use crate::merger::GridModel;
use crate::merger::KnownSizeMerger;
use crate::merger::Merger;

verus! {

/// A merger over a grid of a fixed number of rows and columns. Every
/// cell has the size given at construction; an image of another size is
/// brought to it by placing it with `resize_push`.
pub struct FixedSizeMerger<const C: usize> {
    pub(crate) inner: KnownSizeMerger<C>,
}

impl<const C: usize> FixedSizeMerger<C> {
    /// The merger as a value.
    pub open(crate) spec fn view(&self) -> GridModel {
        self.inner@
    }

    /// The merger is well formed.
    pub open(crate) spec fn wf(&self) -> bool {
        self.inner.wf()
    }

    /// An empty merger over `total_rows` rows of `images_per_row` cells
    /// of size `image_dimensions`, with `padding` between them. The
    /// canvas is allocated at the size that the grid gives it, with every
    /// channel zero.
    pub fn new(
        image_dimensions: (u32, u32),
        images_per_row: u32,
        total_rows: u32,
        padding: Option<Padding>,
    ) -> (merger: Self)
        requires
            GridLayout::describable(image_dimensions, images_per_row, total_rows as int, padding),
            buffer_len(
                GridLayout::describe(
                    image_dimensions,
                    images_per_row,
                    total_rows as int,
                    padding,
                ).spec_canvas_width(),
                GridLayout::describe(
                    image_dimensions,
                    images_per_row,
                    total_rows as int,
                    padding,
                ).spec_canvas_height(),
                C as int,
            ) <= usize::MAX,
        ensures
            merger.wf(),
            merger@ == GridModel::empty(
                GridLayout::describe(image_dimensions, images_per_row, total_rows as int, padding),
                C as nat,
            ),
    {
        let layout: GridLayout = GridLayout::with_rows(
            image_dimensions,
            images_per_row,
            total_rows,
            padding,
        ).unwrap();
        let canvas: Image<C> = Image::new(layout.canvas_width(), layout.canvas_height());
        FixedSizeMerger {
            inner: KnownSizeMerger { canvas: ImageCell::new(canvas), layout, num_images: 0 },
        }
    }

    /// The number of cells in a row.
    pub fn get_images_per_row(&self) -> (columns: u32)
        ensures
            columns == self@.layout.columns,
    {
        self.inner.layout.columns
    }

    /// The number of rows.
    pub fn get_total_rows(&self) -> (rows: u32)
        ensures
            rows == self@.layout.rows,
    {
        self.inner.layout.rows
    }

    /// The number of images placed so far.
    pub fn get_num_images(&self) -> (count: u32)
        ensures
            count == self@.count,
    {
        self.inner.get_num_images()
    }

    /// Blanks the cell `index`: every channel of every pixel of the cell
    /// becomes zero, and everything else stays as it is, the number of
    /// images placed too.
    pub fn remove_image(&mut self, index: u32)
        requires
            old(self).wf(),
            index < old(self)@.capacity(),
        ensures
            final(self).wf(),
            final(self)@ == old(self)@.remove(index as int),
    {
        self.inner.remove_image(index);
    }
}

impl<const C: usize> Merger<C> for FixedSizeMerger<C> {
    open(crate) spec fn grid(&self) -> GridModel {
        self.inner@
    }

    fn get_image_dimensions(&self) -> (dimensions: (u32, u32)) {
        self.inner.get_image_dimensions()
    }

    fn additional_space(&self) -> (space: u32) {
        self.inner.additional_space()
    }

    fn get_canvas(&self) -> (canvas: &Image<C>) {
        self.inner.get_canvas()
    }

    fn into_canvas(self) -> (canvas: Image<C>) {
        self.inner.into_canvas()
    }

    fn push(&mut self, image: &Image<C>) {
        self.inner.push(image);
    }

    fn bulk_push(&mut self, images: &[&Image<C>]) {
        self.inner.bulk_push(images);
    }
}

} // verus!
