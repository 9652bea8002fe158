//! A canvas that hands out single-use write capabilities for its pixels.
use std::collections::HashSet;
use vstd::prelude::*;
use crate::geometry::Point;
use crate::image::Image;
use crate::raster::Raster;

verus! {

broadcast use vstd::std_specs::hash::group_hash_axioms;

/// Owns one canvas and grants write access to it one pixel at a time,
/// through handouts. It also keeps the set of coordinates for which a
/// checked handout was issued.
pub struct ImageCell<const C: usize> {
    pub(crate) underlying: Image<C>,
    pub(crate) recorded: HashSet<u64>,
}

/// The capability to write the pixel at `(x, y)` of the canvas of `ic`,
/// once.
pub struct Handout<'a, const C: usize> {
    pub ic: &'a mut ImageCell<C>,
    pub x: u32,
    pub y: u32,
}

/// The number under which the coordinate `(x, y)` is recorded.
pub open spec fn coordinate_key(x: int, y: int) -> int {
    y * 0x1_0000_0000 + x
}

impl<const C: usize> ImageCell<C> {
    /// The canvas as a value.
    pub open(crate) spec fn view(&self) -> Raster {
        self.underlying@
    }

    /// The canvas is well formed.
    pub open(crate) spec fn wf(&self) -> bool {
        self.underlying.wf()
    }

    /// The coordinates for which a checked handout was issued.
    pub open(crate) spec fn issued(&self) -> Set<Point> {
        Set::new(|p: Point| self.recorded@.contains(coordinate_key(p.x as int, p.y as int) as u64))
    }

    /// A cell around `image`, with no handout issued.
    pub fn new(image: Image<C>) -> (cell: Self)
        ensures
            cell@ == image@,
            cell.wf() == image.wf(),
            cell.issued() == Set::<Point>::empty(),
    {
        let cell = ImageCell { underlying: image, recorded: HashSet::new() };
        assert(cell.issued() =~= Set::<Point>::empty());
        cell
    }

    /// The canvas, without the cell around it.
    pub fn into_inner(self) -> (image: Image<C>)
        ensures
            image@ == self@,
            image.wf() == self.wf(),
    {
        self.underlying
    }

    /// The canvas, for reading.
    pub fn get_image(&self) -> (image: &Image<C>)
        ensures
            image@ == self@,
            image.wf() == self.wf(),
    {
        &self.underlying
    }

    /// An unchecked handout for the pixel at `(x, y)`: nothing is
    /// recorded, and the caller answers for the coordinate being a pixel
    /// of the canvas.
    pub fn request_handout_unchecked(&mut self, x: u32, y: u32) -> (handout: Handout<'_, C>)
        requires
            x < old(self)@.width,
            y < old(self)@.height,
        ensures
            handout.x == x,
            handout.y == y,
            *handout.ic == *old(self),
            *final(self) == *final(handout.ic),
    {
        Handout { ic: self, x, y }
    }

    /// A checked handout for the pixel at `(x, y)`: absent where the
    /// coordinate is no pixel of the canvas or a checked handout was
    /// issued for it before; otherwise the coordinate is recorded from now
    /// on.
    pub fn request_handout(&mut self, x: u32, y: u32) -> (handout: Option<Handout<'_, C>>)
        ensures
            handout.is_some() <==> x < old(self)@.width && y < old(self)@.height && !old(
                self,
            ).issued().contains(Point { x, y }),
            handout.is_none() ==> *final(self) == *old(self),
            handout.is_some() ==> {
                let h = handout.unwrap();
                &&& h.x == x
                &&& h.y == y
                &&& h.ic@ == old(self)@
                &&& h.ic.wf() == old(self).wf()
                &&& h.ic.issued() == old(self).issued().insert(Point { x, y })
                &&& *final(self) == *final(h.ic)
            },
    {
        if x >= self.underlying.width || y >= self.underlying.height {
            return None;
        }
        let key: u64 = y as u64 * 0x1_0000_0000 + x as u64;
        if self.recorded.contains(&key) {
            return None;
        }
        let ghost before = self.issued();
        self.recorded.insert(key);
        proof {
            assert forall|p: Point| #[trigger]
                self.issued().contains(p) == before.insert(Point { x, y }).contains(p) by {
                if p != (Point { x, y }) {
                    assert(coordinate_key(p.x as int, p.y as int) != coordinate_key(
                        x as int,
                        y as int,
                    ));
                }
            }
            assert(self.issued() =~= before.insert(Point { x, y }));
        }
        Some(Handout { ic: self, x, y })
    }
}

impl<'a, const C: usize> Handout<'a, C> {
    /// Writes `pixel` at the coordinate of the handout, which is used up
    /// by that. Every other pixel and the recorded coordinates stay as
    /// they were.
    pub fn put_pixel(self, pixel: [u8; C])
        requires
            old(self.ic).wf(),
            self.x < old(self.ic)@.width,
            self.y < old(self.ic)@.height,
        ensures
            final(self.ic).wf(),
            final(self.ic)@ == old(self.ic)@.with_pixel(self.x as int, self.y as int, pixel@),
            final(self.ic).issued() == old(self.ic).issued(),
    {
        self.ic.underlying.put_pixel(self.x, self.y, pixel);
    }
}

} // verus!
