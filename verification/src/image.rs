//! Images: a width, a height and a flat array of 8-bit channels.
use vstd::array::array_fill_for_copy_types;
use vstd::prelude::*;
use crate::raster::lemma_offset_in_range;
use crate::raster::Raster;

verus! {

/// An image of `width` by `height` pixels with `C` channels of 8 bits per
/// pixel, stored row by row in one flat array. The pixel at `(x, y)` holds
/// the `C` entries from offset `(y * width + x) * C` on.
#[derive(Debug, Clone, PartialEq, Eq, Hash)]
pub struct Image<const C: usize> {
    pub(crate) width: u32,
    pub(crate) height: u32,
    pub(crate) data: Vec<u8>,
}

/// The number of channel entries of an image of `width` by `height`
/// pixels with `channels` channels per pixel.
pub open spec fn buffer_len(width: int, height: int, channels: int) -> int {
    width * height * channels
}

/// Computes `buffer_len`, or nothing where it does not fit in a `usize`.
pub fn checked_buffer_len(width: u32, height: u32, channels: usize) -> (len: Option<usize>)
    ensures
        match len {
            Some(n) => n == buffer_len(width as int, height as int, channels as int),
            None => buffer_len(width as int, height as int, channels as int) > usize::MAX,
        },
{
    assert(width as int * height as int <= 0xffff_ffff * 0xffff_ffff) by (nonlinear_arith)
        requires
            0 <= width <= 0xffff_ffff,
            0 <= height <= 0xffff_ffff,
    ;
    let pixels: u64 = width as u64 * height as u64;
    assert(pixels as int * channels as int <= 0xffff_ffff_ffff_ffff * 0xffff_ffff_ffff_ffff)
        by (nonlinear_arith)
        requires
            0 <= pixels <= 0xffff_ffff_ffff_ffff,
            0 <= channels <= 0xffff_ffff_ffff_ffff,
    ;
    let total: u128 = pixels as u128 * channels as u128;
    if total <= usize::MAX as u128 {
        Some(total as usize)
    } else {
        None
    }
}

/// The values of a sequence of images, in the same order.
pub open spec fn views<const C: usize>(images: Seq<&Image<C>>) -> Seq<Raster> {
    Seq::new(images.len(), |k: int| images[k]@)
}

impl<const C: usize> Image<C> {
    /// The image as a value.
    pub open(crate) spec fn view(&self) -> Raster {
        Raster {
            width: self.width as nat,
            height: self.height as nat,
            channels: C as nat,
            data: self.data@,
        }
    }

    /// The channel array has one entry per channel of each pixel.
    pub open(crate) spec fn wf(&self) -> bool {
        self@.wf()
    }

    /// The width in pixels.
    pub fn width(&self) -> (w: u32)
        ensures
            w == self@.width,
    {
        self.width
    }

    /// The height in pixels.
    pub fn height(&self) -> (h: u32)
        ensures
            h == self@.height,
    {
        self.height
    }

    /// The width and the height in pixels.
    pub fn dimensions(&self) -> (d: (u32, u32))
        ensures
            d.0 == self@.width,
            d.1 == self@.height,
    {
        (self.width, self.height)
    }

    /// The number of entries of the channel array.
    pub fn capacity(&self) -> (n: usize)
        ensures
            n == self@.data.len(),
            self.wf() ==> n == buffer_len(self@.width as int, self@.height as int, C as int),
    {
        self.data.len()
    }

    /// The channel array, without the image around it.
    pub fn into_buffer(self) -> (buffer: Vec<u8>)
        ensures
            buffer@ == self@.data,
    {
        self.data
    }

    /// The channel array.
    pub fn get_underlying(&self) -> (buffer: &Vec<u8>)
        ensures
            buffer@ == self@.data,
    {
        &self.data
    }

    /// An image of the given size with every channel zero.
    pub fn new(width: u32, height: u32) -> (image: Self)
        requires
            buffer_len(width as int, height as int, C as int) <= usize::MAX,
        ensures
            image.wf(),
            image@ == Raster::blank(width as nat, height as nat, C as nat),
    {
        let len = checked_buffer_len(width, height, C);
        let data: Vec<u8> = vec![zero_channel(); len.unwrap()];
        assert(data@ =~= Raster::blank(width as nat, height as nat, C as nat).data);
        Image { width, height, data }
    }

    /// An image of the given size in which every pixel is `pixel`.
    pub fn new_from_pixel(width: u32, height: u32, pixel: [u8; C]) -> (image: Self)
        requires
            buffer_len(width as int, height as int, C as int) <= usize::MAX,
        ensures
            image.wf(),
            image@ == Raster::uniform(width as nat, height as nat, pixel@),
    {
        let len: usize = checked_buffer_len(width, height, C).unwrap();
        let mut data: Vec<u8> = Vec::with_capacity(len);
        let mut c: usize = 0;
        proof {
            if C == 0 {
                assert(width as int * height as int * 0 == 0) by (nonlinear_arith);
            }
        }
        while data.len() < len
            invariant
                data@.len() <= len,
                C > 0 ==> c == (data@.len() as int) % (C as int),
                C > 0 ==> c < C,
                len > 0 ==> C > 0,
                forall|i: int| 0 <= i < data@.len() ==> data@[i] == pixel@[i % (C as int)],
            decreases len - data@.len(),
        {
            let ghost at = data@.len() as int;
            data.push(pixel[c]);
            c = if c + 1 == C { 0 } else { c + 1 };
            proof {
                lemma_next_residue(at, C as int);
            }
        }
        assert(data@ =~= Raster::uniform(width as nat, height as nat, pixel@).data);
        Image { width, height, data }
    }

    /// The image over a channel array that the caller supplies: present
    /// exactly when the array has one entry per channel of each pixel.
    pub fn new_from_raw(width: u32, height: u32, container: Vec<u8>) -> (image: Option<Self>)
        ensures
            image.is_some() <==> container@.len() == buffer_len(
                width as int,
                height as int,
                C as int,
            ),
            image.is_some() ==> image.unwrap().wf() && image.unwrap()@ == (Raster {
                width: width as nat,
                height: height as nat,
                channels: C as nat,
                data: container@,
            }),
    {
        let given: usize = container.len();
        match checked_buffer_len(width, height, C) {
            Some(len) => {
                if given == len {
                    Some(Image { width, height, data: container })
                } else {
                    None
                }
            },
            None => None,
        }
    }

    /// Where the first channel of the pixel at `(x, y)` lies in the
    /// channel array.
    pub(crate) fn pixel_offset(&self, x: u32, y: u32) -> (at: usize)
        requires
            self.wf(),
            x < self@.width,
            y < self@.height,
        ensures
            at == self@.offset(x as int, y as int, 0),
            at + C <= self@.data.len(),
    {
        let len: usize = self.data.len();
        if C == 0 {
            assert(self@.offset(x as int, y as int, 0) == 0) by (nonlinear_arith)
                requires
                    self@.offset(x as int, y as int, 0) == (y * self@.width + x) * 0,
            ;
            0
        } else {
            proof {
                lemma_offset_in_range(self@, x as int, y as int, C - 1);
                let p = y as int * self.width as int + x as int;
                assert(0 <= y as int * self.width as int <= p) by (nonlinear_arith)
                    requires
                        p == y as int * self.width as int + x as int,
                        0 <= y,
                        0 <= self.width,
                        0 <= x,
                ;
                assert(p <= p * C) by (nonlinear_arith)
                    requires
                        0 <= p,
                        C >= 1,
                ;
            }
            (y as usize * self.width as usize + x as usize) * C
        }
    }

    /// The pixel at `(x, y)`.
    pub fn get_pixel(&self, x: u32, y: u32) -> (pixel: [u8; C])
        requires
            self.wf(),
            x < self@.width,
            y < self@.height,
        ensures
            pixel@ == self@.pixel(x as int, y as int),
    {
        let at = self.pixel_offset(x, y);
        let len: usize = self.data.len();
        let mut pixel: [u8; C] = array_fill_for_copy_types(0u8);
        let mut c: usize = 0;
        while c < C
            invariant
                c <= C,
                at + C <= self.data@.len() <= usize::MAX,
                forall|k: int| 0 <= k < c ==> pixel@[k] == self.data@[at + k],
            decreases C - c,
        {
            pixel[c] = self.data[at + c];
            c += 1;
        }
        assert(pixel@ =~= self@.pixel(x as int, y as int));
        pixel
    }

    /// Overwrites the pixel at `(x, y)` with `pixel` and leaves every
    /// other pixel as it was.
    pub fn put_pixel(&mut self, x: u32, y: u32, pixel: [u8; C])
        requires
            old(self).wf(),
            x < old(self)@.width,
            y < old(self)@.height,
        ensures
            final(self).wf(),
            final(self)@ == old(self)@.with_pixel(x as int, y as int, pixel@),
    {
        let at = self.pixel_offset(x, y);
        let len: usize = self.data.len();
        let mut c: usize = 0;
        while c < C
            invariant
                c <= C,
                self.width == old(self).width,
                self.height == old(self).height,
                self.data@.len() == old(self).data@.len(),
                at + C <= self.data@.len() <= usize::MAX,
                forall|i: int|
                    0 <= i < self.data@.len() ==> self.data@[i] == if at <= i < at + c {
                        pixel@[i - at]
                    } else {
                        old(self).data@[i]
                    },
            decreases C - c,
        {
            self.data[at + c] = pixel[c];
            c += 1;
        }
        assert(self.data@ =~= old(self)@.with_pixel(x as int, y as int, pixel@).data);
    }
}

/// `num_traits::Zero::zero` at `u8`: the additive identity, which is 0.
#[verifier::external_body]
fn zero_channel() -> (z: u8)
    ensures
        z == 0,
{
    num_traits::Zero::zero()
}

/// The residue of `i + 1` is the residue of `i` plus one, or zero where
/// that reaches the modulus.
proof fn lemma_next_residue(i: int, m: int)
    requires
        0 <= i,
        0 < m,
    ensures
        (i + 1) % m == if i % m + 1 == m {
            0
        } else {
            i % m + 1
        },
{
    assert((i + 1) % m == if i % m + 1 == m {
        0
    } else {
        i % m + 1
    }) by (nonlinear_arith)
        requires
            0 <= i,
            0 < m,
    ;
}

} // verus!
