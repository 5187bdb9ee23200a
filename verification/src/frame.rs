//! The frame buffer: a packed 4-bit grayscale canvas of the display's size.

use crate::gray4::{
    image_pixel, lemma_index_split, lemma_nibbles, lemma_row_range, lemma_usize_halves, row_bytes,
    row_bytes_spec,
};
use vstd::prelude::*;

verus! {

/// A position on, or off, the canvas.
#[derive(Clone, Copy, Debug, PartialEq, Eq, Structural)]
pub struct Point {
    pub x: i32,
    pub y: i32,
}

impl Point {
    /// The position `(x, y)`.
    pub fn new(x: i32, y: i32) -> (p: Point)
        ensures
            p.x == x,
            p.y == y,
    {
        Point { x, y }
    }
}

/// What a pixel at `(ox, oy)` holds after the low four bits of `v` were put
/// at `(x, y)`.
pub open spec fn put_pixel(prev: u8, ox: int, oy: int, x: int, y: int, v: u8) -> u8 {
    if ox == x && oy == y {
        v & 0x0F
    } else {
        prev
    }
}

/// A canvas of `width` by `height` pixels, each 0 (black) to 15, stored two
/// pixels to a byte.
pub struct FrameBuffer {
    id: u8,
    w: usize,
    h: usize,
    data: Vec<u8>,
}

impl FrameBuffer {
    #[verifier::type_invariant]
    spec fn well_formed(&self) -> bool {
        self.data@.len() == row_bytes_spec(self.w as int) * self.h
    }

    /// The tag that tells this buffer from the other one.
    pub closed spec fn id_spec(&self) -> u8 {
        self.id
    }

    /// Width in pixels.
    pub closed spec fn width_spec(&self) -> int {
        self.w as int
    }

    /// Height in pixels.
    pub closed spec fn height_spec(&self) -> int {
        self.h as int
    }

    /// Whether `(x, y)` is a pixel of the canvas.
    pub open spec fn contains(&self, x: int, y: int) -> bool {
        0 <= x < self.width_spec() && 0 <= y < self.height_spec()
    }

    /// The value of pixel `(x, y)`.
    pub closed spec fn pixel(&self, x: int, y: int) -> u8 {
        image_pixel(self.data@, self.w as int, x, y)
    }

    /// A black canvas of `w` by `h` pixels, or `None` where its byte count
    /// does not fit the machine's word.
    pub fn new(id: u8, w: usize, h: usize) -> (r: Option<FrameBuffer>)
        ensures
            r is Some <==> row_bytes_spec(w as int) * h <= usize::MAX,
            r is Some ==> r->0.id_spec() == id && r->0.width_spec() == w && r->0.height_spec()
                == h && r->0.is_black(),
    {
        let rb = row_bytes(w);
        match rb.checked_mul(h) {
            None => None,
            Some(n) => {
                let data: Vec<u8> = vec![0u8; n];
                let fb = FrameBuffer { id, w, h, data };
                proof {
                    assert forall|x: int, y: int| fb.contains(x, y) implies fb.pixel(x, y)
                        == 0 by {
                        lemma_row_range(y, h as int, rb as int);
                        lemma_nibbles(0, 0, 0, 0);
                        assert(fb.data@[y * rb + x / 2] == 0u8);
                        assert(0u8 & 0x0F == 0u8) by (bit_vector);
                        assert((0u8 >> 4) & 0x0F == 0u8) by (bit_vector);
                    }
                }
                Some(fb)
            },
        }
    }

    /// Whether every pixel is black.
    pub open spec fn is_black(&self) -> bool {
        forall|x: int, y: int| self.contains(x, y) ==> self.pixel(x, y) == 0
    }

    /// The tag that tells this buffer from the other one.
    pub fn id(&self) -> (r: u8)
        ensures
            r == self.id_spec(),
    {
        self.id
    }

    /// Width in pixels.
    pub fn width(&self) -> (r: usize)
        ensures
            r == self.width_spec(),
    {
        self.w
    }

    /// Height in pixels.
    pub fn height(&self) -> (r: usize)
        ensures
            r == self.height_spec(),
    {
        self.h
    }

    /// The packed bytes, row after row, as the display takes them.
    pub fn as_bytes(&self) -> (r: &[u8])
        ensures
            r@.len() == row_bytes_spec(self.width_spec()) * self.height_spec(),
            forall|x: int, y: int|
                self.contains(x, y) ==> image_pixel(r@, self.width_spec(), x, y) == self.pixel(
                    x,
                    y,
                ),
    {
        proof {
            use_type_invariant(self);
        }
        self.data.as_slice()
    }

    /// The value of pixel `(x, y)`.
    pub fn get_pixel(&self, x: usize, y: usize) -> (v: u8)
        requires
            self.contains(x as int, y as int),
        ensures
            v == self.pixel(x as int, y as int),
            v <= 15,
    {
        proof {
            use_type_invariant(self);
        }
        let rb = row_bytes(self.w);
        let len = self.data.len();
        proof {
            lemma_row_range(y as int, self.h as int, rb as int);
            lemma_usize_halves(x);
            assert(len == rb * self.h);
        }
        let i = y * rb + (x >> 1);
        let b: u8 = self.data[i];
        proof {
            lemma_nibbles(b, 0, 0, 0);
        }
        if (x & 1) == 0 {
            b & 0x0F
        } else {
            (b >> 4) & 0x0F
        }
    }

    /// Paints the whole canvas black.
    pub fn clear(&mut self)
        ensures
            final(self).id_spec() == old(self).id_spec(),
            final(self).width_spec() == old(self).width_spec(),
            final(self).height_spec() == old(self).height_spec(),
            final(self).is_black(),
    {
        proof {
            use_type_invariant(&*self);
        }
        let n = self.data.len();
        let mut i: usize = 0;
        while i < n
            invariant
                i <= n,
                n == self.data@.len(),
                self.id == old(self).id,
                self.w == old(self).w,
                self.h == old(self).h,
                self.data@.len() == row_bytes_spec(self.w as int) * self.h,
                forall|k: int| 0 <= k < i ==> self.data@[k] == 0u8,
            decreases n - i,
        {
            self.data[i] = 0;
            i += 1;
        }
        proof {
            let rb = row_bytes_spec(self.w as int);
            assert forall|x: int, y: int| self.contains(x, y) implies self.pixel(x, y) == 0 by {
                lemma_row_range(y, self.h as int, rb);
                assert(self.data@[y * rb + x / 2] == 0u8);
                assert(0u8 & 0x0F == 0u8) by (bit_vector);
                assert((0u8 >> 4) & 0x0F == 0u8) by (bit_vector);
            }
        }
    }

    /// Sets the pixel at `(x, y)` where that is on the canvas; a position off
    /// the canvas is dropped and nothing changes.
    pub fn put(&mut self, x: i64, y: i64, v: u8)
        ensures
            final(self).id_spec() == old(self).id_spec(),
            final(self).width_spec() == old(self).width_spec(),
            final(self).height_spec() == old(self).height_spec(),
            forall|ox: int, oy: int|
                old(self).contains(ox, oy) ==> final(self).pixel(ox, oy) == put_pixel(
                    old(self).pixel(ox, oy),
                    ox,
                    oy,
                    x as int,
                    y as int,
                    v,
                ),
    {
        if x >= 0 && y >= 0 {
            if (x as u64) < (self.w as u64) && (y as u64) < (self.h as u64) {
                self.set_pixel(x as usize, y as usize, v);
            }
        }
    }

    /// Sets pixel `(x, y)` to the low four bits of `v` and leaves every other
    /// pixel as it is.
    pub fn set_pixel(&mut self, x: usize, y: usize, v: u8)
        requires
            old(self).contains(x as int, y as int),
        ensures
            final(self).id_spec() == old(self).id_spec(),
            final(self).width_spec() == old(self).width_spec(),
            final(self).height_spec() == old(self).height_spec(),
            final(self).pixel(x as int, y as int) == v & 0x0F,
            forall|ox: int, oy: int|
                old(self).contains(ox, oy) && (ox != x || oy != y) ==> final(self).pixel(ox, oy)
                    == old(self).pixel(ox, oy),
    {
        proof {
            use_type_invariant(&*self);
        }
        let rb = row_bytes(self.w);
        let len = self.data.len();
        proof {
            lemma_row_range(y as int, self.h as int, rb as int);
            lemma_usize_halves(x);
            assert(len == rb * self.h);
        }
        let i = y * rb + (x >> 1);
        let m: u8 = v & 0x0F;
        let r: u8 = self.data[i];
        let ghost before = self.data@;
        if (x & 1) == 0 {
            self.data[i] = (r & 0xF0) | m;
        } else {
            self.data[i] = (r & 0x0F) | (m << 4);
        }
        proof {
            lemma_nibbles(r, 0, 0, v);
            assert forall|ox: int, oy: int|
                old(self).contains(ox, oy) && (ox != x || oy != y) implies self.pixel(ox, oy)
                == old(self).pixel(ox, oy) by {
                lemma_row_range(oy, self.h as int, rb as int);
                if oy * rb + ox / 2 == i {
                    lemma_index_split(i as int, y as int, rb as int);
                    lemma_index_split(i as int, oy, rb as int);
                }
            }
        }
    }
}

} // verus!
