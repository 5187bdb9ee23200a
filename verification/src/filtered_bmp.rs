//! A bitmap file whose pixel data can be dimmed.
//!
//! The file is kept twice: as it was given, and as a copy whose pixel data
//! is scaled down. The header is never touched, so the copy stays a bitmap
//! file that can be drawn.

use vstd::prelude::*;

verus! {

/// The most bytes a file may have.
pub const BUFFER_SIZE: usize = 4096;

/// Where the pixel data of a bitmap file begins, as `tinybmp` reads it from
/// the file's header; `None` for bytes that it does not take for a bitmap
/// file.
pub uninterp spec fn bmp_image_data_start(bytes: Seq<u8>) -> Option<usize>;

/// The largest width that a header may give, so that the bits of a row can
/// be counted in 32 bits.
pub const MAX_HEADER_WIDTH: u32 = 0x03FF_FFFF;

/// The largest number of colours that a header may give, so that the bytes
/// of the colour table can be counted in 32 bits.
pub const MAX_HEADER_COLORS: u32 = 0x3FFF_FFFF;

/// Where a bitmap file keeps its width.
pub const HEADER_WIDTH_AT: usize = 18;

/// Where a bitmap file keeps the number of its colours.
pub const HEADER_COLORS_AT: usize = 46;

/// The 32-bit number that a file holds at byte `at`, lowest byte first.
pub open spec fn le_u32_at(bytes: Seq<u8>, at: int) -> int {
    bytes[at] + 0x100 * bytes[at + 1] + 0x1_0000 * bytes[at + 2] + 0x100_0000 * bytes[at + 3]
}

/// Whether the parser's sums on a file's header fit a 32-bit word: a file
/// long enough to hold a header gives a width and a number of colours within
/// the two limits.
pub open spec fn header_is_moderate(bytes: Seq<u8>) -> bool {
    bytes.len() >= HEADER_COLORS_AT + 4 ==> le_u32_at(bytes, HEADER_WIDTH_AT as int)
        <= MAX_HEADER_WIDTH && le_u32_at(bytes, HEADER_COLORS_AT as int) <= MAX_HEADER_COLORS
}

/// The 32-bit number that a file holds at byte `at`, lowest byte first.
fn read_le_u32(bytes: &[u8], at: usize) -> (v: u32)
    requires
        at + 4 <= bytes@.len(),
    ensures
        v == le_u32_at(bytes@, at as int),
{
    (bytes[at] as u32) + 0x100 * (bytes[at + 1] as u32) + 0x1_0000 * (bytes[at + 2] as u32)
        + 0x100_0000 * (bytes[at + 3] as u32)
}

/// Whether the parser's sums on a file's header fit a 32-bit word.
pub fn check_header(bytes: &[u8]) -> (ok: bool)
    ensures
        ok == header_is_moderate(bytes@),
{
    if bytes.len() < HEADER_COLORS_AT + 4 {
        return true;
    }
    read_le_u32(bytes, HEADER_WIDTH_AT) <= MAX_HEADER_WIDTH && read_le_u32(bytes, HEADER_COLORS_AT)
        <= MAX_HEADER_COLORS
}

/// `tinybmp::Bmp::from_slice`, and of what it parsed the header's
/// `image_data_start`. The parser multiplies the header's width by the bits
/// of a pixel and the number of colours by four in the machine's word, so
/// both must be within the limits.
#[verifier::external_body]
fn parse_image_data_start(bytes: &[u8]) -> (r: Option<usize>)
    requires
        header_is_moderate(bytes@),
    ensures
        r == bmp_image_data_start(bytes@),
{
    match tinybmp::Bmp::<embedded_graphics::pixelcolor::Gray4>::from_slice(bytes) {
        Ok(bmp) => Some(bmp.as_raw().header().image_data_start),
        Err(_) => None,
    }
}

/// A byte dimmed by `dim` percent; more than 100 percent count as 100.
pub open spec fn dimmed_byte(b: u8, dim: u8) -> u8 {
    let d = if dim > 100 {
        100
    } else {
        dim as int
    };
    (b * (100 - d) / 100) as u8
}

/// The copy after dimming: the bytes from `start` to the end of the file are
/// those of the file, dimmed; all others are as they were.
pub open spec fn dimmed_data(data: Seq<u8>, original: Seq<u8>, dim: u8, start: int) -> Seq<u8> {
    Seq::new(
        data.len(),
        |i: int|
            if start <= i < original.len() {
                dimmed_byte(original[i], dim)
            } else {
                data[i]
            },
    )
}

/// A bitmap file and its dimmed copy.
pub struct FilteredBmp<'d> {
    original: &'d [u8],
    data: [u8; 4096],
}

impl<'d> FilteredBmp<'d> {
    /// The file as it was given.
    pub closed spec fn original_spec(&self) -> Seq<u8> {
        self.original@
    }

    /// The copy.
    pub closed spec fn data_spec(&self) -> Seq<u8> {
        self.data@
    }

    #[verifier::type_invariant]
    spec fn well_formed(&self) -> bool {
        self.original@.len() <= BUFFER_SIZE
    }

    /// Takes a file of at most `BUFFER_SIZE` bytes; the copy starts out as
    /// the file, followed by zeros.
    pub fn new(image_data: &'d [u8]) -> (r: Self)
        requires
            image_data@.len() <= BUFFER_SIZE,
        ensures
            r.original_spec() == image_data@,
            r.data_spec() == Seq::new(
                4096,
                |i: int|
                    if i < image_data@.len() {
                        image_data@[i]
                    } else {
                        0u8
                    },
            ),
    {
        let mut cloned_data = [0u8; 4096];
        let mut i: usize = 0;
        while i < image_data.len()
            invariant
                i <= image_data@.len(),
                image_data@.len() <= BUFFER_SIZE,
                forall|k: int| 0 <= k < i ==> cloned_data@[k] == image_data@[k],
                forall|k: int| i <= k < 4096 ==> cloned_data@[k] == 0u8,
            decreases image_data@.len() - i,
        {
            cloned_data[i] = image_data[i];
            i += 1;
        }
        assert(cloned_data@ =~= Seq::new(
            4096,
            |i: int|
                if i < image_data@.len() {
                    image_data@[i]
                } else {
                    0u8
                },
        ));
        Self { original: image_data, data: cloned_data }
    }

    /// The file as it was given.
    pub fn original(&self) -> (r: &'d [u8])
        ensures
            r@ == self.original_spec(),
            r@.len() <= BUFFER_SIZE,
    {
        proof {
            use_type_invariant(self);
        }
        self.original
    }

    /// The copy.
    pub fn data(&self) -> (r: &[u8; 4096])
        ensures
            r@ == self.data_spec(),
    {
        &self.data
    }

    /// Dims the copy's bytes from `start` on by `dim` percent of what the
    /// file holds there.
    pub fn dim_from(&mut self, dim: u8, start: usize)
        ensures
            final(self).original_spec() == old(self).original_spec(),
            final(self).data_spec() == dimmed_data(
                old(self).data_spec(),
                old(self).original_spec(),
                dim,
                start as int,
            ),
    {
        proof {
            use_type_invariant(&*self);
        }
        let ghost before = self.data@;
        let ghost asked = dim;
        let dim: u8 = if dim > 100 {
            100
        } else {
            dim
        };
        let len = self.original.len();
        let mut i: usize = start;
        while i < len
            invariant
                dim <= 100,
                len == self.original@.len(),
                len <= BUFFER_SIZE,
                self.original@ == old(self).original@,
                start <= i,
                i <= len || i == start,
                before.len() == 4096,
                forall|k: int|
                    start <= k < i && k < len ==> self.data@[k] == (self.original@[k] * (100 - dim)
                        / 100) as u8,
                forall|k: int| 0 <= k < 4096 && !(start <= k < i) ==> self.data@[k] == before[k],
            decreases len - i,
        {
            let byte = self.original[i];
            assert(byte * (100 - dim) <= 255 * 100) by (nonlinear_arith)
                requires
                    byte <= 255,
                    0 <= 100 - dim <= 100,
            ;
            self.data[i] = ((byte as u16) * (100 - dim as u16) / 100) as u8;
            i += 1;
        }
        proof {
            let want = dimmed_data(before, self.original@, asked, start as int);
            assert(want.len() == 4096);
            assert forall|k: int| 0 <= k < 4096 implies self.data@[k] == want[k] by {
                if start <= k < len {
                    assert(self.data@[k] == dimmed_byte(self.original@[k], asked));
                }
            }
            assert(self.data@ =~= want);
        }
    }

    /// Dims the pixel data of the copy by `dim` percent of what the file
    /// holds. The file must be one that `tinybmp` takes for a bitmap file,
    /// with a header within the limits.
    pub fn dim(&mut self, dim: u8)
        requires
            header_is_moderate(old(self).original_spec()),
            bmp_image_data_start(old(self).original_spec()) is Some,
        ensures
            final(self).original_spec() == old(self).original_spec(),
            final(self).data_spec() == dimmed_data(
                old(self).data_spec(),
                old(self).original_spec(),
                dim,
                bmp_image_data_start(old(self).original_spec())->0 as int,
            ),
    {
        let start = parse_image_data_start(self.original);
        self.dim_from(dim, start.unwrap());
    }

    /// Whether `dim` takes the file: its header is within the limits and
    /// `tinybmp` takes it for a bitmap file.
    pub open spec fn can_dim(&self) -> bool {
        header_is_moderate(self.original_spec()) && bmp_image_data_start(
            self.original_spec(),
        ) is Some
    }

    /// Dims the pixel data of the copy where the file is a bitmap file with a
    /// header within the limits, and says whether it is; the copy of any
    /// other file is left as it is.
    pub fn try_dim(&mut self, dim: u8) -> (done: bool)
        ensures
            done == old(self).can_dim(),
            final(self).original_spec() == old(self).original_spec(),
            final(self).data_spec() == if done {
                dimmed_data(
                    old(self).data_spec(),
                    old(self).original_spec(),
                    dim,
                    bmp_image_data_start(old(self).original_spec())->0 as int,
                )
            } else {
                old(self).data_spec()
            },
    {
        if !check_header(self.original) {
            return false;
        }
        match parse_image_data_start(self.original) {
            Some(_) => {
                self.dim(dim);
                true
            },
            None => false,
        }
    }
}

} // verus!
