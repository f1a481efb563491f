//! Pixel buffers that circulate between the capturing and the saving side.

use vstd::prelude::*;

verus! {

/// Colour channels per pixel. Each channel is one byte (RGBA).
pub const NUM_COLOURS: usize = 4;

/// Number of pixel bytes of a frame of the given width and height.
pub open spec fn byte_len(dims: (usize, usize)) -> int {
    NUM_COLOURS * dims.0 * dims.1
}

/// Whether a frame of the given dimensions can be held in memory: an
/// allocation has at most `isize::MAX` bytes.
pub open spec fn fits(dims: (usize, usize)) -> bool {
    byte_len(dims) <= isize::MAX
}

/// What a buffer holds: its dimensions and its raw pixel bytes.
pub struct BufferView {
    pub dims: (usize, usize),
    pub pixels: Seq<u8>,
}

/// A reusable CPU-side frame buffer: raw pixel bytes tagged with the
/// dimensions they were sized for.
#[derive(Debug)]
pub struct Buffer {
    pixels: Vec<u8>,
    dims: (usize, usize),
}

impl View for Buffer {
    type V = BufferView;

    closed spec fn view(&self) -> BufferView {
        BufferView { dims: self.dims, pixels: self.pixels@ }
    }
}

impl Buffer {
    /// Every buffer holds exactly `width * height * NUM_COLOURS` bytes.
    #[verifier::type_invariant]
    spec fn sized(self) -> bool {
        self.pixels@.len() == byte_len(self.dims)
    }

    /// Width and height in pixels.
    pub fn dims(&self) -> (d: (usize, usize))
        ensures
            d == self@.dims,
    {
        self.dims
    }

    /// The pixel bytes, row by row, four bytes per pixel.
    pub fn pixels(&self) -> (p: &Vec<u8>)
        ensures
            p@ == self@.pixels,
            p@.len() == byte_len(self@.dims),
    {
        proof {
            use_type_invariant(self);
        }
        &self.pixels
    }

    /// Overwrites the buffer with a frame of the given dimensions.
    ///
    /// A buffer sized for other dimensions is first replaced by a fresh
    /// allocation of the right size; one that already fits is written in
    /// place.
    pub fn store(&mut self, dims: (usize, usize), frame: &[u8])
        requires
            frame@.len() == byte_len(dims),
        ensures
            final(self)@ == (BufferView { dims, pixels: frame@ }),
    {
        proof {
            use_type_invariant(&*self);
        }
        let n = frame.len();
        let mut taken = Buffer { pixels: Vec::new(), dims: (0, 0) };
        std::mem::swap(self, &mut taken);
        let mut pixels = if dims.0 == taken.dims.0 && dims.1 == taken.dims.1 {
            taken.pixels
        } else {
            vec![0u8; n]
        };
        let mut i: usize = 0;
        while i < n
            invariant
                i <= n,
                n == frame@.len(),
                pixels@.len() == n,
                forall|j: int| 0 <= j < i ==> pixels@[j] == frame@[j],
            decreases n - i,
        {
            pixels.set(i, frame[i]);
            i += 1;
        }
        assert(pixels@ =~= frame@);
        *self = Buffer { pixels, dims };
    }
}

/// Size in bytes of a frame of the given dimensions, or `None` when a frame
/// of that size cannot be held in memory.
pub fn checked_byte_len(dims: (usize, usize)) -> (n: Option<usize>)
    ensures
        n is Some <==> fits(dims),
        n is Some ==> n->0 == byte_len(dims),
{
    match dims.0.checked_mul(dims.1) {
        None => {
            proof {
                lemma_byte_len_grows(dims);
            }
            None
        },
        Some(area) => {
            assert(NUM_COLOURS * dims.0 * dims.1 == NUM_COLOURS * (dims.0 * dims.1))
                by (nonlinear_arith);
            match NUM_COLOURS.checked_mul(area) {
                None => None,
                Some(n) => if n <= isize::MAX as usize {
                    Some(n)
                } else {
                    None
                },
            }
        },
    }
}

proof fn lemma_byte_len_grows(dims: (usize, usize))
    ensures
        byte_len(dims) >= dims.0 * dims.1,
{
    assert(NUM_COLOURS * dims.0 * dims.1 >= dims.0 * dims.1) by (nonlinear_arith);
}

/// Allocates a zero-filled buffer for a frame of the given dimensions.
///
/// Returns `None` exactly when a frame of that size cannot be held in
/// memory.
pub fn new_screenshot_buffer(dims: (usize, usize)) -> (b: Option<Buffer>)
    ensures
        b is Some <==> fits(dims),
        b is Some ==> b->0@ == (BufferView {
            dims,
            pixels: Seq::new(byte_len(dims) as nat, |i: int| 0u8),
        }),
{
    match checked_byte_len(dims) {
        None => None,
        Some(n) => {
            let pixels = vec![0u8; n];
            assert(pixels@ =~= Seq::new(byte_len(dims) as nat, |i: int| 0u8));
            Some(Buffer { pixels, dims })
        },
    }
}

} // verus!
