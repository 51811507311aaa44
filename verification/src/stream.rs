use vstd::prelude::*;

use crate::analyzer::{Image, MAX_PIXEL_COUNT};
use crate::error::Error;

verus! {

/// Represents the sum of the intensity variation of a captured run of
/// frames; compared against a scaled reference to decide whether the
/// emitter blinks.
#[derive(Debug, PartialEq, Eq, Structural, Clone, Copy)]
pub struct FrameIntensityVarSum(pub u64);

impl FrameIntensityVarSum {
    /// The sum scaled by a significance coefficient, saturating at the
    /// numeric ceiling.
    pub fn scaled(&self, coef: u64) -> (r: FrameIntensityVarSum)
        ensures
            r.0 == if self.0 * coef <= u64::MAX {
                self.0 * coef
            } else {
                u64::MAX as int
            },
    {
        match self.0.checked_mul(coef) {
            Some(v) => FrameIntensityVarSum(v),
            None => FrameIntensityVarSum(u64::MAX),
        }
    }

    /// Adds another variation sum, saturating at the numeric ceiling.
    pub fn accumulate(&mut self, other: FrameIntensityVarSum)
        ensures
            final(self).0 == if old(self).0 + other.0 <= u64::MAX {
                old(self).0 + other.0
            } else {
                u64::MAX as int
            },
    {
        match self.0.checked_add(other.0) {
            Some(v) => {
                self.0 = v;
            },
            None => {
                self.0 = u64::MAX;
            },
        }
    }

    /// Whether this sum is strictly above another: the test that decides
    /// that the emitter is working.
    pub fn exceeds(&self, other: &FrameIntensityVarSum) -> (r: bool)
        ensures
            r == (self.0 > other.0),
    {
        self.0 > other.0
    }
}

/// The FourCC of the single-channel 8-bit greyscale pixel format.
pub fn grey_fourcc() -> (r: [u8; 4])
    ensures
        r@ == seq![71u8, 82u8, 69u8, 89u8],
{
    let r = [71u8, 82u8, 69u8, 89u8];
    assert(r@ =~= seq![71u8, 82u8, 69u8, 89u8]);
    r
}

/// Whether a FourCC names the greyscale format.
pub fn is_grey_fourcc(fourcc: &[u8; 4]) -> (r: bool)
    ensures
        r == (fourcc@ == seq![71u8, 82u8, 69u8, 89u8]),
{
    let r = fourcc[0] == 71 && fourcc[1] == 82 && fourcc[2] == 69 && fourcc[3] == 89;
    if r {
        assert(fourcc@ =~= seq![71u8, 82u8, 69u8, 89u8]);
    }
    r
}

/// Whether the driver honoured a requested format value: when a value was
/// requested, the echoed value must match it exactly.
pub fn format_honored(requested: Option<u32>, actual: u32) -> (r: bool)
    ensures
        r == match requested {
            Some(v) => v == actual,
            None => true,
        },
{
    match requested {
        Some(v) => v == actual,
        None => true,
    }
}

/// Extracts the luma plane of a packed YUYV buffer into a greyscale frame
/// of the given dimensions: every second byte is a Y value, four bytes
/// carry two pixels.  The buffer must cover the dimensions, which must
/// stay within the supported frame size.
pub fn yuyv_to_grey(yuyv: &Vec<u8>, width: u32, height: u32) -> (r: Result<Image, Error>)
    ensures
        r is Ok <==> (width * height <= MAX_PIXEL_COUNT && 2 * (width * height)
            <= yuyv@.len()),
        r is Ok ==> r->Ok_0@.width == width && r->Ok_0@.height == height
            && r->Ok_0@.pixels.len() == width * height && forall|k: int|
            0 <= k < width * height ==> r->Ok_0@.pixels[k] == yuyv@[2 * k],
        r is Err ==> r->Err_0 == Error::InvalidStreamFormat,
{
    let w = width as u64;
    let h = height as u64;
    proof {
        assert(w * h <= 0xfffffffe00000001u64) by (nonlinear_arith)
            requires
                w <= 0xffffffffu64,
                h <= 0xffffffffu64,
        ;
    }
    let count = w * h;
    if count > MAX_PIXEL_COUNT as u64 {
        return Err(Error::InvalidStreamFormat);
    }
    if (yuyv.len() as u64) < 2 * count {
        return Err(Error::InvalidStreamFormat);
    }
    let n = count as usize;
    let mut pixels: Vec<u8> = Vec::new();
    let mut i: usize = 0;
    while i < n
        invariant
            n == width * height,
            n <= MAX_PIXEL_COUNT,
            2 * n <= yuyv@.len(),
            i <= n,
            pixels@.len() == i,
            forall|k: int| 0 <= k < i ==> pixels@[k] == yuyv@[2 * k],
        decreases n - i,
    {
        pixels.push(yuyv[2 * i]);
        i += 1;
    }
    match Image::new(width, height, pixels) {
        Ok(img) => Ok(img),
        Err(_) => {
            proof {
                assert(false);
            }
            Err(Error::InvalidStreamFormat)
        },
    }
}

} // verus!
