use vstd::prelude::*;

use crate::error::Error;

verus! {

/// The ARGB word a greyscale value paints: full alpha, the value on every
/// colour channel.
pub open spec fn argb_of_grey(y: u8) -> u32 {
    0xFF000000u32 | ((y as u32) << 16) | ((y as u32) << 8) | (y as u32)
}

/// A frame of ARGB pixel data, as a presentation surface consumes it.
#[derive(Debug)]
pub struct ARGBFrame {
    data: Vec<u32>,
}

impl View for ARGBFrame {
    type V = Seq<u32>;

    closed spec fn view(&self) -> Seq<u32> {
        self.data@
    }
}

impl ARGBFrame {
    /// Wraps a buffer of ARGB words.
    pub fn from(frame: Vec<u32>) -> (r: ARGBFrame)
        ensures
            r@ == frame@,
    {
        ARGBFrame { data: frame }
    }

    /// The ARGB words of the frame.
    pub fn data(&self) -> (r: &Vec<u32>)
        ensures
            r@ == self@,
    {
        &self.data
    }

    /// Hands the buffer back.
    pub fn into_data(self) -> (r: Vec<u32>)
        ensures
            r@ == self@,
    {
        self.data
    }

    /// Copies ARGB words into the frame; the source must have the frame's
    /// size.
    pub fn copy_from_slice(&mut self, src: &Vec<u32>) -> (r: Result<(), Error>)
        ensures
            r is Ok <==> src@.len() == old(self)@.len(),
            r is Ok ==> final(self)@ == src@,
            r is Err ==> final(self)@ == old(self)@ && r->Err_0 == Error::InvalidInput,
    {
        if src.len() != self.data.len() {
            return Err(Error::InvalidInput);
        }
        let n = src.len();
        let mut i: usize = 0;
        while i < n
            invariant
                n == src@.len() && n == self.data@.len(),
                i <= n,
                forall|k: int| 0 <= k < i ==> self.data@[k] == src@[k],
            decreases n - i,
        {
            self.data.set(i, src[i]);
            i += 1;
        }
        assert(self@ =~= src@);
        Ok(())
    }

    /// Paints greyscale bytes into the frame, one ARGB word per byte; the
    /// source must have the frame's size.
    pub fn copy_from_slice_grey(&mut self, src: &Vec<u8>) -> (r: Result<(), Error>)
        ensures
            r is Ok <==> src@.len() == old(self)@.len(),
            r is Ok ==> final(self)@.len() == src@.len() && forall|k: int|
                0 <= k < src@.len() ==> final(self)@[k] == argb_of_grey(src@[k]),
            r is Err ==> final(self)@ == old(self)@ && r->Err_0 == Error::InvalidInput,
    {
        if src.len() != self.data.len() {
            return Err(Error::InvalidInput);
        }
        let n = src.len();
        let mut i: usize = 0;
        while i < n
            invariant
                n == src@.len() && n == self.data@.len(),
                i <= n,
                forall|k: int| 0 <= k < i ==> self.data@[k] == argb_of_grey(src@[k]),
            decreases n - i,
        {
            let y = src[i] as u32;
            self.data.set(i, 0xFF000000u32 | (y << 16) | (y << 8) | y);
            i += 1;
        }
        Ok(())
    }
}

} // verus!
