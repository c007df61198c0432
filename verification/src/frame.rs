//! The frame that the thumbnail of a video shows: the last picture the decoder gives
//! back while it is fed the samples from the sync sample up to the target sample.
use vstd::prelude::*;

verus! {

/// A decoded picture: its size and its pixels, four bytes (RGBA) each, row by row.
#[derive(Debug, Clone)]
pub struct DecodedFrame {
    pub width: u32,
    pub height: u32,
    pub rgba: Vec<u8>,
}

/// Length of the RGBA buffer for a `width` x `height` picture, where the size and the
/// buffer length fit in `u32`; `None` otherwise.
pub fn rgba_buffer_len(width: usize, height: usize) -> (r: Option<usize>)
    ensures
        r == (if width <= u32::MAX && height <= u32::MAX && width * height * 4 <= u32::MAX {
            Some((width * height * 4) as usize)
        } else {
            None::<usize>
        }),
{
    if width > 0xffff_ffffusize || height > 0xffff_ffffusize {
        return None;
    }
    let w = width as u32;
    let h = height as u32;
    match w.checked_mul(h) {
        None => {
            assert(width * height * 4 > u32::MAX) by (nonlinear_arith)
                requires
                    width * height > u32::MAX,
            ;
            None
        },
        Some(area) => match area.checked_mul(4) {
            None => None,
            Some(len) => Some(len as usize),
        },
    }
}

/// Keeps the last picture the decoder gave back.
pub struct FrameSelector {
    width: u32,
    height: u32,
    rgba: Vec<u8>,
}

impl FrameSelector {
    /// The kept pixels are exactly four bytes per pixel of the kept size.
    #[verifier::type_invariant]
    spec fn sized(&self) -> bool {
        self.rgba@.len() == self.width * self.height * 4
    }

    /// The kept picture: its width, its height and its pixels.
    pub closed spec fn kept(&self) -> (u32, u32, Seq<u8>) {
        (self.width, self.height, self.rgba@)
    }

    /// Nothing kept yet (an empty 0 x 0 picture).
    pub fn new() -> (r: FrameSelector)
        ensures
            r.kept() == (0u32, 0u32, Seq::<u8>::empty()),
    {
        FrameSelector { width: 0, height: 0, rgba: Vec::new() }
    }

    /// A new picture from the decoder replaces the kept one.
    pub fn observe(&mut self, frame: DecodedFrame)
        requires
            frame.rgba@.len() == frame.width * frame.height * 4,
        ensures
            final(self).kept() == (frame.width, frame.height, frame.rgba@),
    {
        *self = FrameSelector { width: frame.width, height: frame.height, rgba: frame.rgba };
    }

    /// The kept picture, or the error `"Failed to decode frame"` where it has no pixels.
    /// A picture handed back has a positive width and height and four bytes per pixel.
    pub fn finish(self) -> (r: Result<DecodedFrame, String>)
        ensures
            self.kept().2.len() == self.kept().0 * self.kept().1 * 4,
            match r {
                Ok(f) => {
                    &&& self.kept().2.len() > 0
                    &&& (f.width, f.height, f.rgba@) == self.kept()
                    &&& f.width > 0
                    &&& f.height > 0
                    &&& f.rgba@.len() == f.width * f.height * 4
                },
                Err(e) => self.kept().2.len() == 0 && e@ == "Failed to decode frame"@,
            },
    {
        proof {
            use_type_invariant(&self);
        }
        let ghost w = self.width as int;
        let ghost h = self.height as int;
        assert(w * h * 4 > 0 ==> w > 0 && h > 0) by (nonlinear_arith)
            requires
                w >= 0,
                h >= 0,
        ;
        if self.rgba.len() == 0 {
            Err(String::from_str("Failed to decode frame"))
        } else {
            Ok(DecodedFrame { width: self.width, height: self.height, rgba: self.rgba })
        }
    }
}

} // verus!
