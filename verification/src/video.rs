//! The video container: a fixed number of equally sized RGB frames.
//!
//! A `Video` owns one flat pixel buffer; frame `i` is the `i`-th chunk of
//! `width * height` pixels, in row-major order. Frames are appended whole and
//! replaced whole; the frame count is derived from the buffer length.

use vstd::prelude::*;

use crate::color::ColorU8;
use vstd::arithmetic::div_mod::{
    lemma_div_minus_one, lemma_div_plus_one, lemma_fundamental_div_mod,
    lemma_mod_add_multiples_vanish, lemma_mod_sub_multiples_vanish, lemma_small_mod,
};
use vstd::arithmetic::mul::{
    lemma_mul_inequality, lemma_mul_is_commutative, lemma_mul_strictly_positive,
};
use vstd::slice::slice_subrange;

verus! {

/// The mathematical content of a `Video`: its dimensions, its frame rate and
/// the flat sequence of pixels of all frames in append order.
#[verifier::ext_equal]
pub ghost struct VideoModel {
    pub width: u32,
    pub height: u32,
    pub fps: u8,
    pub pixels: Seq<ColorU8>,
}

impl VideoModel {
    /// Number of pixels in one frame.
    pub open spec fn frame_len(self) -> int {
        self.width * self.height
    }

    /// Number of whole frames held by the pixel buffer.
    pub open spec fn frame_count(self) -> int {
        self.pixels.len() as int / self.frame_len()
    }

    /// Dimensions are nonzero, the buffer holds whole frames only, and the
    /// frame count fits the container's 32-bit count field.
    pub open spec fn wf(self) -> bool {
        &&& self.width > 0
        &&& self.height > 0
        &&& self.fps > 0
        &&& self.pixels.len() as int % self.frame_len() == 0
        &&& self.frame_count() <= u32::MAX
    }

    /// The pixels of frame `i`.
    pub open spec fn frame_at(self, i: int) -> Seq<ColorU8> {
        self.pixels.subrange(i * self.frame_len(), (i + 1) * self.frame_len())
    }
}

/// How an operation on a `Video`, or a read of its byte form, fails.
#[derive(Debug, Clone, Copy, PartialEq, Eq, Structural)]
pub enum VideoError {
    /// A width, height or frame rate of zero.
    InvalidDimensions,
    /// The byte form does not start with the container's marker.
    InvalidFormat,
    /// The byte form ends before the declared pixel data does.
    Truncated,
    /// An appended frame whose pixel count is not `width * height`.
    FrameSizeMismatch,
}

/// A sequence of equally sized RGB frames with a fixed frame rate.
#[derive(Debug, Clone)]
pub struct Video {
    width: u32,
    height: u32,
    fps: u8,
    pixels: Vec<ColorU8>,
}

impl View for Video {
    type V = VideoModel;

    closed spec fn view(&self) -> VideoModel {
        VideoModel { width: self.width, height: self.height, fps: self.fps, pixels: self.pixels@ }
    }
}

impl Video {
    /// The container's structural invariant, on the abstract model.
    pub open spec fn wf(self) -> bool {
        self@.wf()
    }

    /// An empty video. Zero width, height or frame rate is rejected.
    pub fn new(width: u32, height: u32, fps: u8) -> (r: Result<Video, VideoError>)
        ensures
            match r {
                Ok(v) => {
                    &&& width != 0 && height != 0 && fps != 0
                    &&& v@ == (VideoModel { width, height, fps, pixels: Seq::<ColorU8>::empty() })
                    &&& v.wf()
                },
                Err(e) => {
                    &&& width == 0 || height == 0 || fps == 0
                    &&& e == VideoError::InvalidDimensions
                },
            },
    {
        if width == 0 || height == 0 || fps == 0 {
            return Err(VideoError::InvalidDimensions);
        }
        let v = Video { width, height, fps, pixels: Vec::new() };
        proof {
            lemma_mul_strictly_positive(width as int, height as int);
            lemma_small_mod(0nat, (width * height) as nat);
            assert(v@ =~= (VideoModel { width, height, fps, pixels: Seq::<ColorU8>::empty() }));
        }
        Ok(v)
    }

    pub fn width(&self) -> (r: u32)
        ensures
            r == self@.width,
    {
        self.width
    }

    pub fn height(&self) -> (r: u32)
        ensures
            r == self@.height,
    {
        self.height
    }

    pub fn fps(&self) -> (r: u8)
        ensures
            r == self@.fps,
    {
        self.fps
    }

    /// How many whole frames the buffer holds.
    pub fn frame_count(&self) -> (r: u32)
        requires
            self.wf(),
        ensures
            r == self@.frame_count(),
    {
        proof {
            vstd::arithmetic::div_mod::lemma_div_denominator(
                self.pixels@.len() as int,
                self.width as int,
                self.height as int,
            );
        }
        ((self.pixels.len() / self.width as usize) / self.height as usize) as u32
    }

    /// Appends one frame. A frame of the wrong pixel count is rejected and
    /// the video is left unchanged; otherwise the frame count grows by one.
    pub fn append_frame(&mut self, frame: &[ColorU8]) -> (r: Result<(), VideoError>)
        requires
            old(self).wf(),
            old(self)@.frame_count() < u32::MAX,
        ensures
            match r {
                Ok(()) => {
                    &&& frame@.len() == old(self)@.frame_len()
                    &&& final(self)@ == (VideoModel {
                        pixels: old(self)@.pixels + frame@,
                        ..old(self)@
                    })
                    &&& final(self).wf()
                    &&& final(self)@.frame_count() == old(self)@.frame_count() + 1
                },
                Err(e) => {
                    &&& frame@.len() != old(self)@.frame_len()
                    &&& e == VideoError::FrameSizeMismatch
                    &&& *final(self) == *old(self)
                },
            },
    {
        proof {
            vstd::arithmetic::mul::lemma_mul_upper_bound(
                self.width as int,
                u32::MAX as int,
                self.height as int,
                u32::MAX as int,
            );
        }
        let expected: u64 = (self.width as u64) * (self.height as u64);
        if frame.len() as u64 != expected {
            return Err(VideoError::FrameSizeMismatch);
        }
        let ghost old_pixels = self.pixels@;
        let mut i: usize = 0;
        while i < frame.len()
            invariant
                i <= frame@.len(),
                self.width == old(self)@.width,
                self.height == old(self)@.height,
                self.fps == old(self)@.fps,
                self.pixels@ == old_pixels + frame@.subrange(0, i as int),
            decreases frame@.len() - i,
        {
            self.pixels.push(frame[i]);
            proof {
                assert(old_pixels + frame@.subrange(0, i as int) + seq![frame@[i as int]]
                    =~= old_pixels + frame@.subrange(0, i + 1));
            }
            i += 1;
        }
        proof {
            assert(frame@.subrange(0, frame@.len() as int) =~= frame@);
            let fl = old(self)@.frame_len();
            let n = old_pixels.len() as int;
            lemma_mul_strictly_positive(old(self)@.width as int, old(self)@.height as int);
            lemma_mod_add_multiples_vanish(n, fl);
            lemma_div_plus_one(n, fl);
            assert(final(self)@ =~= (VideoModel { pixels: old(self)@.pixels + frame@, ..old(self)@ }));
        }
        Ok(())
    }

    /// Removes frame `index`, shifting the later frames down, and returns its
    /// pixels.
    pub fn remove_frame(&mut self, index: usize) -> (r: Vec<ColorU8>)
        requires
            old(self).wf(),
            index < old(self)@.frame_count(),
        ensures
            r@ == old(self)@.frame_at(index as int),
            final(self)@ == (VideoModel {
                pixels: old(self)@.pixels.subrange(0, index * old(self)@.frame_len())
                    + old(self)@.pixels.subrange(
                    (index + 1) * old(self)@.frame_len(),
                    old(self)@.pixels.len() as int,
                ),
                ..old(self)@
            }),
            final(self).wf(),
            final(self)@.frame_count() == old(self)@.frame_count() - 1,
    {
        proof {
            self.lemma_frame_bounds(index as int);
            vstd::std_specs::vec::axiom_spec_len(&self.pixels);
        }
        let fl: usize = (self.width as usize) * (self.height as usize);
        let start: usize = index * fl;
        let mut tail = self.pixels.split_off(start);
        let mut rest = tail.split_off(fl);
        self.pixels.append(&mut rest);
        proof {
            let fl = old(self)@.frame_len();
            let n = old(self)@.pixels.len() as int;
            assert(tail@ =~= old(self)@.pixels.subrange(index * fl, (index + 1) * fl));
            assert(final(self)@.pixels =~= old(self)@.pixels.subrange(0, index * fl)
                + old(self)@.pixels.subrange((index + 1) * fl, n));
            lemma_mod_sub_multiples_vanish(n, fl);
            lemma_div_minus_one(n, fl);
            assert(final(self)@ =~= (VideoModel {
                pixels: old(self)@.pixels.subrange(0, index * fl)
                    + old(self)@.pixels.subrange((index + 1) * fl, n),
                ..old(self)@
            }));
        }
        tail
    }

    /// Borrows the pixels of frame `index`; `None` outside the range.
    pub fn get_frame(&self, index: usize) -> (r: Option<&[ColorU8]>)
        requires
            self.wf(),
        ensures
            match r {
                Some(f) => index < self@.frame_count() && f@ == self@.frame_at(index as int),
                None => index >= self@.frame_count(),
            },
    {
        let count = self.frame_count();
        if index >= count as usize {
            return None;
        }
        proof {
            self.lemma_frame_bounds(index as int);
            vstd::std_specs::vec::axiom_spec_len(&self.pixels);
        }
        let fl: usize = (self.width as usize) * (self.height as usize);
        let start: usize = index * fl;
        Some(slice_subrange(self.pixels.as_slice(), start, start + fl))
    }

    /// Borrows the pixels of frame `index` for writing; `None` outside the
    /// range. Writes through the slice replace pixels of that frame only.
    pub fn get_frame_mut(&mut self, index: usize) -> (r: Option<&mut [ColorU8]>)
        requires
            old(self).wf(),
        ensures
            match r {
                Some(f) => {
                    &&& index < old(self)@.frame_count()
                    &&& f@ == old(self)@.frame_at(index as int)
                    &&& final(self)@ == (VideoModel {
                        pixels: old(self)@.pixels.subrange(0, index * old(self)@.frame_len())
                            + final(f)@ + old(self)@.pixels.subrange(
                            (index + 1) * old(self)@.frame_len(),
                            old(self)@.pixels.len() as int,
                        ),
                        ..old(self)@
                    })
                },
                None => index >= old(self)@.frame_count() && *final(self) == *old(self),
            },
    {
        let count = self.frame_count();
        if index >= count as usize {
            return None;
        }
        proof {
            self.lemma_frame_bounds(index as int);
            vstd::std_specs::vec::axiom_spec_len(&self.pixels);
        }
        let fl: usize = (self.width as usize) * (self.height as usize);
        let start: usize = index * fl;
        let buf = self.pixels.as_mut_slice();
        let (_before, tail) = buf.split_at_mut(start);
        let (frame, _after) = tail.split_at_mut(fl);
        proof {
            assert(frame@ =~= old(self)@.pixels.subrange(
                index * old(self)@.frame_len(),
                (index + 1) * old(self)@.frame_len(),
            ));
        }
        Some(frame)
    }

    /// The flat pixel buffer, for the codec.
    pub(crate) fn pixels_vec(&self) -> (r: &Vec<ColorU8>)
        ensures
            r@ == self@.pixels,
    {
        &self.pixels
    }

    /// Assembles a container from decoded fields, for the codec.
    pub(crate) fn from_parts(width: u32, height: u32, fps: u8, pixels: Vec<ColorU8>) -> (v: Video)
        ensures
            v@ == (VideoModel { width, height, fps, pixels: pixels@ }),
    {
        Video { width, height, fps, pixels }
    }

    /// A frame index below the count addresses a whole chunk inside the
    /// buffer, and the chunk arithmetic stays within `usize`.
    proof fn lemma_frame_bounds(self, index: int)
        requires
            self.wf(),
            0 <= index < self@.frame_count(),
        ensures
            0 < self@.frame_len(),
            self@.pixels.len() == self@.frame_count() * self@.frame_len(),
            self@.frame_len() <= self@.pixels.len(),
            (index + 1) * self@.frame_len() <= self@.pixels.len(),
            index * self@.frame_len() + self@.frame_len() == (index + 1) * self@.frame_len(),
            0 <= index * self@.frame_len(),
    {
        let fl = self@.frame_len();
        let n = self@.pixels.len() as int;
        let count = self@.frame_count();
        lemma_mul_strictly_positive(self@.width as int, self@.height as int);
        lemma_fundamental_div_mod(n, fl);
        lemma_mul_is_commutative(count, fl);
        assert(n == count * fl);
        lemma_mul_inequality(index + 1, count, fl);
        assert((index + 1) * fl <= count * fl);
        lemma_mul_inequality(1, count, fl);
        lemma_mul_is_commutative(1, fl);
        assert(index * fl + fl == (index + 1) * fl) by (nonlinear_arith);
        vstd::arithmetic::mul::lemma_mul_nonnegative(index, fl);
    }
}

impl PartialEq for Video {
    /// Two videos are equal when their dimensions, frame rate and pixels are.
    fn eq(&self, other: &Video) -> (r: bool) {
        if self.width != other.width || self.height != other.height || self.fps != other.fps {
            return false;
        }
        if self.pixels.len() != other.pixels.len() {
            return false;
        }
        let mut i: usize = 0;
        while i < self.pixels.len()
            invariant
                i <= self.pixels@.len(),
                self.pixels@.len() == other.pixels@.len(),
                forall|j: int| 0 <= j < i ==> self.pixels@[j] == other.pixels@[j],
            decreases self.pixels@.len() - i,
        {
            let a = self.pixels[i];
            let b = other.pixels[i];
            if a.r != b.r || a.g != b.g || a.b != b.b {
                return false;
            }
            i += 1;
        }
        proof {
            assert(self.pixels@ =~= other.pixels@);
        }
        true
    }
}

impl vstd::std_specs::cmp::PartialEqSpecImpl for Video {
    open spec fn obeys_eq_spec() -> bool {
        true
    }

    open spec fn eq_spec(&self, other: &Video) -> bool {
        self@ == other@
    }
}

} // verus!
