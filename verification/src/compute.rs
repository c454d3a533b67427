//! The spectral stage: assembles the captured byte stream into fixed-length
//! windows, decodes and deinterleaves the stereo samples, and computes the
//! logarithmic frequency-bin layout the renderer maps spectra onto.
//!
//! The Fourier transform itself runs on floating-point values and therefore
//! with the caller, which normalizes the decoded samples and feeds them to
//! its FFT; everything up to that hand-off — pacing decisions, the sliding
//! window, decoding — is verified here.

use vstd::prelude::*;

use crate::audio::{spec_i16_le, i16_from_le, SimpleSource};
use crate::errors::ENguyenError;
use crate::ring::RingReader;

verus! {

/// Configuration of the spectral stage: the output texture height and the
/// FFT bin count, always twice the height.
pub struct AudioTexSource {
    pub tex_height: usize,
    pub bins: usize,
}

impl AudioTexSource {
    /// A configuration for the given texture height; the bin count is twice
    /// the height.  Fails only when that count cannot be represented.
    pub fn new(height: usize) -> (r: Result<AudioTexSource, ENguyenError>)
        ensures
            r is Ok <==> 2 * height <= usize::MAX,
            r matches Ok(s) ==> s.tex_height == height && s.bins == 2 * height,
            r matches Err(e) ==> e.message@ == "Texture height too large"@,
    {
        if height <= usize::MAX / 2 {
            proof {
                vstd::arithmetic::div_mod::lemma_fundamental_div_mod(usize::MAX as int, 2);
            }
            Ok(AudioTexSource { tex_height: height, bins: 2 * height })
        } else {
            proof {
                vstd::arithmetic::div_mod::lemma_fundamental_div_mod(usize::MAX as int, 2);
            }
            Err(ENguyenError::from("Texture height too large"))
        }
    }
}

/// The most recent `window` bytes of `s`: everything once `s` fits, else
/// the tail that fits.
pub open spec fn trim_to_window(s: Seq<u8>, window: int) -> Seq<u8> {
    if s.len() > window {
        s.skip(s.len() - window)
    } else {
        s
    }
}

/// Sample `j` of a decoded window: the left channel holds the second
/// little-endian 16-bit value of frame `j`, the right channel the first.
pub open spec fn sample_decoded(w: Seq<u8>, left: Seq<i16>, right: Seq<i16>, j: int) -> bool {
    &&& left[j] as int == spec_i16_le(w[4 * j + 2], w[4 * j + 3])
    &&& right[j] as int == spec_i16_le(w[4 * j], w[4 * j + 1])
}

/// The two channel sequences decode the window `w` completely.
pub open spec fn window_decoded(w: Seq<u8>, left: Seq<i16>, right: Seq<i16>) -> bool {
    &&& 4 * left.len() == w.len()
    &&& left.len() == right.len()
    &&& forall|j: int| 0 <= j < left.len() ==> #[trigger] sample_decoded(w, left, right, j)
}

/// What one pipeline iteration produced.
pub enum PumpResult {
    /// Too little data was available; the caller should sleep briefly
    /// (hundreds of microseconds) and retry.
    NeedMoreData,
    /// Bytes were consumed but the window is not full yet.
    WindowPending,
    /// A full window was decoded: the left and right channel samples, in
    /// stream order.
    Frame(Vec<i16>, Vec<i16>),
}

/// The byte-to-window stage of the pipeline: drains the ring reader at the
/// pace the target frame rate asks for, keeps the most recent window of
/// bytes, and decodes full windows into per-channel sample sequences.
pub struct SpectralPipeline {
    reader: RingReader,
    bins: usize,
    window_bytes: usize,
    target_bytes: usize,
    acc: Vec<u8>,
}

impl SpectralPipeline {
    /// FFT length: count of samples per channel in one window.
    pub closed spec fn spec_bins(&self) -> usize {
        self.bins
    }

    /// Window length in bytes: four bytes per interleaved stereo frame.
    pub closed spec fn spec_window_bytes(&self) -> usize {
        self.window_bytes
    }

    /// Bytes consumed per output frame: the byte rate over the target
    /// frame rate.
    pub closed spec fn spec_target_bytes(&self) -> usize {
        self.target_bytes
    }

    /// The rolling byte accumulator: the most recently captured bytes, at
    /// most one window of them.
    pub closed spec fn spec_acc(&self) -> Seq<u8> {
        self.acc@
    }

    /// The window length is four bytes per bin and the accumulator never
    /// exceeds it.
    pub closed spec fn wf(&self) -> bool {
        &&& self.window_bytes == 4 * self.bins
        &&& self.acc@.len() <= self.window_bytes
    }

    /// A pipeline reading from `reader`, windowing `source.bins` samples
    /// per channel, paced for `target_fps` frames per second over the
    /// stream `meta` describes.  Fails exactly on a zero frame rate or a
    /// window or per-frame byte count beyond the machine's sizes.
    pub fn new(reader: RingReader, source: &AudioTexSource, meta: &SimpleSource, target_fps: u32)
        -> (r: Result<SpectralPipeline, ENguyenError>)
        ensures
            r is Ok <==> (target_fps >= 1 && 4 * source.bins <= usize::MAX
                && meta.spec_byte_rate() / target_fps as int <= usize::MAX),
            r matches Ok(p) ==> {
                &&& p.wf()
                &&& p.spec_bins() == source.bins
                &&& p.spec_window_bytes() == 4 * source.bins
                &&& p.spec_target_bytes() == meta.spec_byte_rate() / target_fps as int
                &&& p.spec_acc() == Seq::<u8>::empty()
            },
            r matches Err(e) ==> e.message@ == "Pipeline configuration rejected"@,
    {
        if target_fps >= 1 && source.bins <= usize::MAX / 4 {
            proof {
                vstd::arithmetic::div_mod::lemma_fundamental_div_mod(usize::MAX as int, 4);
            }
            let target_wide: u64 = meta.byte_rate() / target_fps as u64;
            if target_wide <= usize::MAX as u64 {
                Ok(
                    SpectralPipeline {
                        reader,
                        bins: source.bins,
                        window_bytes: 4 * source.bins,
                        target_bytes: target_wide as usize,
                        acc: Vec::new(),
                    },
                )
            } else {
                Err(ENguyenError::from("Pipeline configuration rejected"))
            }
        } else {
            proof {
                vstd::arithmetic::div_mod::lemma_fundamental_div_mod(usize::MAX as int, 4);
            }
            Err(ENguyenError::from("Pipeline configuration rejected"))
        }
    }

    /// The pacing decision: how many bytes to consume given `avail` unread
    /// bytes.  Nothing is consumed until two frames' worth have
    /// accumulated; then one frame's worth is taken, rounded down to whole
    /// four-byte stereo frames.
    pub fn consume_amount(avail: usize, target_bytes: usize) -> (r: Option<usize>)
        ensures
            r is Some <==> avail >= 2 * target_bytes,
            r matches Some(n) ==> n == target_bytes - target_bytes % 4 && n % 4 == 0,
    {
        if avail as u128 >= 2 * target_bytes as u128 {
            let n = target_bytes - target_bytes % 4;
            proof {
                vstd::arithmetic::div_mod::lemma_fundamental_div_mod(target_bytes as int, 4);
                vstd::arithmetic::div_mod::lemma_mod_multiples_basic(target_bytes as int / 4, 4);
            }
            Some(n)
        } else {
            None
        }
    }

    /// Appends freshly captured bytes, keeps only the most recent window,
    /// and decodes the window once it is full: sliding-window semantics,
    /// oldest excess discarded at once.
    pub fn accept(&mut self, fresh: &[u8]) -> (r: Option<(Vec<i16>, Vec<i16>)>)
        requires
            old(self).wf(),
            old(self).spec_acc().len() + fresh@.len() <= usize::MAX,
        ensures
            final(self).wf(),
            final(self).spec_bins() == old(self).spec_bins(),
            final(self).spec_window_bytes() == old(self).spec_window_bytes(),
            final(self).spec_target_bytes() == old(self).spec_target_bytes(),
            final(self).spec_acc() == trim_to_window(
                old(self).spec_acc() + fresh@,
                old(self).spec_window_bytes() as int,
            ),
            r is Some <==> old(self).spec_acc().len() + fresh@.len() >= old(
                self,
            ).spec_window_bytes(),
            r matches Some((left, right)) ==> window_decoded(final(self).spec_acc(), left@, right@),
    {
        self.acc.extend_from_slice(fresh);
        if self.acc.len() > self.window_bytes {
            let excess = self.acc.len() - self.window_bytes;
            let rest = self.acc.split_off(excess);
            proof {
                assert(rest@ =~= trim_to_window(
                    old(self).spec_acc() + fresh@,
                    self.window_bytes as int,
                ));
            }
            self.acc = rest;
        } else {
            proof {
                assert(self.acc@ =~= trim_to_window(
                    old(self).spec_acc() + fresh@,
                    self.window_bytes as int,
                ));
            }
        }
        if self.acc.len() < self.window_bytes {
            return None;
        }
        let mut left: Vec<i16> = Vec::with_capacity(self.bins);
        let mut right: Vec<i16> = Vec::with_capacity(self.bins);
        let mut i: usize = 0;
        while i < self.bins
            invariant
                i <= self.bins,
                self.wf(),
                self.acc@.len() == self.window_bytes,
                left@.len() == i,
                right@.len() == i,
                forall|j: int| 0 <= j < i ==> #[trigger] sample_decoded(self.acc@, left@, right@, j),
            decreases self.bins - i,
        {
            let b0 = self.acc[4 * i];
            let b1 = self.acc[4 * i + 1];
            let b2 = self.acc[4 * i + 2];
            let b3 = self.acc[4 * i + 3];
            let ghost prev_left = left@;
            let ghost prev_right = right@;
            right.push(i16_from_le(b0, b1));
            left.push(i16_from_le(b2, b3));
            proof {
                assert forall|j: int| 0 <= j < i implies #[trigger] sample_decoded(
                    self.acc@,
                    left@,
                    right@,
                    j,
                ) by {
                    assert(left@[j] == prev_left[j]);
                    assert(right@[j] == prev_right[j]);
                    assert(sample_decoded(self.acc@, prev_left, prev_right, j));
                }
                assert(sample_decoded(self.acc@, left@, right@, i as int));
            }
            i += 1;
        }
        Some((left, right))
    }

    /// One pipeline iteration: polls the reader, and when two frames'
    /// worth of bytes have accumulated consumes one frame's worth into the
    /// sliding window, decoding it once full.  A returned frame always
    /// decodes the current window completely.
    pub fn pump(&mut self) -> (r: PumpResult)
        requires
            old(self).wf(),
        ensures
            final(self).wf(),
            final(self).spec_bins() == old(self).spec_bins(),
            final(self).spec_window_bytes() == old(self).spec_window_bytes(),
            final(self).spec_target_bytes() == old(self).spec_target_bytes(),
            r is NeedMoreData ==> final(self).spec_acc() == old(self).spec_acc(),
            r matches PumpResult::Frame(left, right) ==> window_decoded(
                final(self).spec_acc(),
                left@,
                right@,
            ) && final(self).spec_acc().len() == final(self).spec_window_bytes(),
    {
        let avail = self.reader.available();
        match Self::consume_amount(avail, self.target_bytes) {
            None => PumpResult::NeedMoreData,
            Some(amount) => {
                let fresh = self.reader.read(amount);
                if self.acc.len() > usize::MAX - fresh.len() {
                    // bytes were consumed but a chunk the accumulator cannot
                    // take is dropped; with a window and a frame budget that
                    // both fit in memory this branch is never reached
                    return PumpResult::WindowPending;
                }
                match self.accept(fresh.as_slice()) {
                    None => PumpResult::WindowPending,
                    Some((left, right)) => PumpResult::Frame(left, right),
                }
            },
        }
    }
}

} // verus!
