//! The unit of audio that moves through the pipeline.

use vstd::prelude::*;

verus! {

/// One chunk of monophonic audio: the samples of a single capture period, in
/// order, as signed fixed-point amplitudes. The scale is the producer's
/// choice; nothing downstream depends on it, because the estimator only looks
/// at signs and at which lag is largest.
///
/// A frame is immutable once made. Whoever holds it owns it.
#[derive(Debug, PartialEq, Eq)]
pub struct Frame {
    samples: Vec<i32>,
}

impl View for Frame {
    type V = Seq<i32>;

    closed spec fn view(&self) -> Seq<i32> {
        self.samples@
    }
}

impl Frame {
    /// Wraps the samples of one capture period.
    pub fn new(samples: Vec<i32>) -> (frame: Frame)
        ensures
            frame@ == samples@,
    {
        Frame { samples }
    }

    /// Number of samples in the frame.
    pub fn len(&self) -> (n: usize)
        ensures
            n == self@.len(),
    {
        self.samples.len()
    }

    /// The samples, in order.
    pub fn samples(&self) -> (samples: &[i32])
        ensures
            samples@ == self@,
    {
        self.samples.as_slice()
    }

    /// Gives the samples back, ending the frame's life.
    pub fn into_samples(self) -> (samples: Vec<i32>)
        ensures
            samples@ == self@,
    {
        self.samples
    }
}

impl Clone for Frame {
    /// A second frame with the same samples.
    fn clone(&self) -> (copy: Frame)
        ensures
            copy@ == self@,
    {
        let samples = self.samples.clone();
        assert(samples@ =~= self.samples@);
        Frame { samples }
    }
}

} // verus!
