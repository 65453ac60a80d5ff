//! Real-time pitch estimation on fixed-point audio frames.
//!
//! A frame of samples is handed from the capture side to the analysis side
//! through a bounded first-in, first-out [`channel::FrameChannel`]. Each frame
//! is then autocorrelated ([`correlator`]), the lag of the first strong peak
//! behind the first zero crossing is turned into a frequency ([`peak`]), and
//! the frequency is named as a note of the twelve-tone equal-tempered scale
//! ([`note`]). [`analysis`] ties the stages into the polling state machine.
//!
//! All arithmetic is exact: samples are integers, frequencies are ratios of
//! integers, and every public function is proved against a mathematical
//! statement of what it returns.

pub mod frame;
pub mod channel;
pub mod correlator;
pub mod peak;
pub mod bignat;
pub mod text;
pub mod note;
pub mod analysis;
