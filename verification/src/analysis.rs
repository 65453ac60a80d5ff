//! The analysis side: what is done with one frame, and the loop that takes
//! frames from the channel until the capture source has stopped.
//!
//! The loop is a state machine with three states. While `Idle` it polls the
//! channel, which never blocks. A frame that it finds puts it into
//! `Processing`, where the frame is analysed and the loop falls back to
//! `Idle`. When it finds no frame and the capture source is no longer active
//! it goes to `Stopped`, and stays there. Frames that still wait when the
//! source stops are therefore analysed before the loop ends.
//!
//! The machine only decides. Whoever drives it asks the capture source
//! whether it is active, and does with each report what it likes.

use vstd::prelude::*;
use crate::channel::{ChannelState, FrameChannel};
use crate::correlator::{autocorrelation, correlation};
use crate::frame::Frame;
use crate::note::{hz_to_midi_number, label_of, midi_number, pitch_label, PitchLabel};
use crate::peak::{frequency_estimate, get_peak, PitchEstimate};

verus! {

/// What the analysis of one frame yields.
#[derive(Debug, Clone, Copy, PartialEq, Eq)]
pub enum Report {
    /// The frame sounds this note.
    Pitch(PitchLabel),
    /// The frame has no pitch that could be told.
    NoPitch,
}

/// The report that a frame of the given samples calls for: the label of the
/// note nearest to the frequency that its autocorrelation stands for, where
/// it stands for one.
pub open spec fn report_of(frame: Seq<i32>, sample_rate: int) -> Report {
    match frequency_estimate(autocorrelation(frame), sample_rate) {
        Some((numerator, denominator)) => Report::Pitch(
            label_of(midi_number(numerator, denominator)),
        ),
        None => Report::NoPitch,
    }
}

/// Analyses one frame that was captured at `sample_rate` samples per second:
/// autocorrelation, peak selection, and the naming of the note.
pub fn analyze(frame: &Frame, sample_rate: u32) -> (report: Report)
    ensures
        report == report_of(frame@, sample_rate as int),
{
    let cor = correlation(frame.samples());
    match get_peak(cor, sample_rate) {
        PitchEstimate::Detected(hz) => Report::Pitch(pitch_label(hz_to_midi_number(hz))),
        PitchEstimate::NotDetected => Report::NoPitch,
    }
}

/// The state of the analysis loop.
#[derive(Debug, PartialEq, Eq)]
pub enum LoopState {
    /// No frame is at hand; the channel is to be polled.
    Idle,
    /// This frame has left the channel and is to be analysed.
    Processing(Frame),
    /// The capture source has stopped and the channel is drained.
    Stopped,
}

/// The state of the analysis loop, with the frame at hand given by its
/// samples.
pub enum LoopPhase {
    Idle,
    Processing(Seq<i32>),
    Stopped,
}

impl View for LoopState {
    type V = LoopPhase;

    open spec fn view(&self) -> LoopPhase {
        match self {
            LoopState::Idle => LoopPhase::Idle,
            LoopState::Processing(frame) => LoopPhase::Processing(frame@),
            LoopState::Stopped => LoopPhase::Stopped,
        }
    }
}

impl LoopPhase {
    /// What a poll does. An idle loop takes the oldest frame and goes on to
    /// process it; where none waits it stays idle while the capture source is
    /// active, and stops once it is not. In the other two states nothing is
    /// taken and nothing changes.
    pub open spec fn poll(self, channel: ChannelState, source_active: bool) -> (
        LoopPhase,
        ChannelState,
    ) {
        match self {
            LoopPhase::Idle => match channel.receive() {
                (rest, Some(frame)) => (LoopPhase::Processing(frame), rest),
                (rest, None) => (
                    if source_active {
                        LoopPhase::Idle
                    } else {
                        LoopPhase::Stopped
                    },
                    rest,
                ),
            },
            _ => (self, channel),
        }
    }

    /// What processing does. The frame at hand is analysed, its report is
    /// handed out, and the loop is idle again. In the other two states there
    /// is nothing to analyse and nothing changes.
    pub open spec fn process(self, sample_rate: int) -> (LoopPhase, Option<Report>) {
        match self {
            LoopPhase::Processing(frame) => (LoopPhase::Idle, Some(report_of(frame, sample_rate))),
            _ => (self, None),
        }
    }
}

impl LoopState {
    /// The state in which the loop starts.
    pub fn new() -> (state: LoopState)
        ensures
            state@ == LoopPhase::Idle,
    {
        LoopState::Idle
    }

    /// Polls the channel once, without waiting. `source_active` is what the
    /// capture source answered when it was asked whether it still runs.
    pub fn poll(self, channel: &mut FrameChannel, source_active: bool) -> (next: LoopState)
        ensures
            (next@, final(channel)@) == self@.poll(old(channel)@, source_active),
    {
        match self {
            LoopState::Idle => match channel.try_receive() {
                Some(frame) => LoopState::Processing(frame),
                None => if source_active {
                    LoopState::Idle
                } else {
                    LoopState::Stopped
                },
            },
            LoopState::Processing(frame) => LoopState::Processing(frame),
            LoopState::Stopped => LoopState::Stopped,
        }
    }

    /// Analyses the frame at hand, if there is one.
    pub fn process(self, sample_rate: u32) -> (out: (LoopState, Option<Report>))
        ensures
            (out.0@, out.1) == self@.process(sample_rate as int),
    {
        match self {
            LoopState::Processing(frame) => {
                let report = analyze(&frame, sample_rate);
                (LoopState::Idle, Some(report))
            },
            LoopState::Idle => (LoopState::Idle, None),
            LoopState::Stopped => (LoopState::Stopped, None),
        }
    }

    /// Whether the loop has come to its end.
    pub fn is_stopped(&self) -> (stopped: bool)
        ensures
            stopped == (self@ is Stopped),
    {
        match self {
            LoopState::Stopped => true,
            _ => false,
        }
    }
}

/// A stopped loop stays stopped: it takes no frame and hands out no report.
pub proof fn lemma_stopped_is_final(channel: ChannelState, source_active: bool, sample_rate: int)
    ensures
        LoopPhase::Stopped.poll(channel, source_active) == (LoopPhase::Stopped, channel),
        LoopPhase::Stopped.process(sample_rate) == (LoopPhase::Stopped, None::<Report>),
{
}

/// An idle loop does not stop while a frame waits, whatever the capture
/// source says: the oldest frame is taken for processing.
pub proof fn lemma_frames_outlive_the_source(channel: ChannelState, source_active: bool)
    requires
        channel.queued.len() > 0,
    ensures
        LoopPhase::Idle.poll(channel, source_active).0 == LoopPhase::Processing(channel.queued[0]),
        LoopPhase::Idle.poll(channel, source_active).1.queued == channel.queued.drop_first(),
{
}

/// The reports that the frames of a queue call for, oldest frame first.
pub open spec fn reports_of(frames: Seq<Seq<i32>>, sample_rate: int) -> Seq<Report> {
    Seq::new(frames.len(), |i: int| report_of(frames[i], sample_rate))
}

/// Runs the analysis loop to its end after the capture source has stopped:
/// every frame that still waits is analysed, oldest first and each once, and
/// the channel is left empty.
pub fn drain(channel: &mut FrameChannel, sample_rate: u32) -> (reports: Vec<Report>)
    ensures
        reports@ == reports_of(old(channel)@.queued, sample_rate as int),
        final(channel)@.queued.len() == 0,
        final(channel)@.capacity == old(channel)@.capacity,
        final(channel)@.open == old(channel)@.open,
{
    let ghost frames = channel@.queued;
    let mut reports: Vec<Report> = Vec::new();
    let mut state: LoopState = LoopState::new();
    let ghost mut done: nat = 0;
    assert(frames.skip(0) =~= frames);
    loop
        invariant_except_break
            state@ == LoopPhase::Idle,
            done <= frames.len(),
            channel@.queued == frames.skip(done as int),
        invariant
            frames == old(channel)@.queued,
            channel@.capacity == old(channel)@.capacity,
            channel@.open == old(channel)@.open,
            reports@.len() == done,
            forall|i: int| 0 <= i < done ==> reports@[i] == report_of(frames[i], sample_rate as int),
        ensures
            done == frames.len(),
            channel@.queued.len() == 0,
        decreases frames.len() - done,
    {
        state = state.poll(channel, false);
        if state.is_stopped() {
            break ;
        }
        proof {
            assert(frames.skip(done as int).drop_first() =~= frames.skip(done as int + 1));
        }
        let (next, report) = state.process(sample_rate);
        state = next;
        match report {
            Some(r) => {
                reports.push(r);
            },
            None => {},
        }
        proof {
            done = done + 1;
        }
    }
    assert(reports@ =~= reports_of(frames, sample_rate as int));
    reports
}

} // verus!
