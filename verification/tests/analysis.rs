use pitch_detector::analysis::{analyze, drain, LoopState, Report};
use pitch_detector::channel::FrameChannel;
use pitch_detector::correlator::correlation;
use pitch_detector::frame::Frame;
use pitch_detector::note::{hz_to_pitch, PitchClass, PitchLabel};
use pitch_detector::peak::{get_peak, PitchEstimate};

fn sine(frequency: f64, sample_rate: f64, len: usize) -> Frame {
    let samples = (0..len)
        .map(|i| {
            let phase = 2.0 * std::f64::consts::PI * frequency * (i as f64) / sample_rate;
            (32767.0 * phase.sin()).round() as i32
        })
        .collect();
    Frame::new(samples)
}

fn silence(len: usize) -> Frame {
    Frame::new(vec![0; len])
}

const A4: Report = Report::Pitch(PitchLabel { name: PitchClass::A, octave: 4 });

#[test]
fn pure_440_hz_sine_is_named_a4() {
    let frame = sine(440.0, 48000.0, 256);
    let cor = correlation(frame.samples());
    let text = match get_peak(cor, 48000) {
        PitchEstimate::Detected(hz) => hz_to_pitch(hz),
        PitchEstimate::NotDetected => panic!("no pitch in a pure tone"),
    };
    assert_eq!(text, "A 4");
}

#[test]
fn analyze_runs_all_three_stages() {
    assert_eq!(analyze(&sine(440.0, 48000.0, 256), 48000), A4);
    assert_eq!(
        analyze(&sine(261.63, 48000.0, 1024), 48000),
        Report::Pitch(PitchLabel { name: PitchClass::C, octave: 4 })
    );
    assert_eq!(
        analyze(&sine(1000.0, 48000.0, 256), 48000),
        Report::Pitch(PitchLabel { name: PitchClass::B, octave: 5 })
    );
}

#[test]
fn analyze_goes_by_the_sample_rate() {
    // The same samples played twice as fast sound an octave higher.
    let frame = sine(440.0, 48000.0, 256);
    assert_eq!(
        analyze(&frame, 96000),
        Report::Pitch(PitchLabel { name: PitchClass::A, octave: 5 })
    );
}

#[test]
fn analyze_finds_no_pitch_in_silence() {
    assert_eq!(analyze(&silence(256), 48000), Report::NoPitch);
    assert_eq!(analyze(&silence(0), 48000), Report::NoPitch);
}

#[test]
fn analyze_finds_no_pitch_at_sample_rate_zero() {
    assert_eq!(analyze(&sine(440.0, 48000.0, 256), 0), Report::NoPitch);
}

#[test]
fn loop_starts_idle() {
    assert_eq!(LoopState::new(), LoopState::Idle);
    assert!(!LoopState::new().is_stopped());
}

#[test]
fn idle_loop_stays_idle_while_the_source_is_active() {
    let mut channel = FrameChannel::new(4);
    let state = LoopState::new().poll(&mut channel, true);
    assert_eq!(state, LoopState::Idle);
}

#[test]
fn idle_loop_stops_when_the_source_is_inactive() {
    let mut channel = FrameChannel::new(4);
    let state = LoopState::new().poll(&mut channel, false);
    assert_eq!(state, LoopState::Stopped);
    assert!(state.is_stopped());
}

#[test]
fn idle_loop_takes_the_oldest_frame() {
    let mut channel = FrameChannel::new(4);
    channel.send(Frame::new(vec![1, 2])).unwrap();
    channel.send(Frame::new(vec![3, 4])).unwrap();
    let state = LoopState::new().poll(&mut channel, true);
    assert_eq!(state, LoopState::Processing(Frame::new(vec![1, 2])));
    assert_eq!(channel.len(), 1);
}

#[test]
fn waiting_frames_are_processed_before_the_loop_stops() {
    let mut channel = FrameChannel::new(4);
    channel.send(silence(8)).unwrap();
    let state = LoopState::new().poll(&mut channel, false);
    assert_eq!(state, LoopState::Processing(silence(8)));
    let (state, report) = state.process(48000);
    assert_eq!(state, LoopState::Idle);
    assert_eq!(report, Some(Report::NoPitch));
    let state = state.poll(&mut channel, false);
    assert_eq!(state, LoopState::Stopped);
}

#[test]
fn processing_loop_does_not_poll() {
    let mut channel = FrameChannel::new(4);
    channel.send(Frame::new(vec![9])).unwrap();
    let state = LoopState::Processing(Frame::new(vec![1])).poll(&mut channel, false);
    assert_eq!(state, LoopState::Processing(Frame::new(vec![1])));
    assert_eq!(channel.len(), 1);
}

#[test]
fn processing_reports_and_returns_to_idle() {
    let (state, report) = LoopState::Processing(sine(440.0, 48000.0, 256)).process(48000);
    assert_eq!(state, LoopState::Idle);
    assert_eq!(report, Some(A4));
}

#[test]
fn idle_loop_has_nothing_to_process() {
    let (state, report) = LoopState::Idle.process(48000);
    assert_eq!(state, LoopState::Idle);
    assert_eq!(report, None);
}

#[test]
fn stopped_loop_stays_stopped() {
    let mut channel = FrameChannel::new(4);
    channel.send(Frame::new(vec![1])).unwrap();
    let state = LoopState::Stopped.poll(&mut channel, true);
    assert_eq!(state, LoopState::Stopped);
    assert_eq!(channel.len(), 1);
    let (state, report) = state.process(48000);
    assert_eq!(state, LoopState::Stopped);
    assert_eq!(report, None);
}

#[test]
fn drain_reports_every_frame_in_order() {
    let mut channel = FrameChannel::new(8);
    channel.send(sine(440.0, 48000.0, 256)).unwrap();
    channel.send(silence(256)).unwrap();
    channel.send(sine(1000.0, 48000.0, 256)).unwrap();
    channel.send(sine(440.0, 48000.0, 256)).unwrap();
    let reports = drain(&mut channel, 48000);
    assert_eq!(
        reports,
        vec![
            A4,
            Report::NoPitch,
            Report::Pitch(PitchLabel { name: PitchClass::B, octave: 5 }),
            A4,
        ]
    );
    assert!(channel.is_empty());
    assert!(channel.is_open());
    assert_eq!(channel.capacity(), 8);
}

#[test]
fn drain_of_an_empty_channel_reports_nothing() {
    let mut channel = FrameChannel::new(8);
    assert_eq!(drain(&mut channel, 48000), Vec::new());
    channel.close();
    assert_eq!(drain(&mut channel, 48000), Vec::new());
    assert!(!channel.is_open());
}

#[test]
fn driven_loop_reports_each_frame_once() {
    // The capture side delivers three frames and then goes quiet.
    let mut channel = FrameChannel::new(2);
    let mut pending = vec![sine(440.0, 48000.0, 256), silence(16), sine(2000.0, 48000.0, 256)];
    pending.reverse();
    let mut state = LoopState::new();
    let mut reports = Vec::new();
    let mut polls = 0;
    while !state.is_stopped() {
        if let Some(frame) = pending.pop() {
            channel.send(frame).unwrap();
        }
        let source_active = !pending.is_empty();
        state = state.poll(&mut channel, source_active);
        polls += 1;
        let (next, report) = state.process(48000);
        state = next;
        reports.extend(report);
    }
    assert_eq!(polls, 4);
    assert_eq!(
        reports,
        vec![A4, Report::NoPitch, Report::Pitch(PitchLabel { name: PitchClass::B, octave: 6 })]
    );
}
