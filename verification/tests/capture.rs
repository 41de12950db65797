//! The capture side, driven the way an audio thread drives it.
use std::collections::VecDeque;

use noisegate::capture::{
    BufferStatus, CaptureAction, CaptureEvent, CapturePump, FrameAccumulator, InlineConverter,
    BUFFERFLAGS_DATA_DISCONTINUITY, BUFFERFLAGS_SILENT, BUFFERFLAGS_TIMESTAMP_ERROR,
};
use noisegate::error::AudioError;
use noisegate::{Frame, FRAME_SAMPLES, SAMPLE_RATE};

fn plus(a: f32, b: f32) -> f32 {
    a + b
}

fn divide(a: f32, n: usize) -> f32 {
    a / n as f32
}

fn lerp(a: f32, b: f32, n: u32, d: u32) -> f32 {
    (a as f64 + (b as f64 - a as f64) * (n as f64 / d as f64)) as f32
}

/// One thing the engine does when the pump asks.
enum Tick {
    Buffers(Vec<(Vec<f32>, u32)>),
    Timeout,
    SignalledButEmpty,
    Invalidated,
}

#[derive(Default)]
struct Recorder {
    frames: Vec<Frame<f32>>,
    glitches: Vec<u32>,
}

/// Run a script through the pump and report what the sink saw.
fn run_with(
    ticks: Vec<Tick>,
    channels: usize,
    resample_from: Option<u32>,
    mut stop: bool,
) -> (Recorder, Result<(), AudioError>) {
    let mut ticks: VecDeque<Tick> = ticks.into();
    let mut sink = Recorder::default();
    let mut pump: CapturePump<f32> = CapturePump::new(channels, resample_from, 0.0);
    let mut event = CaptureEvent::StopFlag(stop);
    loop {
        let step = pump.step(event, &plus, &divide, &lerp);
        if let Some(flags) = step.glitch {
            sink.glitches.push(flags);
        }
        sink.frames.extend(step.frames);
        event = match step.action {
            CaptureAction::Finish(result) => return (sink, result),
            CaptureAction::ReadStopFlag => CaptureEvent::StopFlag(stop),
            CaptureAction::Wait { timeout_ms } => {
                assert_eq!(timeout_ms, 200);
                let signalled = match ticks.front() {
                    None => {
                        stop = true;
                        false
                    }
                    Some(Tick::Timeout) => {
                        ticks.pop_front();
                        false
                    }
                    Some(_) => true,
                };
                CaptureEvent::Waited {
                    signalled,
                    elapsed_ns: 0,
                }
            }
            CaptureAction::NextBuffer => match ticks.front_mut() {
                Some(Tick::Buffers(queue)) if !queue.is_empty() => {
                    let (samples, flags) = queue.remove(0);
                    CaptureEvent::Buffer { samples, flags }
                }
                Some(Tick::Buffers(_)) | Some(Tick::SignalledButEmpty) => {
                    ticks.pop_front();
                    CaptureEvent::Empty
                }
                Some(Tick::Invalidated) => CaptureEvent::Failed(AudioError::DeviceInvalidated {
                    context: "GetBuffer",
                }),
                _ => CaptureEvent::Empty,
            },
        };
    }
}

fn run(
    ticks: Vec<Tick>,
    channels: usize,
    resample_from: Option<u32>,
) -> (Recorder, Result<(), AudioError>) {
    run_with(ticks, channels, resample_from, false)
}

fn buffer(samples: usize, value: f32) -> (Vec<f32>, u32) {
    (vec![value; samples], 0)
}

#[test]
fn audio_flows_from_the_engine_into_whole_frames() {
    let (sink, result) = run(
        vec![Tick::Buffers(vec![
            buffer(FRAME_SAMPLES, 0.5),
            buffer(FRAME_SAMPLES, 0.25),
        ])],
        1,
        None,
    );
    assert!(result.is_ok());
    assert_eq!(sink.frames.len(), 2);
    assert!(sink.frames[0].iter().all(|&s| s == 0.5));
    assert!(sink.frames[1].iter().all(|&s| s == 0.25));
}

#[test]
fn ragged_buffers_are_reassembled_into_frames() {
    let (sink, _) = run(
        vec![
            Tick::Buffers(vec![buffer(100, 0.1), buffer(200, 0.1)]),
            Tick::Buffers(vec![buffer(180, 0.1), buffer(700, 0.2)]),
        ],
        1,
        None,
    );
    // 1180 samples in = 2 whole frames, 220 held back.
    assert_eq!(sink.frames.len(), 2);
}

#[test]
fn a_silent_flagged_buffer_never_reaches_the_sink() {
    const JUNK: f32 = 0.987;
    let silent_flag = BUFFERFLAGS_SILENT;
    let (sink, _) = run(
        vec![Tick::Buffers(vec![(
            vec![JUNK; FRAME_SAMPLES],
            silent_flag,
        )])],
        1,
        None,
    );
    assert_eq!(sink.frames.len(), 1);
    assert!(
        sink.frames[0].iter().all(|&s| s == 0.0),
        "undefined buffer contents were forwarded as audio: {}",
        sink.frames[0][0]
    );
    assert_eq!(sink.glitches, vec![silent_flag], "and it is reported");
}

#[test]
fn a_discontinuity_is_reported_but_the_audio_is_kept() {
    let flag = BUFFERFLAGS_DATA_DISCONTINUITY;
    let (sink, _) = run(
        vec![Tick::Buffers(vec![(vec![0.75; FRAME_SAMPLES], flag)])],
        1,
        None,
    );
    assert_eq!(sink.glitches, vec![flag]);
    assert!(
        sink.frames[0].iter().all(|&s| s == 0.75),
        "real audio was discarded along with the glitch report"
    );
}

#[test]
fn signalling_with_nothing_available_is_not_a_failure() {
    let (sink, result) = run(
        vec![
            Tick::SignalledButEmpty,
            Tick::Buffers(vec![buffer(FRAME_SAMPLES, 0.3)]),
        ],
        1,
        None,
    );
    assert!(result.is_ok());
    assert_eq!(sink.frames.len(), 1, "the next tick must still be served");
}

#[test]
fn wasapi_capture_timeouts_do_not_end_the_stream() {
    let (sink, result) = run(
        vec![
            Tick::Timeout,
            Tick::Timeout,
            Tick::Buffers(vec![buffer(FRAME_SAMPLES, 0.6)]),
        ],
        1,
        None,
    );
    assert!(result.is_ok());
    assert_eq!(sink.frames.len(), 1, "audio after the timeouts was lost");
}

#[test]
fn wasapi_capture_a_device_that_disappears_surfaces_as_recoverable() {
    let (_, result) = run(
        vec![
            Tick::Buffers(vec![buffer(FRAME_SAMPLES, 0.1)]),
            Tick::Invalidated,
        ],
        1,
        None,
    );
    let err = result.expect_err("the pump must not swallow this");
    assert!(
        err.is_recoverable(),
        "{err:?} should be retried with a freshly resolved device"
    );
}

#[test]
fn a_stereo_forty_four_one_device_still_yields_mono_forty_eight() {
    // 441 stereo frames = 10 ms, which is 480 samples at 48 kHz.
    let interleaved: Vec<f32> = std::iter::repeat([0.0f32, 1.0])
        .take(441)
        .flatten()
        .collect();
    let (sink, _) = run(
        vec![
            Tick::Buffers(vec![(interleaved.clone(), 0)]),
            Tick::Buffers(vec![(interleaved, 0)]),
        ],
        2,
        Some(44_100),
    );
    assert_eq!(sink.frames.len(), 2, "expected 10 ms per buffer");
    const RAMP_IN: usize = 2;
    assert_eq!(sink.frames[0][0], 0.0, "expected to start from silence");
    assert!(
        sink.frames[0][..RAMP_IN].iter().all(|&s| s < 0.5),
        "the ramp should climb toward the signal: {:?}",
        &sink.frames[0][..RAMP_IN]
    );
    assert!(
        sink.frames[0][RAMP_IN..]
            .iter()
            .all(|&s| (s - 0.5).abs() < 1e-3),
        "should have settled by sample {RAMP_IN}: got {}",
        sink.frames[0][RAMP_IN]
    );
    assert!(
        sink.frames[1].iter().all(|&s| (s - 0.5).abs() < 1e-3),
        "steady state should be clean: {}",
        sink.frames[1][0]
    );
}

#[test]
fn the_stop_flag_ends_the_pump() {
    let (sink, result) = run_with(
        vec![Tick::Buffers(vec![buffer(FRAME_SAMPLES, 0.5)])],
        1,
        None,
        true,
    );
    result.unwrap();
    assert!(
        sink.frames.is_empty(),
        "already stopped; nothing should run"
    );
}

#[test]
fn a_blocked_microphone_is_mentioned_every_five_seconds_until_audio_flows() {
    let mut pump: CapturePump<f32> = CapturePump::new(1, None, 0.0);
    let mut warned = Vec::new();
    for s in 0..14u64 {
        let step = pump.step(
            CaptureEvent::Waited {
                signalled: false,
                elapsed_ns: s * 1_000_000_000,
            },
            &plus,
            &divide,
            &lerp,
        );
        if step.warn_no_audio {
            warned.push(s);
        }
    }
    assert_eq!(warned, vec![6, 12]);

    let step = pump.step(
        CaptureEvent::Buffer {
            samples: vec![0.1; 10],
            flags: 0,
        },
        &plus,
        &divide,
        &lerp,
    );
    assert!(step.first_buffer);
    let step = pump.step(
        CaptureEvent::Waited {
            signalled: false,
            elapsed_ns: 60_000_000_000,
        },
        &plus,
        &divide,
        &lerp,
    );
    assert!(!step.warn_no_audio, "audio has flowed");
}

#[test]
fn a_clean_buffer_is_neither_silent_nor_a_glitch() {
    let s = BufferStatus::from_flags(0);
    assert!(!s.silent && !s.glitch);
}

#[test]
fn a_silent_flagged_buffer_is_recognised() {
    let s = BufferStatus::from_flags(BUFFERFLAGS_SILENT);
    assert!(s.silent, "undefined memory would be forwarded as audio");
    assert!(s.glitch, "and it is worth reporting");
}

#[test]
fn a_discontinuity_is_reported_without_discarding_the_audio() {
    for (name, flag) in [
        ("DATA_DISCONTINUITY", BUFFERFLAGS_DATA_DISCONTINUITY),
        ("TIMESTAMP_ERROR", BUFFERFLAGS_TIMESTAMP_ERROR),
    ] {
        let s = BufferStatus::from_flags(flag);
        assert!(s.glitch, "{name} should be reported");
        assert!(!s.silent, "{name} does not mean the data is undefined");
    }
}

#[test]
fn flags_we_do_not_know_about_are_ignored() {
    let s = BufferStatus::from_flags(0x8000_0000);
    assert!(!s.silent && !s.glitch);
}

#[test]
fn several_flags_at_once_are_all_honoured() {
    let s = BufferStatus::from_flags(BUFFERFLAGS_SILENT | BUFFERFLAGS_DATA_DISCONTINUITY);
    assert!(s.silent && s.glitch);
}

#[test]
fn a_full_frame_comes_straight_back_out() {
    let mut acc = FrameAccumulator::new();
    let input: Vec<f32> = (0..FRAME_SAMPLES).map(|i| i as f32).collect();
    let frames = acc.feed(&input);
    assert_eq!(frames.len(), 1);
    assert_eq!(frames[0].as_slice(), input.as_slice());
}

#[test]
fn a_partial_frame_is_carried_across_calls() {
    let mut acc = FrameAccumulator::new();
    let input: Vec<f32> = (0..FRAME_SAMPLES).map(|i| i as f32).collect();
    assert!(acc.feed(&input[..100]).is_empty(), "not a frame yet");
    assert!(acc.feed(&input[100..300]).is_empty());
    let frames = acc.feed(&input[300..]);
    assert_eq!(frames.len(), 1, "the third chunk completes the frame");
    assert_eq!(
        frames[0].as_slice(),
        input.as_slice(),
        "samples were reordered or lost across the joins"
    );
}

#[test]
fn a_long_buffer_yields_every_whole_frame_and_holds_the_remainder() {
    let mut acc = FrameAccumulator::new();
    let total = FRAME_SAMPLES * 3 + 40;
    let input: Vec<f32> = (0..total).map(|i| i as f32).collect();
    let frames = acc.feed(&input);
    assert_eq!(frames.len(), 3);
    for (n, frame) in frames.iter().enumerate() {
        let start = n * FRAME_SAMPLES;
        assert_eq!(
            frame.as_slice(),
            &input[start..start + FRAME_SAMPLES],
            "frame {n} has the wrong samples"
        );
    }
    let more: Vec<f32> = vec![-1.0; FRAME_SAMPLES - 40];
    let frames = acc.feed(&more);
    assert_eq!(frames.len(), 1);
    assert_eq!(&frames[0][..40], &input[total - 40..]);
    assert_eq!(frames[0][40], -1.0);
}

#[test]
fn an_empty_buffer_emits_nothing() {
    let mut acc: FrameAccumulator<f32> = FrameAccumulator::new();
    assert!(acc.feed(&[]).is_empty());
}

#[test]
fn no_samples_are_invented_or_lost_over_a_long_run() {
    let mut acc = FrameAccumulator::new();
    let mut emitted = 0usize;
    let mut fed = 0usize;
    // Chunk sizes that never line up with 480.
    for chunk in [7usize, 113, 480, 1021, 33, 962] {
        let block = vec![0.5f32; chunk];
        emitted += acc.feed(&block).len();
        fed += chunk;
    }
    assert_eq!(emitted, fed / FRAME_SAMPLES);
}

/// Peak amplitude, for checking a conversion didn't swallow the signal.
fn peak(x: &[f32]) -> f32 {
    x.iter().fold(0.0f32, |a, s| a.max(s.abs()))
}

fn process(c: &mut InlineConverter<f32>, input: &[f32], frames: usize) -> Vec<f32> {
    c.process(input, frames, &plus, &divide, &lerp)
}

#[test]
fn a_matching_mono_device_passes_through_untouched() {
    let mut c = InlineConverter::new(SAMPLE_RATE, 1, SAMPLE_RATE, 0.0f32);
    let input: Vec<f32> = (0..480).map(|i| (i as f32 / 480.0) - 0.5).collect();
    assert_eq!(process(&mut c, &input, 480), input.as_slice());
}

#[test]
fn stereo_is_averaged_rather_than_half_discarded() {
    let mut c = InlineConverter::new(SAMPLE_RATE, 2, SAMPLE_RATE, 0.0f32);
    // Interleaved L,R: left silent, right at full scale.
    let input = [0.0, 1.0, 0.0, 1.0, 0.0, 1.0];
    assert_eq!(process(&mut c, &input, 3), &[0.5, 0.5, 0.5]);

    let mut c = InlineConverter::new(SAMPLE_RATE, 2, SAMPLE_RATE, 0.0f32);
    let input = [0.4, 0.6, -0.2, 0.2];
    let out = process(&mut c, &input, 2);
    assert!(
        (out[0] - 0.5).abs() < 1e-6 && out[1].abs() < 1e-6,
        "{out:?}"
    );
}

#[test]
fn a_four_channel_device_is_averaged_too() {
    let mut c = InlineConverter::new(SAMPLE_RATE, 4, SAMPLE_RATE, 0.0f32);
    let input = [1.0, 1.0, 1.0, 1.0, 0.0, 0.0, 0.0, 2.0];
    assert_eq!(process(&mut c, &input, 2), &[1.0, 0.5]);
}

#[test]
fn forty_four_one_is_resampled_up_to_forty_eight() {
    let mut c = InlineConverter::new(44_100, 1, 48_000, 0.0f32);
    let input = vec![0.25f32; 441];
    let out = process(&mut c, &input, 441);
    let expected = (441.0f64 * 48_000.0 / 44_100.0).round() as usize;
    assert!(
        out.len().abs_diff(expected) <= 1,
        "got {} samples, expected about {expected}",
        out.len()
    );
    assert!((peak(&out) - 0.25).abs() < 1e-3, "peak was {}", peak(&out));
}

#[test]
fn the_resampler_does_not_drift_across_calls() {
    const CHUNK: usize = 400;
    const CALLS: usize = 100;
    let mut c = InlineConverter::new(44_100, 1, 48_000, 0.0f32);
    let chunk = vec![0.1f32; CHUNK];
    let mut produced = 0usize;
    for _ in 0..CALLS {
        produced += process(&mut c, &chunk, CHUNK).len();
    }
    let expected = (CHUNK as f64 * CALLS as f64 * 48_000.0 / 44_100.0).round() as usize;
    assert!(
        produced.abs_diff(expected) <= 2,
        "produced {produced} samples, expected about {expected} — the phase is drifting \
         (a converter that resets phase every call would produce {})",
        CALLS * (CHUNK as f64 / (44_100.0 / 48_000.0)).ceil() as usize
    );
    // 40 000 * 48 000 / 44 100, rounded up once.
    assert_eq!(produced, 43_538);
}

#[test]
fn downmix_and_resample_compose() {
    let mut c = InlineConverter::new(44_100, 2, 48_000, 0.0f32);
    let input: Vec<f32> = std::iter::repeat([0.0f32, 0.8])
        .take(441)
        .flatten()
        .collect();
    let out = process(&mut c, &input, 441);
    assert!(out.len() >= 470, "expected upsampling, got {}", out.len());
    assert!((peak(&out) - 0.4).abs() < 1e-3, "peak was {}", peak(&out));
}

#[test]
fn a_ninety_six_kilohertz_device_is_halved() {
    let mut c = InlineConverter::new(96_000, 1, 48_000, 0.0f32);
    let input: Vec<f32> = (0..960).map(|i| (i % 2) as f32).collect();
    let out = process(&mut c, &input, 960);
    assert!(
        out.len().abs_diff(480) <= 1,
        "expected about 480 samples, got {}",
        out.len()
    );
}

/// Cutting a stream into buffers changes nothing about what comes out.
#[test]
fn a_cut_stream_comes_out_as_the_whole_one() {
    let input: Vec<f32> = (0..1000).map(|i| ((i * 37) % 101) as f32).collect();
    let mut whole = InlineConverter::new(44_100, 1, 48_000, 0.0f32);
    let expected = process(&mut whole, &input, 1000);

    let mut cut = InlineConverter::new(44_100, 1, 48_000, 0.0f32);
    let mut got = Vec::new();
    for part in [&input[..1], &input[1..333], &input[333..333], &input[333..]] {
        got.extend(process(&mut cut, part, part.len()));
    }
    assert_eq!(got, expected);
}

#[test]
fn cut_interleaved_frames_come_out_as_the_whole_ones() {
    let stereo: Vec<f32> = (0..2 * 300).map(|i| (i * 37 % 101) as f32 / 64.0).collect();
    for rate in [24_000, 44_100, SAMPLE_RATE, 96_000] {
        let mut whole: InlineConverter<f32> = InlineConverter::new(rate, 2, SAMPLE_RATE, 0.0);
        let expected = process(&mut whole, &stereo, 300);
        for cut in [0, 1, 77, 299, 300] {
            let mut c: InlineConverter<f32> = InlineConverter::new(rate, 2, SAMPLE_RATE, 0.0);
            let mut out = process(&mut c, &stereo[..2 * cut], cut);
            out.extend(process(&mut c, &stereo[2 * cut..], 300 - cut));
            assert_eq!(out, expected, "{rate} Hz cut at {cut}");
        }
    }
}
