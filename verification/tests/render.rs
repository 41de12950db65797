//! The render side, driven the way an audio thread drives it.
use std::collections::VecDeque;

use noisegate::error::AudioError;
use noisegate::render::{
    source_samples_needed, RenderAction, RenderEvent, RenderPump, UpConverter,
};
use noisegate::{FRAME_SAMPLES, SAMPLE_RATE};

fn lerp(a: f32, b: f32, n: u32, d: u32) -> f32 {
    (a as f64 + (b as f64 - a as f64) * (n as f64 / d as f64)) as f32
}

enum Tick {
    /// The engine can take this many frames.
    Writable(u32),
    /// The event did not fire.
    Timeout,
    /// The engine is full — nothing to do this tick.
    Full,
    /// The endpoint went away underneath us.
    Invalidated,
}

struct Engine {
    written: Vec<f32>,
    buffers_taken: usize,
}

struct Source {
    remaining: usize,
    underruns: usize,
}

fn run(
    ticks: Vec<Tick>,
    device_rate: u32,
    channels: usize,
    frames_available: usize,
) -> (Engine, Source, Result<(), AudioError>) {
    let mut ticks: VecDeque<Tick> = ticks.into();
    let mut stop = false;
    let mut engine = Engine {
        written: Vec::new(),
        buffers_taken: 0,
    };
    let mut source = Source {
        remaining: frames_available,
        underruns: 0,
    };
    let mut pump: RenderPump<f32> = RenderPump::new(device_rate, channels, 0.0);
    let mut event = RenderEvent::StopFlag(stop);
    loop {
        let (action, underrun) = pump.step(event);
        if underrun {
            source.underruns += 1;
        }
        event = match action {
            RenderAction::Finish(result) => return (engine, source, result),
            RenderAction::ReadStopFlag => RenderEvent::StopFlag(stop),
            RenderAction::Wait { timeout_ms } => {
                assert_eq!(timeout_ms, 200);
                let signalled = match ticks.front() {
                    None => {
                        stop = true;
                        false
                    }
                    Some(Tick::Timeout) => {
                        ticks.pop_front();
                        false
                    }
                    Some(_) => true,
                };
                RenderEvent::Waited { signalled }
            }
            RenderAction::AskWritable => match ticks.pop_front() {
                Some(Tick::Writable(n)) => RenderEvent::Writable(n),
                Some(Tick::Invalidated) => RenderEvent::Failed(AudioError::DeviceInvalidated {
                    context: "GetCurrentPadding",
                }),
                _ => RenderEvent::Writable(0),
            },
            RenderAction::PullFrame => {
                if source.remaining == 0 {
                    RenderEvent::Pulled(None)
                } else {
                    source.remaining -= 1;
                    RenderEvent::Pulled(Some([0.5; FRAME_SAMPLES]))
                }
            }
            RenderAction::FillBuffer { frames } => {
                // NaN-filled so an unwritten tail is visible rather than plausible.
                let mut buf = vec![f32::NAN; frames as usize * channels];
                pump.fill(&mut buf, &lerp);
                assert!(
                    !buf.iter().any(|s| s.is_nan()),
                    "the engine buffer was left partly unwritten — the device would \
                     play whatever was in that memory"
                );
                engine.written.extend_from_slice(&buf);
                engine.buffers_taken += 1;
                RenderEvent::Filled
            }
        };
    }
}

#[test]
fn audio_reaches_the_engine() {
    let (engine, _, result) = run(vec![Tick::Writable(480)], SAMPLE_RATE, 2, 4);
    assert!(result.is_ok());
    assert_eq!(engine.buffers_taken, 1);
    assert_eq!(engine.written.len(), 480 * 2, "480 frames x 2 channels");
}

#[test]
fn the_pending_queue_does_not_grow_without_bound() {
    let ticks: Vec<Tick> = (0..200).map(|_| Tick::Writable(441)).collect();
    let (engine, source, result) = run(ticks, 44_100, 2, 10_000);
    assert!(result.is_ok());
    assert_eq!(engine.buffers_taken, 200);
    assert_eq!(source.underruns, 0, "the source never ran dry");
    let pulled = 10_000 - source.remaining;
    let expected = 200usize; // 200 x 10 ms, one 480-sample frame each
    assert!(
        pulled.abs_diff(expected) <= 2,
        "pulled {pulled} frames to play {expected} — the queue is drifting"
    );
}

#[test]
fn an_empty_source_renders_silence_and_says_so() {
    let (engine, source, _) = run(vec![Tick::Writable(480)], SAMPLE_RATE, 1, 0);
    assert!(source.underruns > 0, "the underrun must be reported");
    assert!(
        engine.written.iter().all(|&s| s == 0.0),
        "expected silence, got {}",
        engine.written[0]
    );
}

#[test]
fn a_full_engine_is_skipped_without_taking_a_buffer() {
    let (engine, source, result) = run(
        vec![Tick::Full, Tick::Full, Tick::Writable(480)],
        SAMPLE_RATE,
        1,
        4,
    );
    assert!(result.is_ok());
    assert_eq!(engine.buffers_taken, 1, "took a buffer it could not fill");
    assert_eq!(source.underruns, 0);
}

#[test]
fn wasapi_render_timeouts_do_not_end_the_stream() {
    let (engine, _, result) = run(
        vec![Tick::Timeout, Tick::Timeout, Tick::Writable(480)],
        SAMPLE_RATE,
        1,
        4,
    );
    assert!(result.is_ok());
    assert_eq!(engine.buffers_taken, 1);
}

#[test]
fn wasapi_render_a_device_that_disappears_surfaces_as_recoverable() {
    let (_, _, result) = run(
        vec![Tick::Writable(480), Tick::Invalidated],
        SAMPLE_RATE,
        1,
        8,
    );
    let err = result.expect_err("must not be swallowed");
    assert!(err.is_recoverable(), "{err:?} should be retried");
}

#[test]
fn the_whole_buffer_is_written_at_every_rate() {
    for (rate, frames) in [(44_100u32, 441u32), (48_000, 480), (96_000, 960)] {
        let (engine, _, result) = run(vec![Tick::Writable(frames)], rate, 2, 8);
        assert!(result.is_ok(), "{rate} Hz failed");
        assert_eq!(engine.written.len(), frames as usize * 2, "{rate} Hz");
    }
}

/// Returns (interleaved output, source samples used).
fn render(uc: &mut UpConverter<f32>, src: &[f32], frames: usize, channels: usize) -> (Vec<f32>, usize) {
    let mut buf = vec![f32::NAN; frames * channels];
    let consumed = uc.write_into(src, &mut buf, frames, &lerp);
    assert!(
        !buf.iter().any(|s| s.is_nan()),
        "left part of the engine buffer uninitialised — the engine would \
         play whatever was in that memory"
    );
    (buf, consumed)
}

#[test]
fn mono_is_written_to_every_channel() {
    let mut uc = UpConverter::new(SAMPLE_RATE, SAMPLE_RATE, 2, 0.0f32);
    let src = [0.5f32; 8];
    let (out, _) = render(&mut uc, &src, 4, 2);
    assert_eq!(out.len(), 8, "4 frames x 2 channels");
    for pair in out.chunks(2) {
        assert_eq!(pair[0], pair[1], "channels disagree: {pair:?}");
    }
}

#[test]
fn a_surround_device_gets_all_six_channels_filled() {
    let mut uc = UpConverter::new(SAMPLE_RATE, SAMPLE_RATE, 6, 0.0f32);
    let (out, _) = render(&mut uc, &[0.25f32; 4], 2, 6);
    assert_eq!(out.len(), 12);
    for frame in out.chunks(6) {
        assert!(
            frame.iter().all(|&s| s == frame[0]),
            "channels within a frame disagree: {frame:?}"
        );
    }
}

#[test]
fn an_empty_source_writes_real_silence() {
    let mut uc = UpConverter::new(SAMPLE_RATE, SAMPLE_RATE, 2, 0.0f32);
    let (out, consumed) = render(&mut uc, &[], 4, 2);
    assert_eq!(consumed, 0);
    assert!(out.iter().all(|&s| s == 0.0), "{out:?}");
}

#[test]
fn a_matching_rate_consumes_exactly_what_it_plays() {
    let mut uc = UpConverter::new(SAMPLE_RATE, SAMPLE_RATE, 1, 0.0f32);
    let src: Vec<f32> = (1..=8).map(|i| i as f32).collect();
    let (out, consumed) = render(&mut uc, &src, 8, 1);
    assert_eq!(consumed, 8, "consumed {consumed} to play 8 frames");
    assert_eq!(out[0], 0.0);
    assert_eq!(&out[1..], &src[..7]);
}

#[test]
fn a_slower_device_consumes_more_source_than_it_plays() {
    let mut uc = UpConverter::new(SAMPLE_RATE, 44_100, 2, 0.0f32);
    let src = vec![0.3f32; 1000];
    let (_, consumed) = render(&mut uc, &src, 441, 2);
    let expected = (441.0f64 * 48_000.0 / 44_100.0).round() as usize;
    assert!(
        consumed.abs_diff(expected) <= 1,
        "consumed {consumed} for 441 device frames, expected about {expected}"
    );
}

#[test]
fn consumption_stays_in_step_over_many_buffers() {
    const FRAMES: usize = 400;
    const CALLS: usize = 100;
    let mut uc = UpConverter::new(SAMPLE_RATE, 44_100, 2, 0.0f32);
    let src = vec![0.2f32; 2048];
    let mut consumed = 0usize;
    for _ in 0..CALLS {
        consumed += render(&mut uc, &src, FRAMES, 2).1;
    }
    let expected = (FRAMES as f64 * CALLS as f64 * 48_000.0 / 44_100.0).round() as usize;
    assert!(
        consumed.abs_diff(expected) <= 2,
        "consumed {consumed} over {CALLS} buffers, expected about {expected} — \
         the pending queue would drift by {} samples a second",
        (consumed as i64 - expected as i64).abs() * 48_000 / (FRAMES * CALLS) as i64
    );
    // 40 000 * 48 000 / 44 100, rounded down once.
    assert_eq!(consumed, 43_537);
}

#[test]
fn a_matching_device_needs_one_source_sample_per_frame() {
    assert_eq!(source_samples_needed(480, SAMPLE_RATE), 480);
    assert_eq!(source_samples_needed(0, SAMPLE_RATE), 0);
}

#[test]
fn a_slower_device_needs_more_source_than_frames() {
    assert_eq!(source_samples_needed(441, 44_100), 480);
    assert_eq!(source_samples_needed(960, 96_000), 480);
}

#[test]
fn the_sample_count_always_rounds_up() {
    // 1 frame at 44.1 kHz is 1.088 samples at 48 kHz.
    assert_eq!(source_samples_needed(1, 44_100), 2);
    assert_eq!(source_samples_needed(100, 44_100), 109); // 108.84
}

#[test]
fn a_huge_buffer_does_not_overflow() {
    let needed = source_samples_needed(u32::MAX, 44_100);
    assert!(
        needed > u32::MAX as usize,
        "u32 arithmetic would have wrapped"
    );
}

#[test]
fn resampling_does_not_change_the_level() {
    for rate in [44_100, 48_000, 96_000] {
        let mut uc = UpConverter::new(SAMPLE_RATE, rate, 2, 0.0f32);
        let src = vec![0.75f32; 2048];
        // Second call, so the interpolation is past its start-up sample.
        render(&mut uc, &src, 200, 2);
        let (out, _) = render(&mut uc, &src, 200, 2);
        let peak = out.iter().fold(0.0f32, |a, s| a.max(s.abs()));
        assert!((peak - 0.75).abs() < 1e-3, "{rate} Hz gave peak {peak}");
    }
}

#[test]
fn two_buffers_play_like_one() {
    let src: Vec<f32> = (0..1000).map(|i| (i as f32 * 0.1).sin()).collect();
    let mut whole = UpConverter::new(SAMPLE_RATE, 44_100, 1, 0.0);
    let (one, used) = render(&mut whole, &src, 600, 1);
    let mut cut = UpConverter::new(SAMPLE_RATE, 44_100, 1, 0.0);
    let (mut two, first) = render(&mut cut, &src, 217, 1);
    let (rest, second) = render(&mut cut, &src[first..], 383, 1);
    two.extend(rest);
    assert_eq!(one, two);
    assert_eq!(used, first + second);
}
