//! The offline tools.
use noisegate::denoiser::Denoiser;
use noisegate::error::DspError;
use noisegate::offline::{
    check_wav, denoise_samples, full_scale, level_bits, level_key, LevelProfile,
    CAPTURED_NOTHING, WINDOW,
};
use noisegate::{Frame, FRAME_SAMPLES};

#[test]
fn only_mono_forty_eight_is_read() {
    assert_eq!(check_wav("a.wav", 1, 48_000), Ok(()));
    assert_eq!(
        check_wav("a.wav", 2, 44_100),
        Err(
            "a.wav is 2 ch @ 44100 Hz; this tool wants mono 48 kHz (what `--record` produces)"
                .to_string()
        )
    );
    assert!(check_wav("a.wav", 1, 44_100).is_err());
    assert_eq!(full_scale(16), 1 << 15);
    assert_eq!(full_scale(1), 1);
    assert_eq!(full_scale(24), 1 << 23);
    assert_eq!(full_scale(32), 1 << 31);
    assert!(CAPTURED_NOTHING.starts_with("captured nothing. "));
}

/// Numbers the frames it sees, and fails on a given one.
struct Numberer {
    seen: Vec<Frame<f32>>,
    fail_at: usize,
}

impl Denoiser<f32> for Numberer {
    fn process_frame(&mut self, frame: &mut Frame<f32>) -> Result<(), DspError> {
        if self.seen.len() == self.fail_at {
            return Err(DspError::Inference("enough".to_string()));
        }
        self.seen.push(*frame);
        let n = self.seen.len() as f32;
        *frame = [n; FRAME_SAMPLES];
        Ok(())
    }
    fn name(&self) -> &'static str {
        "numberer"
    }
}

#[test]
fn a_recording_keeps_its_length_and_pads_its_last_frame() {
    let odd = FRAME_SAMPLES * 3 + 7;
    let samples = vec![0.1f32; odd];
    let mut d = Numberer {
        seen: Vec::new(),
        fail_at: usize::MAX,
    };
    let out = denoise_samples(&samples, &mut d, 0.0).unwrap();
    assert_eq!(out.len(), odd);
    assert_eq!((out[0], out[FRAME_SAMPLES], out[odd - 1]), (1.0, 2.0, 4.0));
    assert_eq!(d.seen.len(), 4);
    assert_eq!((d.seen[3][6], d.seen[3][7]), (0.1, 0.0));

    let mut d = Numberer {
        seen: Vec::new(),
        fail_at: 2,
    };
    assert!(denoise_samples(&samples, &mut d, 0.0).is_err());
    assert_eq!(d.seen.len(), 2, "nothing runs after a failure");
    assert!(denoise_samples(&[], &mut d, 0.0).unwrap().is_empty());
}

/// RNNoise, as the program runs it.
struct RnNoise(Box<nnnoiseless::DenoiseState<'static>>);

impl Denoiser<f32> for RnNoise {
    fn process_frame(&mut self, frame: &mut Frame<f32>) -> Result<(), DspError> {
        let input: Vec<f32> = frame.iter().map(|s| s * 32768.0).collect();
        let mut output = [0.0f32; FRAME_SAMPLES];
        self.0.process_frame(&mut output, &input);
        for (o, s) in frame.iter_mut().zip(output) {
            *o = s / 32768.0;
        }
        Ok(())
    }
    fn name(&self) -> &'static str {
        "RNNoise"
    }
}

fn rms(x: &[f32]) -> f32 {
    if x.is_empty() {
        return 0.0;
    }
    (x.iter().map(|s| s * s).sum::<f32>() / x.len() as f32).sqrt()
}

fn db(x: f32) -> f32 {
    20.0 * x.max(1e-10).log10()
}

/// A whole number that orders as the float does.
fn key(x: f32) -> i32 {
    level_key(x.to_bits())
}

fn unkey(k: i32) -> f32 {
    f32::from_bits(level_bits(k))
}

/// (floor, speech) in decibels.
fn measure(samples: &[f32]) -> (f32, f32) {
    let p = LevelProfile::measure(
        samples,
        &|s: f32| s != 0.0,
        &|w: Vec<f32>| key(db(rms(&w))),
        &|n: usize| (n as f32 * 0.10) as usize,
        &|n: usize| (n as f32 * 0.95) as usize,
        key(db(0.0)),
    );
    (unkey(p.floor), unkey(p.speech))
}

fn alternating(loud: f32, quiet: f32) -> Vec<f32> {
    let mut v = Vec::new();
    for i in 0..40 {
        let amp = if i % 2 == 0 { loud } else { quiet };
        // Square wave at `amp`, so window RMS is exactly `amp`.
        v.extend((0..WINDOW).map(|j| if j % 2 == 0 { amp } else { -amp }));
    }
    v
}

#[test]
fn profile_separates_floor_from_speech() {
    let (floor_db, speech_db) = measure(&alternating(0.5, 0.005));
    assert!(
        (floor_db - db(0.005)).abs() < 0.5,
        "floor was {}",
        floor_db
    );
    assert!(
        (speech_db - db(0.5)).abs() < 0.5,
        "speech was {}",
        speech_db
    );
}

#[test]
fn digital_silence_does_not_fake_a_good_floor() {
    // An upstream gate that zeroes the pauses must not read as -200 dB.
    let mut v = alternating(0.5, 0.005);
    for s in v.iter_mut().take(WINDOW * 10) {
        *s = 0.0;
    }
    let (floor_db, _) = measure(&v);
    assert!(
        floor_db > -100.0,
        "silence leaked into the floor: {}",
        floor_db
    );
}

#[test]
fn profile_of_nothing_is_not_a_panic() {
    let (floor_db, speech_db) = measure(&[]);
    assert!(floor_db < -100.0 && speech_db < -100.0);
    assert_eq!(measure(&[0.0; 3000]), (db(0.0), db(0.0)));
}

#[test]
fn levels_are_read_from_the_sorted_windows() {
    // Ten windows of levels 9, 8, .. 0, read by the first sample.
    let samples: Vec<u32> = (0..10)
        .flat_map(|w| std::iter::repeat(10 - w).take(WINDOW))
        .collect();
    let profile = |floor: usize, speech: usize| {
        let p = LevelProfile::measure(
            &samples,
            &|s: u32| s != 0,
            &|w: Vec<u32>| w[0] as i32,
            &|_| floor,
            &|_| speech,
            0,
        );
        (p.floor, p.speech)
    };
    assert_eq!(profile(1, 9), (2, 10));
    assert_eq!(profile(0, 99), (1, 10), "no such place is the loudest");
}

/// The denoising of a whole recording, end to end: hiss in, less hiss out, same
/// length.
#[test]
fn hiss_comes_out_quieter_and_as_long() {
    let mut seed = 0x2545_F491_4F6C_DD1Du64;
    let noisy: Vec<f32> = (0..96_000)
        .map(|_| {
            seed = seed.wrapping_mul(6364136223846793005).wrapping_add(1);
            ((seed >> 33) as f32 / (1u64 << 31) as f32 - 1.0) * 0.2
        })
        .collect();
    let mut d = RnNoise(nnnoiseless::DenoiseState::new());
    let cleaned = denoise_samples(&noisy, &mut d, 0.0).unwrap();
    assert_eq!(cleaned.len(), noisy.len(), "length must be preserved");
    let (before, _) = measure(&noisy);
    let (after, _) = measure(&cleaned);
    assert!(
        after < before - 6.0,
        "expected the hiss to drop: {before:.1} -> {after:.1} dB"
    );
}

#[test]
fn windows_of_digital_silence_leave_the_levels_as_they_are() {
    let mut v = alternating(0.5, 0.005);
    v.extend([0.1; 100]);
    let before = measure(&v);
    assert!(before.0 <= before.1);
    let mut with = v.clone();
    for at in [40, 17, 17, 0] {
        with.splice(at * WINDOW..at * WINDOW, [0.0; WINDOW]);
    }
    assert_eq!(with.len(), v.len() + 4 * WINDOW);
    assert_eq!(measure(&with), before);
}

#[test]
fn a_recording_runs_as_many_frames_as_it_touches() {
    for (length, frames) in [(0, 0), (1, 1), (480, 1), (481, 2), (1447, 4)] {
        let mut d = Numberer {
            seen: Vec::new(),
            fail_at: usize::MAX,
        };
        let out = denoise_samples(&vec![0.5; length], &mut d, 0.0).unwrap();
        assert_eq!((out.len(), d.seen.len()), (length, frames));
    }
}

#[test]
fn every_width_lands_on_the_same_scale() {
    for bits in [8u16, 16, 24, 32] {
        let half = 1i64 << (bits - 2);
        let lowest = -(1i64 << (bits - 1));
        let scale = 1.0 / full_scale(bits) as f32;
        assert_eq!(half as f32 * scale, 0.5, "{bits} bits");
        assert_eq!(lowest as f32 * scale, -1.0, "{bits} bits");
    }
}

#[test]
fn keys_are_ordered_as_the_floats_are() {
    let floats = [
        -f32::NAN,
        f32::NEG_INFINITY,
        -200.0,
        -0.5,
        -f32::MIN_POSITIVE,
        -0.0,
        0.0,
        f32::MIN_POSITIVE,
        0.5,
        12.0,
        f32::INFINITY,
        f32::NAN,
    ];
    for a in floats {
        assert_eq!(unkey(key(a)).to_bits(), a.to_bits());
        for b in floats {
            assert_eq!(key(a).cmp(&key(b)), a.total_cmp(&b), "{a} and {b}");
        }
    }
    assert_eq!((key(0.0), key(-0.0)), (0, -1));
    assert_eq!((level_key(u32::MAX), level_bits(i32::MIN)), (i32::MIN, u32::MAX));
}
