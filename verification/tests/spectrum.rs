//! DeepFilterNet's front end and host side, with a real transform.
use noisegate::dfn3::{
    apply_deep_filter, apply_erb_gains, stage_dims, Dfn3Denoiser, COEFS, DF_LOOKAHEAD, HISTORY,
};
use noisegate::dfn_frontend::{
    erb_widths, DfFrontend, FFT_SIZE, FREQ_BINS, HOP, NB_DF, NB_ERB, SR,
};
use noisegate::error::DspError;
use realfft::num_complex::Complex32;
use realfft::RealFftPlanner;

const ALPHA: f32 = 0.99;

#[test]
fn erb_bands_match_libdf() {
    let erb = erb_widths();
    assert_eq!(
        erb,
        vec![
            2, 2, 2, 2, 2, 2, 2, 2, 2, 2, 2, 2, 2, 5, 5, 7, 7, 8, 10, 12, 13, 15, 18, 20, 24, 28,
            31, 37, 42, 50, 56, 67
        ]
    );
    assert_eq!(erb.iter().sum::<usize>(), FREQ_BINS);
}

/// The bands are those that the ERB scale gives, computed here in floating
/// point.
#[test]
fn erb_bands_are_equally_wide_on_the_erb_scale() {
    let freq2erb = |f: f32| 9.265 * (f / (24.7 * 9.265)).ln_1p();
    let erb2freq = |e: f32| 24.7 * 9.265 * ((e / 9.265).exp() - 1.0);
    let width = SR as f32 / FFT_SIZE as f32;
    let (lo, hi) = (freq2erb(0.0), freq2erb((SR / 2) as f32));
    let step = (hi - lo) / NB_ERB as f32;
    let (mut prev, mut over, mut erb) = (0i32, 0i32, Vec::new());
    for i in 1..=NB_ERB {
        let edge = (erb2freq(lo + i as f32 * step) / width).round() as i32;
        let mut nb = edge - prev - over;
        if nb < 2 {
            over = 2 - nb;
            nb = 2;
        } else {
            over = 0;
        }
        erb.push(nb as usize);
        prev = edge;
    }
    erb[NB_ERB - 1] += 1;
    assert_eq!(erb_widths(), erb);
}

fn vorbis_window() -> Vec<f32> {
    let half = (FFT_SIZE / 2) as f64;
    (0..FFT_SIZE)
        .map(|i| {
            let s = (0.5 * std::f64::consts::PI * (i as f64 + 0.5) / half).sin();
            (0.5 * std::f64::consts::PI * s * s).sin() as f32
        })
        .collect()
}

fn linspace(a: f32, b: f32, n: usize) -> Vec<f32> {
    let step = (b - a) / (n - 1) as f32;
    (0..n).map(|i| a + i as f32 * step).collect()
}

fn front() -> DfFrontend<f32> {
    DfFrontend::new(
        0.0,
        vorbis_window(),
        linspace(-60.0, -90.0, NB_ERB),
        linspace(0.001, 0.0001, NB_DF),
    )
}

fn times(a: f32, b: f32) -> f32 {
    a * b
}

fn plus(a: f32, b: f32) -> f32 {
    a + b
}

fn fft(mut block: Vec<f32>) -> Vec<Complex32> {
    let plan = RealFftPlanner::<f32>::new().plan_fft_forward(FFT_SIZE);
    let mut out = vec![Complex32::default(); FREQ_BINS];
    plan.process(&mut block, &mut out).unwrap();
    out
}

fn ifft(mut spectrum: Vec<Complex32>) -> Vec<f32> {
    let plan = RealFftPlanner::<f32>::new().plan_fft_inverse(FFT_SIZE);
    let mut out = vec![0.0; FFT_SIZE];
    plan.process(&mut spectrum, &mut out).unwrap();
    out
}

fn scale(c: Complex32) -> Complex32 {
    c * (1.0 / (FFT_SIZE as f32 * FFT_SIZE as f32 / (2.0 * HOP as f32)))
}

fn energy(c: Complex32) -> f32 {
    c.norm_sqr()
}

fn to_level(sum: f32, width: usize) -> f32 {
    (sum / width as f32 + 1e-10).log10() * 10.0
}

fn decay(level: f32, mean: f32) -> f32 {
    level * (1.0 - ALPHA) + mean * ALPHA
}

fn centre(level: f32, mean: f32) -> f32 {
    (level - mean) / 40.0
}

fn bin_decay(c: Complex32, magnitude: f32) -> f32 {
    c.norm() * (1.0 - ALPHA) + magnitude * ALPHA
}

fn unit(c: Complex32, magnitude: f32) -> Complex32 {
    c / magnitude.sqrt()
}

fn sine(n: usize) -> Vec<f32> {
    (0..n)
        .map(|i| 0.5 * (2.0 * std::f32::consts::PI * 440.0 * i as f32 / SR as f32).sin())
        .collect()
}

fn hop(x: &[f32], i: usize) -> [f32; HOP] {
    let mut frame = [0.0f32; HOP];
    frame.copy_from_slice(&x[i * HOP..(i + 1) * HOP]);
    frame
}

#[test]
#[allow(clippy::excessive_precision)]
fn features_match_the_reference_implementation() {
    let x = sine(12 * HOP);
    let mut fe = front();
    let mut spec = Vec::new();
    let mut erb = Vec::new();
    let mut sf = Vec::new();
    for i in 0..12 {
        spec = fe.analysis(&hop(&x, i), &fft, &times, &scale);
        erb = fe.feat_erb(&spec, &energy, &plus, &to_level, &decay, &centre);
        sf = fe.feat_spec(&spec, &bin_decay, &unit);
    }

    // Frame 11, once the exponential norms have settled.
    let want_erb = [
        -0.511206,
        -0.3457876,
        -0.05047588,
        0.4184017,
        1.010229,
        0.7606199,
        -0.06575756,
        -0.1449326,
    ];
    for (i, want) in want_erb.iter().enumerate() {
        assert!(
            (erb[i] - want).abs() < 1e-4,
            "feat_erb[{i}] = {}, expected {want}",
            erb[i]
        );
    }

    let want_spec = [
        (-0.002134275f32, 0.0f32),
        (-0.002309205, -0.001001143),
        (-0.002897816, -0.002297453),
        (-0.004134033, -0.00431176),
    ];
    for (i, (re, im)) in want_spec.iter().enumerate() {
        assert!(
            (sf[i].re - re).abs() < 1e-5 && (sf[i].im - im).abs() < 1e-5,
            "feat_spec[{i}] = {:?}, expected ({re}, {im})",
            sf[i]
        );
    }

    let peak = spec.iter().map(|c| c.norm()).fold(0.0f32, f32::max);
    let close = |got: f32, want: f32| (got - want).abs() < 1e-4 * peak;
    assert!(
        close(spec[0].re, -6.6597802e-05),
        "{:?} peak {peak}",
        spec[0]
    );
    assert!(
        close(spec[1].re, -7.1894617e-05),
        "{:?} peak {peak}",
        spec[1]
    );
    assert!(
        close(spec[1].im, -3.1169499e-05),
        "{:?} peak {peak}",
        spec[1]
    );
}

#[test]
fn analysis_then_synthesis_reconstructs_the_signal() {
    let x = sine(20 * HOP);
    let mut fe = front();
    let mut recon = Vec::new();
    for i in 0..20 {
        let spec = fe.analysis(&hop(&x, i), &fft, &times, &scale);
        recon.extend_from_slice(&fe.synthesis(spec, &ifft, &times, &plus));
    }

    // One frame of algorithmic delay, then it should track the input.
    for i in HOP..(19 * HOP) {
        let want = x[i - HOP];
        assert!(
            (recon[i] - want).abs() < 1e-4,
            "sample {i}: got {}, expected {want}",
            recon[i]
        );
    }
}

fn gain(c: Complex32, g: f32) -> Complex32 {
    c * g
}

fn ctimes(a: Complex32, b: Complex32) -> Complex32 {
    a * b
}

fn cplus(a: Complex32, b: Complex32) -> Complex32 {
    a + b
}

fn real_only(c: Complex32) -> Complex32 {
    Complex32::new(c.re, 0.0)
}

#[test]
fn each_gain_is_flat_across_its_band() {
    let ones = vec![Complex32::new(1.0, 0.0); FREQ_BINS];
    let gains: Vec<f32> = (0..NB_ERB).map(|b| b as f32).collect();
    let widths = erb_widths();
    let out = apply_erb_gains(&ones, &widths, &gains, &gain);
    let mut bin = 0;
    for (b, &w) in widths.iter().enumerate() {
        for _ in 0..w {
            assert_eq!(out[bin].re, b as f32, "bin {bin}");
            bin += 1;
        }
    }
    // Without a gain for its band a bin keeps its value.
    let out = apply_erb_gains(&ones, &widths, &gains[..1].to_vec(), &gain);
    assert_eq!((out[0].re, out[2].re, out[480].re), (0.0, 1.0, 1.0));
}

/// The frame that the look-ahead allows, counted from the newest of seven.
#[test]
fn the_taps_span_the_newest_five_frames_oldest_first() {
    let history: Vec<Vec<Complex32>> = (0..HISTORY)
        .map(|f| vec![Complex32::new(f as f32, 1.0); FREQ_BINS])
        .collect();
    let spectrum = vec![Complex32::new(-1.0, -1.0); FREQ_BINS];
    let zero = Complex32::default();
    for tap in 0..5 {
        let mut coefs = vec![0.0f32; COEFS];
        for bin in 0..NB_DF {
            coefs[(bin * 5 + tap) * 2] = 1.0;
        }
        let out = apply_deep_filter(
            &spectrum,
            &history,
            &coefs,
            &Complex32::new,
            &ctimes,
            &cplus,
            &real_only,
            zero,
        );
        assert_eq!(out[0], Complex32::new(tap as f32 + 2.0, 0.0), "no phase at 0 Hz");
        assert_eq!(out[95], Complex32::new(tap as f32 + 2.0, 1.0));
        assert_eq!(out[96], spectrum[96], "above the filtered bins");
    }
}

/// With unit gains and no filter the model's host is a delay: one hop for the
/// overlap and two for the look-ahead. The first hops are silent.
#[test]
fn the_host_emits_late_and_starts_silent() {
    let x = sine(20 * HOP);
    let zero = Complex32::default();
    let mut d: Dfn3Denoiser<f32, Complex32> = Dfn3Denoiser::new(front(), 0.0, zero);
    let mut out = Vec::new();
    for i in 0..20 {
        let features = d.observe(
            &hop(&x, i),
            &fft,
            &times,
            &scale,
            &energy,
            &plus,
            &to_level,
            &decay,
            &centre,
            &bin_decay,
            &unit,
            &|c: Complex32| c.re,
            &|c: Complex32| c.im,
        );
        assert_eq!((features.erb.len(), features.planes.len()), (NB_ERB, 2 * NB_DF));
        let frame = d.emit(
            &vec![1.0; NB_ERB],
            &None,
            &gain,
            &Complex32::new,
            &ctimes,
            &cplus,
            &real_only,
            zero,
            &ifft,
            &times,
            &plus,
        );
        out.extend_from_slice(&frame);
    }
    assert!(out[..DF_LOOKAHEAD * HOP].iter().all(|&s| s == 0.0));
    let delay = (DF_LOOKAHEAD + 1) * HOP;
    for i in delay..20 * HOP {
        assert!((out[i] - x[i - delay]).abs() < 1e-4, "sample {i}");
    }
}

#[test]
fn stages_keep_sixty_four_channels() {
    assert_eq!(stage_dims(64 * 32), [1, 64, 1, 32]);
    assert_eq!(stage_dims(100), [1, 64, 1, 1]);
}

#[test]
fn a_hop_that_fails_is_left_alone_and_does_not_count() {
    let zero = Complex32::default();
    let mut d: Dfn3Denoiser<f32, Complex32> = Dfn3Denoiser::new(front(), 0.0, zero);
    let mut finish = |frame: &mut [f32; HOP], graphs| {
        d.finish(
            frame,
            graphs,
            &gain,
            &Complex32::new,
            &ctimes,
            &cplus,
            &real_only,
            zero,
            &|_: Vec<Complex32>| vec![1.0; FFT_SIZE],
            &|a: f32, _: f32| a,
            &plus,
        )
    };
    let fine = || Ok((vec![1.0; NB_ERB], None));
    let mut silent = 0;
    for i in 0..6 {
        let mut frame = [0.25f32; HOP];
        if i % 2 == 0 {
            let why = DspError::Inference("enc: no".to_string());
            let err = finish(&mut frame, Err(why)).unwrap_err();
            assert_eq!(err.text(), "inference failed: enc: no");
            assert_eq!(frame, [0.25; HOP], "hop {i}");
        } else {
            finish(&mut frame, fine()).unwrap();
            assert_ne!(frame, [0.25; HOP], "hop {i}");
            silent += usize::from(frame == [0.0; HOP]);
        }
    }
    assert_eq!(silent, DF_LOOKAHEAD, "the first two, and not the third");
}
