//! Denoisers: hosting one, the contract of a streaming model, the turn of the
//! denoiser's thread.
use noisegate::denoiser::{
    choose_backend, clamp_attenuation, tract_attenuation, Backend, Denoiser, DenoiserHost, Stats,
};
use noisegate::error::DspError;
use noisegate::onnx::{declared_len, find_input, state_size_fits, ModelInput, OnnxDenoiser};
use noisegate::pipeline::{dsp_step, dsp_turn, DspTurn, GapWatch, UnderrunLog};
use noisegate::ring::{frame_ring, RING_FRAMES};
use noisegate::{Frame, FRAME_SAMPLES};

/// Doubles every sample, and fails on a frame that starts with a negative one.
struct Doubler {
    calls: usize,
}

impl Denoiser<f32> for Doubler {
    fn process_frame(&mut self, frame: &mut Frame<f32>) -> Result<(), DspError> {
        self.calls += 1;
        if frame[0] < 0.0 {
            return Err(DspError::Inference("negative".to_string()));
        }
        for s in frame.iter_mut() {
            *s *= 2.0;
        }
        Ok(())
    }

    fn name(&self) -> &'static str {
        "doubler"
    }
}

#[test]
fn a_bypassed_frame_is_counted_and_left_alone() {
    let mut host = DenoiserHost::new(Doubler { calls: 0 });
    assert_eq!(host.name::<f32>(), "doubler");
    let mut frame = [0.25f32; FRAME_SAMPLES];
    host.process(&mut frame).unwrap();
    assert_eq!(frame[7], 0.5);

    host.set_bypass(true);
    host.process(&mut frame).unwrap();
    assert_eq!(frame[7], 0.5, "bypassed");
    let stats = host.stats();
    assert_eq!(stats.frames, 2);
    assert!(stats.peak_frame_ns <= stats.dsp_ns);

    host.set_bypass(false);
    let mut bad = [-1.0f32; FRAME_SAMPLES];
    let err = host.process(&mut bad).unwrap_err();
    assert_eq!(err.text(), "inference failed: negative");
    assert_eq!(host.stats().frames, 3, "a failed frame counts");
}

#[test]
fn the_peak_is_sticky() {
    let mut stats = Stats::default();
    stats.count_frame();
    stats.count_time(300);
    stats.count_frame();
    stats.count_time(200);
    assert_eq!(
        stats,
        Stats {
            frames: 2,
            dsp_ns: 500,
            peak_frame_ns: 300
        }
    );
}

/// The clock that the host reads is a real one.
#[test]
fn time_spent_in_the_denoiser_is_measured() {
    struct Slow;
    impl Denoiser<f32> for Slow {
        fn process_frame(&mut self, _frame: &mut Frame<f32>) -> Result<(), DspError> {
            let start = std::time::Instant::now();
            while start.elapsed().as_millis() < 20 {}
            Ok(())
        }
        fn name(&self) -> &'static str {
            "slow"
        }
    }
    let mut host = DenoiserHost::new(Slow);
    host.process(&mut [0.0f32; FRAME_SAMPLES]).unwrap();
    assert!(host.stats().dsp_ns >= 15_000_000);
    assert_eq!(host.stats().dsp_ns, host.stats().peak_frame_ns);
}

#[test]
fn errors_say_what_failed() {
    assert_eq!(
        DspError::Load("x".to_string()).text(),
        "model load failed: x"
    );
    assert_eq!(DspError::Other("x".to_string()).text(), "x");
}

/// The installer lays the model down as loose files in a directory, which
/// has no extension to dispatch on.
#[test]
fn a_model_directory_is_routed_to_tract() {
    let backend = choose_backend(Some((true, None)));
    assert_eq!(backend.fixed_name(), Some("DeepFilterNet3 (tract)"));
    assert_eq!(choose_backend(Some((false, Some("gz")))), Backend::Tract);
    assert_eq!(choose_backend(Some((false, Some("onnx")))), Backend::Onnx);
    assert_eq!(choose_backend(Some((false, None))), Backend::Onnx);
    assert_eq!(choose_backend(None), Backend::RnNoise);
    assert_eq!(Backend::Onnx.fixed_name(), None);
}

#[test]
fn no_limit_is_spelled_differently_for_each_runner() {
    let bits = |x: f32| x.to_bits();
    assert_eq!(clamp_attenuation(bits(12.0)), bits(12.0));
    assert_eq!(clamp_attenuation(bits(-10.0)), bits(0.0));
    assert_eq!(clamp_attenuation(bits(0.0)), bits(0.0));
    assert_eq!(clamp_attenuation(bits(f32::NAN)), bits(0.0));
    assert_eq!(
        clamp_attenuation(bits(f32::INFINITY)),
        bits(f32::INFINITY)
    );
    for x in [0.0f32, -0.0, -3.0, f32::NEG_INFINITY] {
        assert_eq!(f32::from_bits(tract_attenuation(bits(x))), 100.0, "{x}");
    }
    assert_eq!(f32::from_bits(tract_attenuation(bits(6.0))), 6.0);
    assert!(f32::from_bits(tract_attenuation(bits(f32::NAN))).is_nan());
}

fn tensor(name: &str, dims: &[i64]) -> ModelInput {
    ModelInput {
        name: name.to_string(),
        dims: Some(dims.to_vec()),
    }
}

/// The signature of a model that implements just the contract: it returns
/// `input * (states[0] + 1) + atten` and increments its state.
fn contract_inputs() -> Vec<ModelInput> {
    vec![
        tensor("input_frame", &[480]),
        tensor("states", &[4]),
        tensor("atten_lim_db", &[1]),
    ]
}

fn contract_model() -> OnnxDenoiser<f32> {
    let name = Some("streaming_contract.onnx".to_string());
    match OnnxDenoiser::load(name, &contract_inputs(), 2, 0.0) {
        Ok(model) => model,
        Err(e) => panic!("{}", e.text()),
    }
}

fn run_contract_model(d: &mut OnnxDenoiser<f32>, frame: &mut Frame<f32>) -> Result<(), DspError> {
    let atten = f32::from_bits(d.attenuation_bits());
    let gain = d.states()[0] + 1.0;
    let enhanced: Vec<f32> = frame.iter().map(|s| s * gain + atten).collect();
    let states: Vec<f32> = d.states().iter().map(|s| s + 1.0).collect();
    d.take_audio(frame, &enhanced)?;
    d.take_states(&states)
}

#[test]
fn the_state_width_is_read_from_the_model() {
    let d = contract_model();
    assert_eq!(
        d.states().len(),
        4,
        "the loader must take the state size from the model, not a constant"
    );
    assert_eq!(d.frame_input(), "input_frame");
    assert_eq!(d.states_input(), "states");
    assert_eq!(d.atten_input().as_deref(), Some("atten_lim_db"));
    assert!(d.label().contains("streaming_contract"));
}

#[test]
fn the_models_state_is_fed_back_on_the_next_frame() {
    let mut d = contract_model();
    let mut frame = [0.25f32; FRAME_SAMPLES];

    run_contract_model(&mut d, &mut frame).unwrap();
    assert!(
        frame.iter().all(|&s| (s - 0.25).abs() < 1e-6),
        "first frame, state 0: expected the input back, got {}",
        frame[0]
    );

    run_contract_model(&mut d, &mut frame).unwrap();
    assert!(
        frame.iter().all(|&s| (s - 0.5).abs() < 1e-6),
        "second frame should have seen state 1 and doubled; got {} \
         (0.25 means the state was not fed back)",
        frame[0]
    );

    run_contract_model(&mut d, &mut frame).unwrap();
    assert!(
        frame.iter().all(|&s| (s - 1.5).abs() < 1e-6),
        "third frame should have seen state 2; got {}",
        frame[0]
    );
}

#[test]
fn the_attenuation_limit_reaches_the_model() {
    let mut d = contract_model();
    d.set_attenuation_db(3.0f32.to_bits());
    let mut frame = [0.0f32; FRAME_SAMPLES];
    run_contract_model(&mut d, &mut frame).unwrap();
    assert!(
        (frame[0] - 3.0).abs() < 1e-6,
        "expected the attenuation to arrive, got {}",
        frame[0]
    );
}

#[test]
fn a_negative_attenuation_is_clamped_to_zero() {
    let mut d = contract_model();
    d.set_attenuation_db((-10.0f32).to_bits());
    assert_eq!(f32::from_bits(d.attenuation_bits()), 0.0);
    let mut frame = [0.0f32; FRAME_SAMPLES];
    run_contract_model(&mut d, &mut frame).unwrap();
    assert_eq!(frame[0], 0.0);
}

fn refused(inputs: Vec<ModelInput>, outputs: usize) -> String {
    match OnnxDenoiser::load(None, &inputs, outputs, 0.0f32) {
        Ok(_) => panic!("must not load"),
        Err(e) => e.text(),
    }
}

#[test]
fn a_model_that_returns_no_new_state_is_refused_at_load() {
    let msg = refused(contract_inputs(), 1);
    assert!(
        msg.contains("output"),
        "the message should say what is wrong with the model: {msg}"
    );
    assert!(msg.starts_with("model load failed: model has 1 output(s); this loader needs two — "));
}

#[test]
fn a_model_that_does_not_stream_is_refused_at_load() {
    assert_eq!(refused(vec![], 2), "model load failed: model has no inputs");
    assert_eq!(
        refused(vec![tensor("x", &[480])], 2),
        "model load failed: model has no state input; this loader handles streaming models that \
         carry recurrent state (e.g. DeepFilterNet3 exports)"
    );
    let odd = ModelInput {
        name: "h".to_string(),
        dims: None,
    };
    assert_eq!(
        refused(vec![tensor("x", &[480]), odd], 2),
        "model load failed: could not determine the size of state input 'h'"
    );
}

#[test]
fn a_state_of_no_declared_size_is_refused_at_load() {
    for dims in [&[-1][..], &[-1, 0], &[-1, -1, -1]] {
        let inputs = vec![tensor("frame", &[480]), tensor("states", dims)];
        assert_eq!(declared_len(&inputs, "states"), None);
        assert_eq!(
            refused(inputs, 2),
            "model load failed: could not determine the size of state input 'states'"
        );
    }
    let some = vec![tensor("s", &[-1, 7])];
    assert_eq!(declared_len(&some, "s"), Some(7));
}

#[test]
fn a_refused_state_leaves_the_last_good_one() {
    let mut d = contract_model();
    d.take_states(&[1.0, 2.0, 3.0, 4.0]).unwrap();
    assert!(d.take_states(&[9.0; 5]).is_err());
    assert_eq!(d.states(), &vec![1.0, 2.0, 3.0, 4.0]);
    d.take_states(&[5.0; 4]).unwrap();
    assert_eq!(d.states(), &vec![5.0; 4]);
}

#[test]
fn inputs_are_found_by_name_and_then_by_place() {
    let inputs = vec![
        tensor("Old_STATE", &[2, -1, 3]),
        tensor("Input_Frame", &[480]),
    ];
    assert_eq!(find_input(&inputs, "frame", 0).as_deref(), Some("Input_Frame"));
    assert_eq!(find_input(&inputs, "state", 1).as_deref(), Some("Old_STATE"));
    assert_eq!(find_input(&inputs, "atten", 1).as_deref(), Some("Input_Frame"));
    assert_eq!(find_input(&inputs, "atten", 2), None);
    assert_eq!(declared_len(&inputs, "Old_STATE"), Some(6));
    assert_eq!(declared_len(&inputs, "old_state"), None);
    assert_eq!(declared_len(&vec![tensor("s", &[])], "s"), Some(1));
    let model = match OnnxDenoiser::load(None, &inputs, 3, 0.0f32) {
        Ok(model) => model,
        Err(e) => panic!("{}", e.text()),
    };
    assert_eq!(model.label(), "onnx-model");
    assert_eq!(model.atten_input(), None);
}

#[test]
fn outputs_of_the_wrong_size_are_refused() {
    let mut d = contract_model();
    let mut frame = [0.5f32; FRAME_SAMPLES];
    let err = d.take_audio(&mut frame, &[1.0; 479]).unwrap_err();
    assert_eq!(
        err.text(),
        "inference failed: expected 480 output samples, got 479"
    );
    assert_eq!(frame[0], 0.5, "the frame is untouched");
    let err = d.take_states(&[1.0; 3]).unwrap_err();
    assert_eq!(
        err.text(),
        "inference failed: model returned 3 state values, expected 4"
    );
    assert_eq!(d.states(), &vec![0.0; 4], "the state is untouched");
}

#[test]
fn the_audio_is_taken_in_before_the_state() {
    let mut d = contract_model();
    let mut frame = [0.5f32; FRAME_SAMPLES];
    let audio = [0.75f32; FRAME_SAMPLES];

    let err = d.take_outputs(&mut frame, &[1.0; 479], Ok(&[1.0; 4])).unwrap_err();
    assert_eq!(
        err.text(),
        "inference failed: expected 480 output samples, got 479"
    );
    assert_eq!((frame[0], d.states()), (0.5, &vec![0.0; 4]), "nothing changed");

    d.take_outputs(&mut frame, &audio, Ok(&[1.0; 4])).unwrap();
    assert_eq!((frame, d.states()), (audio, &vec![1.0; 4]));

    // A state that is refused or cannot be read comes too late for the audio.
    let mut frame = [0.5f32; FRAME_SAMPLES];
    let err = d.take_outputs(&mut frame, &audio, Ok(&[2.0; 3])).unwrap_err();
    assert_eq!(
        err.text(),
        "inference failed: model returned 3 state values, expected 4"
    );
    assert_eq!((frame, d.states()), (audio, &vec![1.0; 4]));
    let mut frame = [0.5f32; FRAME_SAMPLES];
    let unread = DspError::Inference("new states output: no".to_string());
    let err = d.take_outputs(&mut frame, &audio, Err(unread)).unwrap_err();
    assert_eq!(err.text(), "inference failed: new states output: no");
    assert_eq!((frame, d.states()), (audio, &vec![1.0; 4]));
}

#[test]
fn only_the_states_own_size_matters() {
    let vast = [1 << 40, 1 << 40];
    let inputs = |state: &[i64]| vec![tensor("frame", &vast), tensor("state", state)];
    assert!(state_size_fits(&inputs(&[4])));
    assert!(state_size_fits(&inputs(&[-1])));
    assert!(!state_size_fits(&inputs(&vast)));
    assert!(!state_size_fits(&inputs(&[i64::MAX, 2])));
    assert!(state_size_fits(&vec![tensor("x", &vast)]), "no state at all");
    assert!(OnnxDenoiser::load(None, &inputs(&[4]), 2, 0.0f32).is_ok());
}

const S: u64 = 1_000_000_000;

#[test]
fn a_gap_is_reported_once_and_its_end_too() {
    let mut host = DenoiserHost::new(Doubler { calls: 0 });
    let mut watch = GapWatch::new(0);
    let mut idle = |at: u64| match dsp_step::<f32, Doubler>(&mut host, &mut watch, None, at) {
        (None, DspTurn::Idle { report_gap_ns }) => report_gap_ns,
        other => panic!("{:?}", other.1),
    };
    assert_eq!(idle(2 * S), None);
    assert_eq!(idle(2 * S + 1), Some(2 * S + 1));
    assert_eq!(idle(9 * S), None, "already reported");
    let frame = [0.5f32; FRAME_SAMPLES];
    match dsp_step(&mut host, &mut watch, Some(frame), 10 * S) {
        (Some(cleaned), DspTurn::Processed { resumed, outcome, dropped }) => {
            assert!(resumed && outcome.is_ok() && !dropped);
            assert_eq!(cleaned[0], 1.0);
        }
        other => panic!("{:?}", other.1),
    }
    assert_eq!(watch, GapWatch::new(10 * S));
}

#[test]
fn frames_go_through_the_rings_in_order_and_a_full_one_drops() {
    let (mut capture, mut from) = frame_ring::<Frame<f32>>();
    let (mut to, mut render) = frame_ring::<Frame<f32>>();
    let mut host = DenoiserHost::new(Doubler { calls: 0 });
    let mut watch = GapWatch::new(0);

    for i in 0..RING_FRAMES {
        assert!(capture.push([i as f32; FRAME_SAMPLES]).is_ok());
    }
    let back = capture.push([99.0; FRAME_SAMPLES]).unwrap_err();
    assert_eq!(back[0], 99.0, "a full ring hands the frame back");

    for _ in 0..RING_FRAMES {
        match dsp_turn(&mut host, &mut watch, &mut from, &mut to, S) {
            DspTurn::Processed { dropped, .. } => assert!(!dropped),
            other => panic!("{other:?}"),
        }
    }
    assert!(matches!(
        dsp_turn(&mut host, &mut watch, &mut from, &mut to, S),
        DspTurn::Idle { report_gap_ns: None }
    ));
    assert!(capture.push([7.0; FRAME_SAMPLES]).is_ok());
    assert!(matches!(
        dsp_turn(&mut host, &mut watch, &mut from, &mut to, S),
        DspTurn::Processed { dropped: true, .. }
    ));
    for i in 0..RING_FRAMES {
        assert_eq!(render.pop().unwrap()[0], 2.0 * i as f32);
    }
    assert!(render.pop().is_none());
    assert_eq!(host.stats().frames, RING_FRAMES as u64 + 1);
}

#[test]
fn underruns_do_not_flood_the_log() {
    let mut log = UnderrunLog::new();
    assert!(log.on_underrun(0));
    assert!(!log.on_underrun(5 * S));
    assert!(log.on_underrun(5 * S + 1));
    assert!(!log.on_underrun(6 * S));
}
