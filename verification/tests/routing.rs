//! Which devices a run uses, and what is said when it cannot start.
use noisegate::config::Config;
use noisegate::denoiser::check_hop_size;
use noisegate::devices::{
    device_entry, device_names, known_cable_products, resolve_capture, resolve_render,
    same_device_name, Device, DeviceDirection,
};
use noisegate::error::{stream_opened, AudioError};
use noisegate::offline::{check_captured, no_microphone, no_microphone_text, CAPTURED_NOTHING};
use noisegate::pipeline::{is_missing_cable, route_for, StartFailure};
use noisegate::render::writable_frames;
use noisegate::ring::{frame_ring, RING_FRAMES};
use noisegate::Frame;

fn device(name: &str, direction: DeviceDirection) -> Device {
    device_entry(
        format!("id of {name}"),
        Some(name.to_string()),
        "id of Realtek",
        direction,
    )
}

fn mics(names: &[&str]) -> Vec<Device> {
    names
        .iter()
        .map(|n| device(n, DeviceDirection::Capture))
        .collect()
}

fn outputs(names: &[&str]) -> Vec<Device> {
    names
        .iter()
        .map(|n| device(n, DeviceDirection::Render))
        .collect()
}

#[test]
fn cables_are_recognised_by_the_end_they_show() {
    let input = device(
        "CABLE Input (VB-Audio Virtual Cable)",
        DeviceDirection::Render,
    );
    assert_eq!(input.virtual_cable(), Some("VB-Cable"));
    let output = device(
        "CABLE Output (VB-Audio Virtual Cable)",
        DeviceDirection::Capture,
    );
    assert_eq!(output.virtual_cable(), Some("VB-Cable"));
    let wrong_end = device("CABLE Output", DeviceDirection::Render);
    assert_eq!(wrong_end.virtual_cable(), None);
    assert_eq!(
        device("VoiceMeeter Input", DeviceDirection::Render).virtual_cable(),
        Some("VoiceMeeter")
    );
    assert_eq!(
        device("Line 1 (Virtual Audio Cable)", DeviceDirection::Capture).virtual_cable(),
        Some("Virtual Audio Cable")
    );
    assert_eq!(
        device("Speakers", DeviceDirection::Render).virtual_cable(),
        None
    );
    assert_eq!(known_cable_products().len(), 3);
}

#[test]
fn a_lookalike_is_no_cable() {
    for name in [
        "CABLE In 16ch (VB-Audio Virtual Cable)",
        "My CABLE Input",
        "Virtual Audio Cable tester",
        "Speakers (USB Cable)",
    ] {
        assert_eq!(
            device(name, DeviceDirection::Render).virtual_cable(),
            None,
            "{name}"
        );
    }
}

#[test]
fn a_replugged_device_is_the_same_device() {
    let before = "Microphone (4- fifine Microphone)";
    let after = "Microphone (12- fifine Microphone)";
    let plain = "Microphone (fifine Microphone)";
    assert!(same_device_name(before, after));
    assert!(same_device_name(before, plain));
    assert!(same_device_name("4- fifine", "fifine"));
    assert!(!same_device_name(before, "Microphone (Yeti)"));
    assert!(!same_device_name("Line (4-x)", "Line (x)"), "no number");
    assert!(!same_device_name("Line (- x)", "Line (x)"), "no digits");

    // Exactly the name first, and only then one that was replugged.
    let list = mics(&[plain, after]);
    assert_eq!(resolve_capture(&list, after), Some(1));
    assert_eq!(resolve_capture(&list, before), Some(0));

    let mut cfg = Config::default();
    cfg.choose_microphone(before);
    let route = route_for(
        &cfg,
        &mics(&["Realtek", after]),
        &outputs(&["CABLE Input"]),
    )
    .unwrap();
    assert_eq!(route.input.friendly_name, after);
}

#[test]
fn names_resolve_to_the_first_device_that_has_them() {
    let list = mics(&["Yeti", "Realtek", "Yeti"]);
    assert_eq!(device_names(&list), ["Yeti", "Realtek", "Yeti"]);
    assert_eq!(resolve_capture(&list, "Yeti"), Some(0));
    assert_eq!(resolve_capture(&list, ""), Some(1), "the default");
    assert_eq!(resolve_capture(&list, "yeti"), None);

    let list = outputs(&["Realtek", "CABLE Input", "Speakers"]);
    assert_eq!(resolve_render(&list, ""), Some(1), "never the default");
    assert_eq!(resolve_render(&list, "Speakers"), Some(2));
    assert_eq!(resolve_render(&list, "Headset"), None);
}

#[test]
fn the_settings_lead_to_a_microphone_and_a_cable() {
    let mut cfg = Config::default();
    cfg.choose_microphone("Realtek");
    cfg.choose_microphone("Yeti");
    let render = outputs(&["Speakers", "CABLE Input"]);

    let route = route_for(&cfg, &mics(&["Realtek", "Yeti"]), &render).unwrap();
    assert_eq!(route.input.id, "id of Yeti");
    assert_eq!(route.output.id, "id of CABLE Input");

    // Unplugged: the next preference takes over, then the default.
    let route = route_for(&cfg, &mics(&["Realtek", "Webcam"]), &render).unwrap();
    assert_eq!(route.input.friendly_name, "Realtek");
    cfg.choose_microphone("");
    let route = route_for(&cfg, &mics(&["Webcam", "Realtek"]), &render).unwrap();
    assert_eq!(route.input.friendly_name, "Realtek");

    cfg.output_device = "Speakers".to_string();
    let route = route_for(&cfg, &mics(&["Realtek"]), &render).unwrap();
    assert_eq!(route.output.friendly_name, "Speakers");
}

#[test]
fn a_run_without_its_devices_does_not_start() {
    let mut cfg = Config::default();
    let failure = route_for(&cfg, &mics(&["Webcam"]), &outputs(&["CABLE Input"])).unwrap_err();
    assert_eq!(failure.message, "no microphone is available");
    assert!(failure.cause.is_none());
    assert_eq!(failure.details(), failure.message);

    cfg.input_device = "Old".to_string();
    let failure = route_for(&cfg, &mics(&["Realtek"]), &outputs(&["CABLE Input"])).unwrap_err();
    assert_eq!(
        failure.message,
        "microphone \"Old\" is not available (unplugged?). Pick one from the tray menu"
    );

    cfg.input_device = "CABLE Output".to_string();
    let failure =
        route_for(&cfg, &mics(&["CABLE Output"]), &outputs(&["CABLE Input"])).unwrap_err();
    assert!(failure
        .message
        .starts_with("the selected microphone is VB-Cable's own output"));
    assert!(!is_missing_cable(&failure));

    cfg.input_device = "Realtek".to_string();
    let failure = route_for(&cfg, &mics(&["Realtek"]), &outputs(&["Realtek"])).unwrap_err();
    assert!(is_missing_cable(&failure), "the default output is no way out");
    assert!(failure
        .message
        .contains("(looked for VB-Cable, VoiceMeeter, Virtual Audio Cable)"));
    assert!(failure.details().ends_with(": no virtual audio cable found"));
}

#[test]
fn failures_of_the_engine_say_what_failed() {
    let gone = AudioError::wasapi("GetBuffer", 0x8889_0004_u32 as i32, "gone".to_string());
    assert!(gone.is_recoverable());
    assert_eq!(gone.text(), "GetBuffer: the device went away");
    let other = AudioError::wasapi("Start", -1, "refused".to_string());
    assert!(!other.is_recoverable());
    assert_eq!(other.text(), "Start failed: refused");
    assert_eq!(
        AudioError::wasapi("Start", -1, String::new()).text(),
        "Start failed",
        "no dangling colon"
    );
    assert_eq!(
        AudioError::UnsupportedFormat("x".to_string()).text(),
        "unsupported device format: x"
    );
    assert_eq!(AudioError::Other("x".to_string()).text(), "x");
    let failure = StartFailure {
        message: "enumerating audio devices".to_string(),
        cause: Some(other),
    };
    assert_eq!(
        failure.details(),
        "enumerating audio devices: Start failed: refused"
    );
}

#[test]
fn a_stream_that_says_nothing_has_died() {
    assert!(stream_opened(Some(Ok(()))).is_ok());
    assert!(matches!(
        stream_opened(None),
        Err(AudioError::ThreadDied)
    ));
    let err = stream_opened(Some(Err(AudioError::Other("busy".to_string())))).unwrap_err();
    assert_eq!(err.text(), "busy");
    assert_eq!(
        AudioError::ThreadDied.text(),
        "the audio thread ended before it was ready"
    );
}

#[test]
fn a_model_with_other_blocks_is_refused() {
    assert!(check_hop_size(480).is_ok());
    assert_eq!(
        check_hop_size(960).unwrap_err().text(),
        "model load failed: model hop size is 960 but the pipeline works in 480-sample frames"
    );
}

#[test]
fn the_engine_takes_what_its_buffer_has_left() {
    assert_eq!(writable_frames(960, 480), 480);
    assert_eq!(writable_frames(960, 960), 0);
    assert_eq!(writable_frames(480, 960), 0, "padding never underflows");
}

#[test]
fn a_recording_needs_a_microphone_and_sound() {
    assert_eq!(check_captured(1), Ok(()));
    assert_eq!(check_captured(0), Err(CAPTURED_NOTHING));
    assert_eq!(no_microphone_text("\"Yeti\""), "no microphone matching \"Yeti\"");
    assert_eq!(no_microphone("a\tb"), "no microphone matching \"a\\tb\"");
}

#[test]
fn a_ring_has_room_for_eight_frames() {
    let (mut sender, _receiver) = frame_ring::<Frame<i32>>();
    assert_eq!(sender.room(), RING_FRAMES);
    for _ in 0..8 {
        assert!(sender.push([0; 480]).is_ok());
    }
    assert!(sender.push([0; 480]).is_err());
    assert_eq!(sender.room(), 8);
}
