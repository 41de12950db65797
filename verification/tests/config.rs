//! Settings, devices and the route that follows from them.
use noisegate::config::{default_atten, default_true, Config};
use noisegate::devices::{
    capture_endpoint, device_entry, list_devices, log_input_devices, render_endpoint,
    resolve_mic_by_substring, Device, DeviceDirection, Endpoint,
};
use noisegate::error::AudioError;
use noisegate::paths::PathStyle;
use noisegate::pipeline::{is_missing_cable, microphone_missing_text, plan_route};

#[test]
fn preferring_a_microphone_moves_it_to_the_front() {
    let mut c = Config::default();
    c.prefer_microphone("A");
    c.prefer_microphone("B");
    assert_eq!(c.microphones, vec!["B", "A"]);

    // Choosing an existing one promotes rather than duplicates.
    c.prefer_microphone("A");
    assert_eq!(c.microphones, vec!["A", "B"]);
    c.prefer_microphone("A");
    assert_eq!(c.microphones, vec!["A", "B"]);
}

#[test]
fn the_remembered_list_does_not_grow_without_bound() {
    let mut c = Config::default();
    for i in 0..12 {
        c.prefer_microphone(&format!("mic {i}"));
    }
    assert_eq!(c.microphones.len(), 5);
    assert_eq!(c.microphones[0], "mic 11", "most recent first");
}

#[test]
fn a_legacy_single_choice_becomes_the_first_preference() {
    let text = r#"
            input_device = "Microphone (fifine Microphone)"
            enabled = true
        "#;
    let table: toml::Table = text.parse().unwrap();
    let mut cfg = Config {
        input_device: table["input_device"].as_str().unwrap().to_string(),
        enabled: table["enabled"].as_bool().unwrap(),
        ..Config::default()
    };
    assert!(cfg.microphones.is_empty(), "not migrated until load() runs");
    cfg.fold_legacy();
    assert_eq!(cfg.microphones, vec!["Microphone (fifine Microphone)"]);
    assert_eq!(cfg.input_device, "");

    // Once there are preferences, nothing is folded in.
    cfg.input_device = "Yeti".to_string();
    cfg.fold_legacy();
    assert_eq!(cfg.microphones, vec!["Microphone (fifine Microphone)"]);
    assert_eq!(cfg.input_device, "Yeti");
}

#[test]
fn an_onnx_model_is_only_active_when_switched_on() {
    let mut c = Config {
        model_path: "nonexistent.onnx".into(),
        use_onnx: false,
        ..Config::default()
    };
    let exists = std::path::Path::new("nonexistent.onnx").exists();
    let style = PathStyle::Windows;
    assert!(c.active_model(style, &None, exists).is_none(), "off means off");
    // With use_onnx on, a path that does not exist still yields nothing,
    // so the pipeline falls back to RNNoise rather than failing.
    c.use_onnx = true;
    assert!(c.active_model(style, &None, exists).is_none());
    assert_eq!(
        c.active_model(style, &None, true).as_deref(),
        Some("nonexistent.onnx".as_bytes())
    );
}

#[test]
fn a_model_beside_the_executable_needs_no_configuring() {
    let c = Config::default();
    let style = PathStyle::Windows;
    let exe = Some(r"C:\NoiseGate".as_bytes().to_vec());
    assert_eq!(
        c.model_candidate(style, &exe).as_deref(),
        Some(r"C:\NoiseGate\model.onnx".as_bytes())
    );
    assert_eq!(
        c.available_model(style, &exe, true).as_deref(),
        Some(r"C:\NoiseGate\model.onnx".as_bytes())
    );
    assert_eq!(c.available_model(style, &exe, false), None);
    assert_eq!(c.model_candidate(style, &None), None);
    let unix = Some("/opt/noisegate".as_bytes().to_vec());
    assert_eq!(
        c.model_candidate(PathStyle::Unix, &unix).as_deref(),
        Some("/opt/noisegate/model.onnx".as_bytes())
    );
}

#[test]
fn the_best_microphone_that_is_there_is_used() {
    let mut c = Config::default();
    c.prefer_microphone("Realtek");
    c.prefer_microphone("Yeti");
    let both = vec!["Realtek".to_string(), "Yeti".to_string()];
    assert_eq!(c.wanted_microphone(&both), "Yeti");
    assert_eq!(c.wanted_microphone(&vec!["Realtek".to_string()]), "Realtek");
    assert_eq!(c.wanted_microphone(&vec![]), "", "Windows' default");
    c.input_device = "Old".to_string();
    assert_eq!(c.wanted_microphone(&both), "Yeti", "preferences come first");

    c.choose_microphone("Realtek");
    assert_eq!(c.wanted_microphone(&both), "Realtek");
    assert_eq!(c.microphones, vec!["Realtek", "Yeti"]);
    c.choose_microphone("");
    assert_eq!(c.wanted_microphone(&both), "", "follow the default again");
    c.input_device = "Old".to_string();
    assert_eq!(c.wanted_microphone(&both), "Old", "nothing else is preferred");
    c.prefer_microphone("Yeti");
    assert_eq!(c.wanted_microphone(&both), "Yeti", "an override is not ignored");
}

#[test]
fn flipping_back_to_a_model_needs_no_configuring() {
    let mut c = Config::default();
    c.choose_denoiser(true, &Some(r"C:\m.onnx".to_string()));
    assert_eq!((c.use_onnx, c.model_path.as_str()), (true, r"C:\m.onnx"));
    c.choose_denoiser(false, &Some("other".to_string()));
    assert_eq!((c.use_onnx, c.model_path.as_str()), (false, r"C:\m.onnx"));
    c.choose_denoiser(true, &None);
    assert_eq!((c.use_onnx, c.model_path.as_str()), (true, r"C:\m.onnx"));
    assert!(default_true());
    assert_eq!(f32::from_bits(default_atten()), 100.0);
    assert_eq!(f32::from_bits(Config::default().attenuation_bits), 100.0);
}

fn device(id: &str, name: Option<&str>, direction: DeviceDirection) -> Device {
    device_entry(
        id.to_string(),
        name.map(|n| n.to_string()),
        "{1}",
        direction,
    )
}

fn mic(id: &str, name: &str) -> Device {
    device(id, Some(name), DeviceDirection::Capture)
}

#[test]
fn a_device_without_a_name_goes_by_its_id() {
    let d = device("{9}", None, DeviceDirection::Render);
    assert_eq!((d.friendly_name.as_str(), d.is_default), ("{9}", false));
    let d = mic("{1}", "Yeti");
    assert!(d.is_default);
    let again = d.copy();
    assert_eq!((again.id, again.friendly_name), (d.id, d.friendly_name));
    assert_eq!(capture_endpoint(""), Endpoint::SystemDefault);
    assert_eq!(capture_endpoint("default"), Endpoint::SystemDefault);
    assert_eq!(capture_endpoint("{1}"), Endpoint::ById);
    assert_eq!(render_endpoint(""), Endpoint::SystemDefault);
    assert_eq!(render_endpoint("default"), Endpoint::ById);
}

#[test]
fn a_substring_has_to_single_out_one_microphone() {
    let mics = vec![
        mic("{1}", "Yeti Nano"),
        mic("{2}", "Realtek Audio"),
        mic("{3}", "Yeti Pro"),
    ];
    assert_eq!(
        resolve_mic_by_substring(&mics, "REALTEK"),
        Ok("Realtek Audio".to_string())
    );
    assert_eq!(
        resolve_mic_by_substring(&mics, "USB"),
        Err("no capture device matched".to_string())
    );
    assert_eq!(
        resolve_mic_by_substring(&mics, "yeti"),
        Err(
            "ambiguous: 2 devices matched (Yeti Nano, Yeti Pro). Refine the substring.".to_string()
        )
    );
    assert_eq!(
        log_input_devices(&mics),
        [
            "input device available (default)",
            "input device available",
            "input device available"
        ]
    );
}

#[test]
fn the_listing_marks_defaults_and_cables() {
    let mics = vec![mic("{1}", "Yeti")];
    let cable = device(
        "{2}",
        Some("CABLE Input (VB-Audio Virtual Cable)"),
        DeviceDirection::Render,
    );
    let speakers = device("{3}", Some("Speakers"), DeviceDirection::Render);
    assert_eq!(
        list_devices(
            &mics,
            &vec![(cable, Some("VB-Cable".to_string())), (speakers, None)]
        ),
        "Capture (input) devices:\n  - Yeti [default]\n    id: {1}\n\nRender (output) devices:\n  \
         - CABLE Input (VB-Audio Virtual Cable)  [VB-Cable]\n    id: {2}\n  - Speakers\n    id: \
         {3}\n"
    );
}

#[test]
fn routing_fails_closed() {
    let known = vec!["VB-Cable".to_string(), "VoiceMeeter".to_string()];
    let out = || device("{2}", Some("CABLE Input"), DeviceDirection::Render);

    let route = plan_route("", Some((mic("{1}", "Yeti"), None)), Ok(out()), &known).unwrap();
    assert_eq!((route.input.id.as_str(), route.output.id.as_str()), ("{1}", "{2}"));

    let failure = plan_route("", None, Ok(out()), &known).unwrap_err();
    assert_eq!(failure.message, "no microphone is available");

    let failure = plan_route("Ye\"ti", None, Ok(out()), &known).unwrap_err();
    assert_eq!(
        failure.message,
        "microphone \"Ye\\\"ti\" is not available (unplugged?). Pick one from the tray menu"
    );
    assert_eq!(failure.message, microphone_missing_text("\"Ye\\\"ti\""));

    let failure = plan_route(
        "",
        Some((mic("{1}", "CABLE Output"), Some("VB-Cable".to_string()))),
        Ok(out()),
        &known,
    )
    .unwrap_err();
    assert_eq!(
        failure.message,
        "the selected microphone is VB-Cable's own output, which is where NoiseGate sends audio — \
         routing it back in would loop. Pick a real microphone from the tray menu"
    );
    assert!(!is_missing_cable(&failure));

    let failure = plan_route(
        "",
        Some((mic("{1}", "Yeti"), None)),
        Err(AudioError::VirtualCableMissing),
        &known,
    )
    .unwrap_err();
    assert_eq!(
        failure.message,
        "no virtual audio cable is installed (looked for VB-Cable, VoiceMeeter). Cleaned audio \
         needs one so other apps can hear it as a microphone. Install VB-Cable, or name one in \
         output_device"
    );
    assert!(is_missing_cable(&failure));
}
