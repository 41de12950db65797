//! The tray: icon, menu, clicks and the watch over the stream.
use noisegate::config::Config;
use noisegate::devices::{device_entry, Device, DeviceDirection};
use noisegate::icon::{icon_rgba, ACTIVE, BYPASSED, ICON_SIZE};
use noisegate::tray::{
    audio_is_broken, auto_start_changed, auto_start_failure, build_menu, denoiser_marks,
    initial_tooltip, mic_label, mic_marks, on_event, restart_failure, set_enabled, tooltip,
    tooltip_is_due, tooltip_kind, Command, Health, MenuLine, TooltipKind, TrayAction, TrayEvent,
    CABLE_DOWNLOAD_URL,
};

#[test]
fn the_cable_link_points_at_the_vendor_over_https() {
    // A typo here sends users somewhere arbitrary to download a kernel
    // driver, so pin the expectation.
    assert_eq!(CABLE_DOWNLOAD_URL, "https://vb-audio.com/Cable/");
    assert!(CABLE_DOWNLOAD_URL.starts_with("https://"));
}

#[test]
fn system_default_mic_is_marked_in_the_label() {
    assert_eq!(mic_label("Yeti", false), "Yeti");
    assert!(mic_label("Yeti", true).starts_with("Yeti"));
    assert!(mic_label("Yeti", true).contains("system default"));
}

fn count(px: &[u8], colour: [u8; 4]) -> usize {
    px.chunks(4).filter(|p| *p == colour).count()
}

#[test]
fn every_icon_is_the_size_tray_icon_expects() {
    for enabled in [false, true] {
        for warning in [false, true] {
            assert_eq!(
                icon_rgba(enabled, warning).len(),
                ICON_SIZE * ICON_SIZE * 4
            );
        }
    }
}

#[test]
fn on_and_off_are_different_colours_not_just_different_brightness() {
    let on = icon_rgba(true, false);
    let off = icon_rgba(false, false);
    assert_ne!(on, off);
    assert!(count(&on, ACTIVE) > 400 && count(&on, BYPASSED) == 0);
    assert!(count(&off, BYPASSED) > 400 && count(&off, ACTIVE) == 0);

    // Hue must actually differ: at tray size a brightness-only change is
    // invisible. Teal is green-dominant, the bypass colour red-dominant.
    assert!(ACTIVE[1] > ACTIVE[0], "active should be green-dominant");
    assert!(BYPASSED[0] > BYPASSED[1], "bypassed should be red-dominant");
}

#[test]
fn the_warning_badge_is_visible_in_both_toggle_states() {
    const AMBER: [u8; 4] = [0xf5, 0xa6, 0x23, 0xff];
    for enabled in [false, true] {
        let ok = icon_rgba(enabled, false);
        let bad = icon_rgba(enabled, true);
        assert_ne!(ok, bad, "error state must look different");
        assert!(
            count(&bad, AMBER) > 20,
            "badge too small to see: {} px",
            count(&bad, AMBER)
        );
        assert_eq!(count(&ok, AMBER), 0);
    }
}

#[test]
fn the_badge_sits_in_the_corner_not_over_the_whole_icon() {
    let bad = icon_rgba(true, true);
    // Top-left must stay the plain disc colour, so the icon is still
    // recognisable and the on/off hue still readable.
    let i = (8 * ICON_SIZE + 12) * 4;
    assert_eq!(&bad[i..i + 4], &ACTIVE);
}

/// The badge is the same pixels that scaling in floating point gives.
#[test]
fn the_badge_matches_its_floating_point_outline() {
    fn in_triangle(x: usize, y: usize, top: usize, bottom: usize, cx: usize, half: f32) -> bool {
        if y < top || y > bottom {
            return false;
        }
        let t = (y - top) as f32 / (bottom - top) as f32;
        (x as f32 - cx as f32).abs() <= t * half
    }
    let plain = icon_rgba(true, false);
    let bad = icon_rgba(true, true);
    for y in 0..ICON_SIZE {
        for x in 0..ICON_SIZE {
            let i = (y * ICON_SIZE + x) * 4;
            let mark = (x == 22 || x == 23) && ((20..=25).contains(&y) || (27..=28).contains(&y));
            let expected: &[u8] = if mark {
                &[0x1c, 0x1c, 0x1c, 0xff]
            } else if in_triangle(x, y, 17, 29, 23, 6.0) {
                &[0xf5, 0xa6, 0x23, 0xff]
            } else if in_triangle(x, y, 14, 31, 23, 9.0) {
                &[0x1c, 0x1c, 0x1c, 0xff]
            } else {
                &plain[i..i + 4]
            };
            assert_eq!(&bad[i..i + 4], expected, "pixel {x},{y}");
        }
    }
}

const S: u64 = 1_000_000_000;

#[test]
fn a_stream_that_stops_is_badged_and_restarted_without_hammering() {
    let mut health = Health::new(0);
    assert!(!health.check(Some(10), S).refresh_icon, "frames moved");
    assert!(!health.check(Some(10), 2 * S).restart);

    // Two seconds without a frame, but less than five since the start.
    let report = health.check(Some(10), 3 * S);
    assert_eq!(report.stalled_for_ns, Some(2 * S));
    assert!(report.refresh_icon && !report.restart && !report.recovered);
    assert!(health.stalled);

    let report = health.check(Some(10), 5 * S);
    assert!(report.restart && report.stalled_for_ns.is_none());
    for late in 6..10 {
        assert!(!health.check(Some(10), late * S).restart, "{late}");
    }
    assert!(health.check(Some(10), 10 * S).restart);

    health.restarted(0, 10 * S);
    assert!(!health.stalled);
    assert!(!health.check(Some(0), 11 * S).refresh_icon);
}

#[test]
fn a_stream_that_comes_back_by_itself_clears_the_badge() {
    let mut health = Health::new(0);
    assert!(health.check(Some(0), 2 * S).stalled_for_ns.is_some());
    let report = health.check(Some(1), 3 * S);
    assert!(report.recovered && report.refresh_icon && !report.restart);
    assert!(!health.stalled);
    // Nothing that never stalled is started anew.
    let report = health.check(None, 60 * S);
    assert!(!report.restart && !report.refresh_icon);
    assert!(audio_is_broken(false, false) && audio_is_broken(true, true));
    assert!(!audio_is_broken(true, false));
}

#[test]
fn a_failed_restart_is_tried_again() {
    let mut health = Health::new(0);
    assert!(health.check(Some(0), 5 * S).restart);
    // It failed: no pipeline is left.
    for late in 6..10 {
        let report = health.check(None, late * S);
        assert!(!report.restart && !report.refresh_icon, "{late}");
    }
    let report = health.check(None, 10 * S);
    assert!(report.restart && !report.recovered && report.stalled_for_ns.is_none());
    assert_eq!(health.last_recovery_ns, 10 * S);
    assert!(!health.check(None, 15 * S - 1).restart);
    assert!(health.check(None, 15 * S).restart);
    health.restarted(0, 15 * S);
    assert!(!health.check(None, 60 * S).restart, "it worked");
}

fn mic(id: &str, name: &str, default_id: &str) -> Device {
    device_entry(
        id.to_string(),
        Some(name.to_string()),
        default_id,
        DeviceDirection::Capture,
    )
}

fn describe(lines: &[MenuLine]) -> Vec<String> {
    lines
        .iter()
        .map(|line| match line {
            MenuLine::Check { label, checked, .. } => {
                format!("[{}] {label}", if *checked { 'x' } else { ' ' })
            }
            MenuLine::Item { label, .. } => label.clone(),
            MenuLine::Note { label } => label.clone(),
            MenuLine::Separator => "--".to_string(),
            MenuLine::Microphones => "Microphone >".to_string(),
            MenuLine::Denoisers => "Denoiser >".to_string(),
        })
        .collect()
}

#[test]
fn the_menu_shows_the_settings() {
    let mut cfg = Config::default();
    cfg.microphones = vec!["Unplugged".to_string(), "Yeti".to_string()];
    let devices = vec![mic("{1}", "Yeti", "{2}"), mic("{2}", "Realtek", "{2}")];
    let menu = build_menu(
        &cfg,
        Some(&devices),
        true,
        Some("model.onnx"),
        true,
        false,
    );
    assert_eq!(
        describe(&menu.lines),
        [
            "[x] Enabled",
            "--",
            "Microphone >",
            "Denoiser >",
            "--",
            "[ ] Start with Windows",
            "Open log folder",
            "--",
            "Quit NoiseGate",
        ]
    );
    assert_eq!(
        describe(&menu.microphones),
        [
            "[ ] Windows default",
            "--",
            "[x] Yeti",
            "[ ] Realtek  (system default)",
        ]
    );
    assert_eq!(
        describe(&menu.denoisers),
        ["[ ] RNNoise (built-in)", "[x] model.onnx (ONNX)"]
    );
    match &menu.microphones[2] {
        MenuLine::Check {
            command: Command::SelectMic { device_id, name },
            ..
        } => assert_eq!((device_id.as_str(), name.as_str()), ("{1}", "Yeti")),
        other => panic!("{other:?}"),
    }
}

#[test]
fn the_menu_explains_what_is_missing() {
    let cfg = Config::default();
    let menu = build_menu(&cfg, None, true, None, false, true);
    assert_eq!(
        describe(&menu.microphones),
        ["[x] Windows default", "(no microphones found)"]
    );
    assert_eq!(
        describe(&menu.denoisers),
        ["[x] RNNoise (built-in)", "(no model.onnx found)"]
    );
    let none = Vec::new();
    let menu = build_menu(&cfg, Some(&none), false, Some("model.onnx"), false, true);
    assert_eq!(describe(&menu.microphones), ["[x] Windows default"]);
    assert_eq!(
        describe(&menu.denoisers),
        ["[x] RNNoise (built-in)", "(built without --features onnx)"]
    );
}

#[test]
fn choosing_leaves_exactly_one_mark() {
    let ids = vec!["".to_string(), "{1}".to_string(), "{2}".to_string()];
    assert_eq!(mic_marks(&ids, "{1}"), [false, true, false]);
    assert_eq!(mic_marks(&ids, ""), [true, false, false]);
    assert_eq!(denoiser_marks(&vec![false, true], true), [false, true]);
    assert_eq!(denoiser_marks(&vec![false, true], false), [true, false]);
}

#[test]
fn clicks_do_what_they_say() {
    assert!(matches!(
        on_event(TrayEvent::LeftClick, true),
        TrayAction::SetEnabled(false)
    ));
    assert!(matches!(
        on_event(TrayEvent::LeftClick, false),
        TrayAction::SetEnabled(true)
    ));
    assert!(matches!(
        on_event(TrayEvent::Other, true),
        TrayAction::Nothing
    ));
    let chosen = |command, checked| on_event(TrayEvent::Chosen { command, checked }, true);
    assert!(matches!(
        chosen(Command::Toggle, false),
        TrayAction::SetEnabled(false)
    ));
    assert!(matches!(
        chosen(Command::AutoStart, true),
        TrayAction::SetAutoStart(true)
    ));
    assert!(matches!(
        chosen(Command::OpenLogs, false),
        TrayAction::OpenLogs
    ));
    assert!(matches!(chosen(Command::Quit, false), TrayAction::Quit));
    assert!(matches!(
        chosen(Command::SelectDenoiser { onnx: true }, true),
        TrayAction::SelectDenoiser { onnx: true }
    ));
    match chosen(
        Command::SelectMic {
            device_id: "{1}".to_string(),
            name: "Yeti".to_string(),
        },
        true,
    ) {
        TrayAction::SelectMic { device_id, name } => {
            assert_eq!((device_id.as_str(), name.as_str()), ("{1}", "Yeti"))
        }
        other => panic!("{other:?}"),
    }
}

#[test]
fn every_surface_agrees_after_a_toggle() {
    let mut cfg = Config::default();
    assert!(set_enabled(&mut cfg, true, false), "a click skipped the menu");
    assert!(!cfg.enabled);
    assert!(!set_enabled(&mut cfg, true, true), "the menu is in step");
    assert!(cfg.enabled);

    assert!(auto_start_changed(&mut cfg, true, true));
    assert!(cfg.auto_start);
    assert!(auto_start_changed(&mut cfg, false, false), "still on");
    assert!(cfg.auto_start, "the registry was not changed");
    assert_eq!(
        auto_start_failure("denied"),
        "Could not change start-with-Windows:\n\ndenied"
    );
    assert_eq!(
        restart_failure("gone"),
        "Could not start audio with that device:\n\ngone"
    );
}

#[test]
fn the_tooltip_tells_running_from_dead_from_stopped() {
    assert_eq!(tooltip_kind(false, true), TooltipKind::Stopped);
    assert_eq!(tooltip_kind(true, true), TooltipKind::NoAudio);
    assert_eq!(
        tooltip(tooltip_kind(true, false), "RNNoise", true, "2.5", "1.0"),
        "NoiseGate (RNNoise)\nON  |  CPU: 2.5%  peak: 1.0ms"
    );
    assert_eq!(
        tooltip(TooltipKind::Running, "RNNoise", false, "0.0", "0.0"),
        "NoiseGate (RNNoise)\nBYPASS  |  CPU: 0.0%  peak: 0.0ms"
    );
    assert_eq!(
        tooltip(TooltipKind::NoAudio, "", true, "", ""),
        "NoiseGate — no audio from the microphone"
    );
    assert_eq!(
        tooltip(TooltipKind::Stopped, "", true, "", ""),
        "NoiseGate — stopped (pick a microphone)"
    );
    assert_eq!(
        initial_tooltip(Some("RNNoise")),
        "NoiseGate (RNNoise) — starting"
    );
    assert_eq!(initial_tooltip(None), "NoiseGate — stopped");
    assert!(!tooltip_is_due(S, S + S - 1) && tooltip_is_due(S, 2 * S));
}
