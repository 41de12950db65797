//! Starting up: texts, paths, command line, console.
use noisegate::banner::{banner, enable_vt_processing, ASCII_ART};
use noisegate::cli::{parse_args_from, CliArgs, Mode, HELP};
use noisegate::console::{is_usable, next_action, ConsoleAction};
use noisegate::error::AudioError;
use noisegate::firstrun::{
    acquire, after_cable_choice, cable_missing, fatal_report, mic_override_failure, model_licence,
    model_licence_text, model_missing, on_start_failure, problem_dialog, AlreadyRunning,
    CableChoice, CableFollowUp, FatalReport, LockRequest, ProblemDialog, StartupOutcome,
    StartupProblem, CABLE_MISSING_TEXT, CABLE_URL, LOCK_NAME, MODEL_SOURCE_URL,
};
use noisegate::log_format::{GreenFormat, LogLevel};
use noisegate::paths::{
    config_path, config_path_in, dylib_path_to_pin, explorer_path, join, log_dir, log_dir_in,
    log_file, log_is_too_large, platform, PathStyle, MAX_LOG_BYTES,
};
use noisegate::pipeline::StartFailure;

#[test]
fn the_banner_fits_an_80_column_terminal() {
    for line in ASCII_ART.lines() {
        let width = line.chars().count();
        assert!(width <= 80, "{width} columns: {line}");
    }
}

#[test]
fn printing_the_banner_works_without_a_console() {
    let text = banner("0.1.0", "https://github.com/Yashsomalkar/noisegate");
    assert!(text.contains("v0.1.0  •  https://github.com/Yashsomalkar/noisegate\x1b[0m\n"));
    assert!(text.starts_with("\x1b[1;92m\n███╗"));
    assert_eq!(enable_vt_processing(3), 7);
    assert_eq!(enable_vt_processing(4), 4);
}

#[test]
fn links_point_where_we_say_they_do() {
    // A typo sends people somewhere arbitrary to download software.
    assert_eq!(CABLE_URL, "https://vb-audio.com/Cable/");
    assert!(MODEL_SOURCE_URL.starts_with("https://github.com/Rikorose/"));
    for url in [CABLE_URL, MODEL_SOURCE_URL] {
        assert!(url.starts_with("https://"), "{url} must be https");
    }
}

#[test]
fn closing_the_cable_dialog_ends_the_popup_loop() {
    assert_eq!(cable_missing(true), CableChoice::OpenSite);
    assert_eq!(cable_missing(false), CableChoice::Close);
    assert_eq!(
        after_cable_choice(CableChoice::OpenSite, true),
        CableFollowUp::OpenCablePage
    );
    assert_eq!(
        after_cable_choice(CableChoice::Close, true),
        CableFollowUp::TurnOffAutostart
    );
    assert_eq!(
        after_cable_choice(CableChoice::Close, false),
        CableFollowUp::Nothing
    );
    assert!(CABLE_MISSING_TEXT.ends_with(
        "It takes about two minutes to install and it's free.\n\n\
         Yes  —  open the VB-Cable download page\n\
         No   —  close NoiseGate for now\n\n\
         (Choosing No also stops NoiseGate starting with Windows, so you won't see \
         this message every time you switch on your PC.)"
    ));
}

#[test]
fn the_model_is_named_with_its_source() {
    assert!(model_licence(true) && !model_licence(false));
    assert_eq!(
        model_licence_text(),
        "The high-quality noise removal uses DeepFilterNet3, a speech model published by its \
         authors at:\n\n    https://github.com/Rikorose/DeepFilterNet\n\n\
         It is a separate work from NoiseGate, with its own licence terms. NoiseGate does not \
         include or redistribute it — you obtain it from the source above and accept those \
         terms yourself.\n\n\
         Yes  —  I accept the model's terms and want to use it\n\
         No   —  stay on the simpler built-in noise removal\n\n\
         You can change this later from the tray menu."
    );
    let text = model_missing("C:\\NoiseGate\\model.onnx");
    assert!(text.contains("save it as:\n\n    C:\\NoiseGate\\model.onnx\n\n"));
}

#[test]
fn only_a_missing_cable_ends_the_run() {
    let missing = StartFailure {
        message: "no cable".to_string(),
        cause: Some(AudioError::VirtualCableMissing),
    };
    assert!(matches!(
        on_start_failure(&missing, "no cable"),
        StartupOutcome::OfferCable
    ));
    let other = StartFailure {
        message: "no microphone is available".to_string(),
        cause: None,
    };
    match on_start_failure(&other, "no microphone is available") {
        StartupOutcome::ShowProblem(problem) => {
            assert_eq!(
                problem.message,
                "NoiseGate is running, but audio isn't:\n\nno microphone is available"
            );
            match problem_dialog(problem) {
                ProblemDialog::Tell(text) => assert!(text.starts_with("NoiseGate is running")),
                other => panic!("{other:?}"),
            }
        }
        other => panic!("{other:?}"),
    }
    let problem = StartupProblem {
        message: "No cable.".to_string(),
        missing_cable: true,
    };
    match problem_dialog(problem) {
        ProblemDialog::AskCablePage(text) => assert_eq!(
            text,
            "No cable.\n\nA virtual audio cable is what lets other apps hear the cleaned \
             microphone. Open the VB-Cable download page now?"
        ),
        other => panic!("{other:?}"),
    }
    assert_eq!(fatal_report(true), FatalReport::Console);
    assert_eq!(fatal_report(false), FatalReport::Dialog);
    assert_eq!(
        mic_override_failure("USB", "no capture device matched"),
        "--mic 'USB' did not match any input device: no capture device matched"
    );
}

#[test]
fn a_second_instance_bows_out_and_doubt_does_not() {
    assert_eq!(acquire(LockRequest::Created), Ok(true));
    assert_eq!(acquire(LockRequest::Existed), Err(AlreadyRunning));
    assert_eq!(acquire(LockRequest::Unavailable), Ok(false));
    assert_eq!(LOCK_NAME, "Local\\NoiseGate.SingleInstance");
}

fn bytes(text: &str) -> Vec<u8> {
    text.as_bytes().to_vec()
}

fn text(path: Vec<u8>) -> String {
    String::from_utf8(path).unwrap()
}

#[test]
fn the_runtime_is_pinned_next_to_our_own_executable() {
    let exe_dir = bytes(r"C:\Program Files\NoiseGate");
    let pinned =
        dylib_path_to_pin(PathStyle::Windows, false, Some(&exe_dir)).expect("should pin a path");
    let pinned = text(pinned);
    assert_eq!(pinned, r"C:\Program Files\NoiseGate\onnxruntime.dll");
    assert!(
        pinned.starts_with(r"C:\"),
        "a bare filename would be searched for"
    );
    assert!(pinned.rfind('\\').is_some(), "must name a directory");
}

#[test]
fn an_operators_own_choice_is_not_overridden() {
    assert_eq!(
        dylib_path_to_pin(PathStyle::Windows, true, Some(&bytes(r"C:\NoiseGate"))),
        None,
        "ORT_DYLIB_PATH was set deliberately; leave it alone"
    );
}

#[test]
fn an_unknown_executable_location_pins_nothing() {
    assert_eq!(dylib_path_to_pin(PathStyle::Windows, false, None), None);
}

#[test]
fn paths_are_joined_as_windows_does() {
    let join = |dir: &str, name: &str| text(join(PathStyle::Windows, &bytes(dir), name));
    assert_eq!(join(r"C:\NoiseGate", "logs"), r"C:\NoiseGate\logs");
    assert_eq!(join(r"C:\", "logs"), r"C:\logs");
    assert_eq!(join("C:", "logs"), "C:logs");
    assert_eq!(join("C:/NoiseGate/", "logs"), "C:/NoiseGate/logs");
    assert_eq!(join("", "logs"), "logs");
    assert_eq!(join("::", "logs"), r"::\logs");
    assert_eq!(join(r"\\server\share", "logs"), r"\\server\share\logs");
}

#[test]
fn paths_are_joined_as_unix_does() {
    let join = |dir: &str, name: &str| text(join(PathStyle::Unix, &bytes(dir), name));
    assert_eq!(join("/home/u", "logs"), "/home/u/logs");
    assert_eq!(join("/", "logs"), "/logs");
    assert_eq!(join("", "logs"), "logs");
    assert_eq!(join("C:", "logs"), "C:/logs");
    assert_eq!(join(r"a\", "lögs"), "a\\/lögs");
}

/// What joins paths here is what joins them in the standard library.
#[test]
fn paths_are_joined_as_the_platform_does() {
    for dir in ["", ".", "a", "a/", "/", "/home/u", "a b/c"] {
        let expected = std::path::Path::new(dir).join("model.onnx");
        assert_eq!(
            join(platform(), &bytes(dir), "model.onnx"),
            expected.into_os_string().into_encoded_bytes()
        );
    }
    assert_eq!(
        platform() == PathStyle::Windows,
        std::path::MAIN_SEPARATOR == '\\'
    );
}

#[test]
fn a_path_that_is_not_unicode_stays_what_it_is() {
    let odd = vec![b'/', 0xff, 0xed, 0xa0, 0x80];
    let mut expected = odd.clone();
    expected.extend_from_slice(b"/NoiseGate/config.toml");
    assert_eq!(config_path_in(PathStyle::Unix, &Some(odd)), expected);
}

#[test]
fn explorer_is_named_by_its_full_path() {
    assert_eq!(text(explorer_path(&None)), r"C:\Windows\explorer.exe");
    assert_eq!(
        text(explorer_path(&Some(bytes(r"D:\WinNT")))),
        r"D:\WinNT\explorer.exe"
    );
}

#[test]
fn settings_and_logs_have_their_places() {
    let windows = PathStyle::Windows;
    let settings = Some(bytes(r"C:\Users\a\AppData\Roaming"));
    assert_eq!(
        text(config_path_in(windows, &settings)),
        r"C:\Users\a\AppData\Roaming\NoiseGate\config.toml"
    );
    assert_eq!(
        text(log_dir_in(windows, &settings)),
        r"C:\Users\a\AppData\Roaming\NoiseGate\logs"
    );
    assert_eq!(
        text(config_path_in(windows, &None)),
        r".\NoiseGate\config.toml"
    );
    assert_eq!(
        text(log_file(windows, &bytes(r"C:\logs"))),
        r"C:\logs\noisegate.log"
    );
    let unix = PathStyle::Unix;
    assert_eq!(
        text(log_dir_in(unix, &Some(bytes("/home/u/.config")))),
        "/home/u/.config/NoiseGate/logs"
    );
    assert_eq!(text(config_path_in(unix, &None)), "./NoiseGate/config.toml");
}

/// The real directory, whatever the machine says it is.
#[test]
fn the_systems_own_directory_is_used() {
    let base = dirs::config_dir()
        .unwrap_or_else(|| std::path::PathBuf::from("."))
        .join("NoiseGate");
    let native = |p: std::path::PathBuf| p.into_os_string().into_encoded_bytes();
    assert_eq!(config_path(), native(base.join("config.toml")));
    assert_eq!(log_dir(), native(base.join("logs")));
}

#[test]
fn only_a_log_over_the_limit_is_rolled_over() {
    assert_eq!(MAX_LOG_BYTES, 5 * 1024 * 1024);
    assert!(!log_is_too_large(Some(30), 1024));
    assert!(!log_is_too_large(Some(1024), 1024));
    assert!(log_is_too_large(Some(2048), 1024));
    assert!(!log_is_too_large(None, 1024), "a missing log is no error");
}

fn parse(args: &[&str]) -> CliArgs {
    parse_args_from(&args.iter().map(|a| a.to_string()).collect())
}

#[test]
fn cli_parses_mic_in_both_spellings() {
    // `--mic X` and `--mic=X` must resolve identically, and unknown flags
    // stay ignored rather than being swallowed as a device name.
    let split = parse(&["--mic", "Yeti"]);
    let joined = parse(&["--mic=Yeti"]);
    assert_eq!(split.mic.as_deref(), Some("Yeti"));
    assert_eq!(joined.mic.as_deref(), Some("Yeti"));

    let listed = parse(&["--list-devices", "--nonsense"]);
    assert!(listed.list_devices);
    assert!(listed.mic.is_none());
}

#[test]
fn the_command_line_picks_the_mode() {
    assert!(matches!(parse(&[]).mode(false), Mode::Tray));
    assert!(matches!(
        parse(&["--denoise", "a", "b", "-h"]).mode(false),
        Mode::Help
    ));
    assert!(matches!(
        parse(&["--record", "10", "raw.wav", "--list-devices"]).mode(true),
        Mode::ListDevices
    ));
    match parse(&["--record", "10", "raw.wav", "--denoise", "a.wav", "b.wav"]).mode(true) {
        Mode::Denoise { input, output } => assert_eq!((&*input, &*output), ("a.wav", "b.wav")),
        other => panic!("{other:?}"),
    }
    let args = parse(&["--record", "10", "raw.wav", "--model", "m.onnx", "--atten", "12"]);
    assert_eq!(args.model.as_deref(), Some("m.onnx"));
    assert_eq!(args.atten.as_deref(), Some("12"));
    match args.mode(true) {
        Mode::Record { seconds, path } => assert_eq!((&*seconds, &*path), ("10", "raw.wav")),
        other => panic!("{other:?}"),
    }
    assert!(matches!(args.mode(false), Mode::Tray), "not a number");
    // Cut short: nothing to record to, and an earlier single value is gone.
    let cut = parse(&["--mic", "USB", "--record", "10"]);
    assert!(cut.record.is_none());
    assert_eq!(cut.mic.as_deref(), Some("USB"));
    assert!(parse(&["--mic", "USB", "--mic"]).mic.is_none());
    assert!(HELP.contains("--mic <SUBSTRING>"));
}

#[test]
fn redirected_output_is_left_alone() {
    let run = |answers: &dyn Fn(ConsoleAction) -> bool| {
        let mut taken = vec![ConsoleAction::CheckOutput];
        loop {
            let last = *taken.last().unwrap();
            if let ConsoleAction::Done(usable) = last {
                return (taken, usable);
            }
            taken.push(next_action(last, answers(last)));
        }
    };
    let (taken, usable) = run(&|_| true);
    assert!(usable && taken.len() == 2, "{taken:?}");
    let (taken, usable) = run(&|a| a != ConsoleAction::CheckOutput && a != ConsoleAction::Attach);
    assert!(!usable && taken.len() == 3, "no parent console");
    let (_, usable) = run(&|a| a == ConsoleAction::Attach);
    assert!(!usable, "the console could not be opened");
    let (taken, usable) =
        run(&|a| a != ConsoleAction::CheckOutput && a != ConsoleAction::CheckInput);
    assert!(usable && taken.contains(&ConsoleAction::SetInput));
    assert!(is_usable(Some(4)) && !is_usable(Some(0)) && !is_usable(Some(-1)));
    assert!(!is_usable(None));
}

fn line(level: LogLevel, fields: &str) -> String {
    let format = GreenFormat::new();
    let seconds = format!("{:.3}", format.start().elapsed().as_secs_f64());
    format.line_start(&seconds, level) + fields + &format.line_end()
}

#[test]
fn a_line_carries_the_level_the_message_and_an_uptime() {
    let out = line(LogLevel::Error, "capture failed device=\"Yeti\"");
    assert!(out.contains("ERROR"), "{out:?}");
    assert!(out.contains("capture failed"), "{out:?}");
    assert!(out.contains("device"), "fields must survive: {out:?}");
    assert!(out.contains("s]"), "expected an uptime stamp: {out:?}");
    assert!(out.ends_with('\n'), "one line per event");
    assert_eq!(
        GreenFormat::new().line_start("12.345", LogLevel::Warn),
        "\x1b[2;32m[ 12.345s]\x1b[0m \x1b[33m! WARN \x1b[0m \x1b[32m"
    );
    assert_eq!(
        GreenFormat::new().line_start("12345.678", LogLevel::Info),
        "\x1b[2;32m[12345.678s]\x1b[0m \x1b[1;92m› INFO \x1b[0m \x1b[32m"
    );
}

#[test]
fn each_level_gets_its_own_glyph() {
    let lines = [
        line(LogLevel::Error, "x"),
        line(LogLevel::Warn, "x"),
        line(LogLevel::Info, "x"),
        line(LogLevel::Debug, "x"),
        line(LogLevel::Trace, "x"),
    ];
    let glyphs: Vec<&str> = lines
        .iter()
        .map(|l| {
            ["✗", "!", "›", "·", "."]
                .into_iter()
                .find(|g| l.contains(g))
                .unwrap_or("?")
        })
        .collect();
    assert_eq!(glyphs, ["✗", "!", "›", "·", "."], "lines were {lines:#?}");
}

#[test]
fn colour_is_always_reset_before_the_newline() {
    let out = line(LogLevel::Info, "tinted");
    assert!(out.starts_with("\x1b[2;32m"), "{out:?}");
    assert!(out.trim_end().ends_with("\x1b[0m"), "{out:?}");
}
