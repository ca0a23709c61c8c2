//! Recording: the pipeline, the microphones, the clock and the controls.
use ashot::error::Error;
use ashot::micmon::{check_line, first_db, next_level, FLOOR_DB};
use ashot::record::{
    after_startup, bitrate_for, even, launch_line, list_microphones, mic_dsp, monitor_source,
    pick_microphones, plain_arguments, plan_output, portal_error, resolution, restore_token,
    shell_safe, split_launch_line, stop_result, stop_step, stream_size, Encoder, Pipeline, Poll,
    RecordOptions, RecordingState, Startup, StopStep, STOP_TIMEOUT,
};
use ashot::recorder::{
    pill_labels, read_pause_script, read_stop_script, script_toggles, Hidden, Recorder,
    RecorderAction, Tick,
};
use ashot::tray::{RecordTray, TrayCmd, TrayItem};

const S: i64 = 1_000_000_000;

#[test]
fn parses_level_message_fields() {
    let line = r#"Got message #97 from element "level0" (element): level, timestamp=(guint64)1000000000, peak=(GValueArray)< -14.905813, -15.2 >, decay=(GValueArray)< -14.905813 >, rms=(GValueArray)< -18.291225 >;"#;
    assert_eq!(first_db(line, "rms="), Some(-18_291_225_000));
    assert_eq!(first_db(line, "peak="), Some(-14_905_813_000));
    assert_eq!(first_db(line, "missing="), None);
}

#[test]
fn silence_is_the_floor() {
    let line = "level, peak=(GValueArray)< -inf >, rms=(GValueArray)< -inf >;";
    assert_eq!(next_level((0, 0), line), (FLOOR_DB, FLOOR_DB));
    assert_eq!(next_level((1, 2), "something else"), (1, 2));
}

#[test]
fn the_check_runs_the_chosen_device() {
    let line = check_line(Some("mic0"), true, false);
    assert!(line.contains("mic0"));
    assert!(line.contains(mic_dsp(true).trim()));
    assert!(check_line(None, false, true) != check_line(None, false, false));
}

#[test]
fn outputs_are_even_and_never_larger() {
    assert_eq!(even(7), 6);
    assert_eq!(plan_output(2560, 1440, None, Some(1080)), (1920, 1080, 10_000));
    assert_eq!(plan_output(1280, 720, None, Some(1440)).1, 720);
    let (w, h, _) = plan_output(2560, 1440, Some((10, 10, 301, 201)), None);
    assert_eq!((w % 2, h % 2), (0, 0));
    assert!(w <= 301 && h <= 201);
    assert_eq!(bitrate_for(1080), 10_000);
    assert_eq!(bitrate_for(4000), 16_000);
    assert_eq!(resolution(0), ("720p", 720, 6_000));
}

#[test]
fn a_stream_without_size_is_guessed() {
    assert_eq!(stream_size(Some((800, 600))), (800, 600));
    assert_eq!(stream_size(None), (1920, 1080));
}

fn pipeline() -> Pipeline {
    Pipeline {
        node_id: 42,
        width: 1920,
        height: 1080,
        out_w: 1280,
        out_h: 720,
        bitrate_kbps: 6_000,
        encoder: Encoder::Cpu,
        location: "/tmp/out.mp4".to_string(),
        aac: None,
        dsp: false,
        monitor: None,
    }
}

#[test]
fn the_pipeline_names_what_it_records() {
    let (line, lost) = launch_line(&pipeline(), None, &None);
    assert!(!lost);
    assert!(line.contains("42") && line.contains("/tmp/out.mp4") && line.contains("1280"));
    let words = split_launch_line(&line);
    assert_eq!(words.join(" "), line.split_whitespace().collect::<Vec<_>>().join(" "));
    let (_, lost) = launch_line(&pipeline(), None, &Some("default".to_string()));
    assert!(lost);
    assert!(!plain_arguments(&line).is_empty());
}

#[test]
fn paths_with_spaces_are_quoted() {
    assert_eq!(shell_safe(Some("/tmp/a.mp4")).unwrap(), "/tmp/a.mp4");
    assert_eq!(shell_safe(Some("/tmp/a b.mp4")).unwrap(), "\"/tmp/a b.mp4\"");
    assert!(matches!(shell_safe(None), Err(Error::Record(m)) if m == "non-UTF8 output path"));
}

#[test]
fn microphones_are_read_from_the_listing() {
    let listing = br#"[{"name":"alsa_output.monitor","description":"Monitor"},
        {"name":"alsa_input.usb","description":"USB mic"},
        {"name":"plain"}]"#;
    let mics = list_microphones(listing);
    assert_eq!(mics[0], ("alsa_input.usb".to_string(), "USB mic".to_string()));
    assert!(mics.iter().all(|m| !m.0.ends_with(".monitor")));
    assert!(list_microphones(b"no json").is_empty());
    assert!(pick_microphones(&vec![(None, Some("x".to_string()))]).is_empty());
}

#[test]
fn the_monitor_of_the_default_sink() {
    assert_eq!(monitor_source("sink0\n"), Some("sink0.monitor".to_string()));
    assert_eq!(monitor_source("  \n"), None);
}

#[test]
fn a_token_is_trimmed() {
    assert_eq!(restore_token(" abc \n"), Some("abc".to_string()));
    assert_eq!(restore_token("\n"), None);
    assert_eq!(
        portal_error(true, "x").message(),
        "screen recording failed: screen recording was denied or cancelled in the portal dialog"
    );
    assert_eq!(
        portal_error(false, "x").message(),
        "screen recording failed: screencast portal: x"
    );
}

#[test]
fn encoders_fall_back() {
    assert_eq!(Encoder::preferred(true), Encoder::Gpu);
    assert_eq!(Encoder::preferred(false).name(), "x264enc");
    assert!(matches!(after_startup(None, Encoder::Gpu), Startup::Running));
    assert!(matches!(after_startup(Some("exit 1"), Encoder::Gpu), Startup::RetryOnCpu(_)));
    assert!(matches!(after_startup(Some("exit 1"), Encoder::Cpu), Startup::Failed(Error::Record(_))));
}

#[test]
fn stopping_waits_and_then_kills() {
    assert_eq!(stop_step(Poll::Running, 0), StopStep::Wait);
    assert_eq!(stop_step(Poll::Running, STOP_TIMEOUT + 1), StopStep::Kill);
    assert_eq!(stop_step(Poll::Exited, 0), StopStep::Finished);
    assert!(stop_result(true).is_ok());
    assert_eq!(stop_result(false).unwrap_err().code(), "record");
}

#[test]
fn sound_is_recorded_on_request() {
    assert!(!RecordOptions::default().has_audio());
    let o = RecordOptions { system_audio: true, ..RecordOptions::default() };
    assert!(o.has_audio());
}

#[test]
fn a_paused_stretch_does_not_count() {
    let mut r = RecordingState::new(true, 0);
    assert_eq!(r.pause_command().unwrap(), "pause");
    r.toggle_pause(Ok(()), 10 * S).unwrap();
    assert!(r.is_paused());
    assert_eq!(r.elapsed(20 * S), 10 * S);
    assert_eq!(r.pause_command().unwrap(), "resume");
    r.toggle_pause(Ok(()), 20 * S).unwrap();
    assert_eq!(r.elapsed(25 * S), 15 * S);
}

#[test]
fn commands_can_fail() {
    let mut r = RecordingState::new(false, 0);
    assert_eq!(
        r.pause_command().unwrap_err().message(),
        "screen recording failed: recording is not controllable"
    );
    assert!(r.set_muted(true, Ok(())).is_err());
    let mut r = RecordingState::new(true, 0);
    let e = r.set_muted(true, Err("broken pipe".to_string())).unwrap_err();
    assert_eq!(e.message(), "screen recording failed: controller command failed: broken pipe");
    assert!(!r.is_muted());
    assert_eq!(r.mute_command(true).unwrap(), "mute");
}

#[test]
fn without_a_tray_the_pill_shows_and_stops() {
    let (mut r, action) = Recorder::new(RecordingState::new(true, 0), true, false);
    assert_eq!(action, RecorderAction::ShowPill);
    assert!(r.show_pill(false));
    r.pill_opened(true);
    assert!(!r.show_pill(true));
    assert_eq!(r.hide_pill(), Hidden::Minimized);
    assert!(r.pill);
    assert_eq!(r.pill_should_close(), RecorderAction::Stop);
    assert!(r.stop().is_some());
    assert!(r.stop().is_none());
    assert_eq!(r.tick(S, None, true), Tick::Over);
    assert_eq!(pill_labels(&r).time, "Saving\u{2026}");
}

#[test]
fn with_a_tray_the_pill_is_dismissed() {
    let (mut r, action) = Recorder::new(RecordingState::new(true, 0), false, true);
    assert_eq!(action, RecorderAction::Nothing);
    r.pill_opened(true);
    assert_eq!(r.pill_should_close(), RecorderAction::Nothing);
    assert!(!r.pill && r.recording.is_some());
    assert_eq!(r.hide_pill(), Hidden::Closed);
    assert_eq!(r.tray_command(TrayCmd::Show), RecorderAction::ShowPill);
    assert_eq!(r.tray_command(TrayCmd::Stop), RecorderAction::Stop);
}

#[test]
fn the_clock_counts_recorded_seconds() {
    let (mut r, _) = Recorder::new(RecordingState::new(true, 0), true, true);
    assert_eq!(r.tick(3_661 * S + 5, None, true), Tick::Repaint);
    let labels = pill_labels(&r);
    assert_eq!(labels.time, "01:01:01");
    assert_eq!(labels.mute, Some("\u{1f3a4} On"));
    assert_eq!(labels.pause, Some("\u{23f8} Pause"));
    assert_eq!(labels.stop, "\u{25a0} Stop");
    assert_eq!(r.tick(3_662 * S, Some(3_661), true), Tick::Stop);
    assert_eq!(r.tick(3_662 * S, None, false), Tick::Exited);
}

#[test]
fn keys_control_the_recording() {
    let (mut r, _) = Recorder::new(RecordingState::new(true, 0), true, true);
    assert_eq!(r.key_down("space"), RecorderAction::TogglePause);
    assert_eq!(r.key_down("m"), RecorderAction::ToggleMute);
    assert_eq!(r.key_down("h"), RecorderAction::Hide);
    assert_eq!(r.key_down("escape"), RecorderAction::Stop);
    assert_eq!(r.toggle_pause(Ok(()), S), None);
    assert!(r.is_paused());
    assert_eq!(pill_labels(&r).pause, Some("\u{25b6} Resume"));
    assert_eq!(r.toggle_mute(Ok(())), None);
    assert!(r.is_muted());
    assert_eq!(
        r.toggle_mute(Err("gone".to_string())).unwrap(),
        "mute failed: screen recording failed: controller command failed: gone"
    );
    assert!(r.is_muted());
}

#[test]
fn scripts_are_read() {
    assert_eq!(read_pause_script("2,5"), Some((2, 5)));
    assert_eq!(read_pause_script("2"), None);
    assert_eq!(read_pause_script("2, 5"), None);
    assert_eq!(read_stop_script("+12"), Some(12));
    assert_eq!(read_stop_script("18446744073709551616"), None);
    assert!(script_toggles(Some((2, 5)), 5));
    assert!(!script_toggles(None, 5));
}

#[test]
fn the_tray_offers_what_can_be_done() {
    let t = RecordTray { paused: true, can_control: true };
    assert_eq!(t.id(), "ashot-recorder");
    assert_eq!(t.title(), "ashot \u{2014} recording paused");
    assert_eq!(t.icon_name(), "media-playback-pause");
    assert_eq!(t.activate(), TrayCmd::Show);
    let menu = t.menu();
    assert_eq!(menu.len(), 4);
    assert!(matches!(menu[0], TrayItem::Entry { label: "Resume", cmd: TrayCmd::TogglePause, .. }));
    assert!(matches!(menu[1], TrayItem::Entry { label: "Stop & save", cmd: TrayCmd::Stop, .. }));
    assert!(matches!(menu[2], TrayItem::Separator));
    assert_eq!(RecordTray { paused: false, can_control: false }.menu().len(), 3);
}

#[test]
fn levels_can_have_exponents() {
    let line = |v: &str| format!("level, rms=(GValueArray)< {v} >, peak=(GValueArray)< 0 >;");
    assert_eq!(first_db(&line("-4.3429e-05"), "rms="), Some(-43_429));
    assert_eq!(first_db(&line("-1.8E+01"), "rms="), Some(-18_000_000_000));
    assert_eq!(first_db(&line("0e99999"), "rms="), Some(0));
    assert_eq!(first_db(&line("1e-99999"), "rms="), Some(0));
    assert_eq!(first_db(&line("1e99999"), "rms="), None);
    assert_eq!(first_db(&line("1e"), "rms="), None);
    assert_eq!(first_db(&line("e1"), "rms="), None);
    assert_eq!(first_db(&line("-inf"), "rms="), Some(FLOOR_DB));
    assert_eq!(first_db(&line("-Infinity"), "rms="), Some(FLOOR_DB));
}

#[test]
fn outputs_are_scaled_by_rounded_fractions() {
    for w in (2..4000u32).step_by(37) {
        for h in [720u32, 1000, 1081, 1440] {
            let scale = 720.0 / h as f64;
            let want = ((w as f64 * scale).round() as u32).max(2) & !1;
            assert_eq!(plan_output(w, h, None, Some(720)).0, want);
        }
    }
}
