//! Texts and streams: captions, probes, packets, command-line arguments.
use ashot::audio::peak_data;
use ashot::captions::{fmt_srt_time, srt_text, Segment};
use ashot::cli::{
    annotate_output, capture_file_name, capture_target, check_record, default_annotated_path,
    default_dir, is_same_place, parse_region, read_spec_arg, record_file_name, record_options,
    record_step, resolve_output, shape_message, sidecar_path, tenths, Dest, RecordArgError,
    RecordStep, RegionError, SpecSource, Target,
};
use ashot::clipboard::{copy_png, pipe_failure, CopyStep};
use ashot::error::Error;
use ashot::math::{fixed_chars, seconds_chars};
use ashot::pixmap::Pixmap;
use ashot::player::{next_packet, Packet, PlayerEvent};
use ashot::srt::{parse_srt, parse_ts};
use ashot::text;
use ashot::thumbnails::{format_times, read_thumbnails, thumbnail_times};
use ashot::timeline_media::MediaCache;
use ashot::video::{decode_frame, export_result, parse_probe, SECOND};
use ashot::video_editor::model::VideoEditor;

const S: i64 = SECOND;

#[test]
fn every_error_has_its_code() {
    let s = || "m".to_string();
    let all = [
        (Error::PortalDenied, "portal_denied"),
        (Error::PortalUnavailable(s()), "portal_unavailable"),
        (Error::InvalidSpec(s()), "invalid_spec"),
        (Error::InvalidColor(s()), "invalid_color"),
        (Error::MonitorNotFound(1, 2), "monitor_not_found"),
        (Error::WaylandUnavailable(s()), "wayland_unavailable"),
        (Error::RegionOutOfBounds(1, 2, 3, 4, 5, 6), "region_out_of_bounds"),
        (Error::Image(s()), "image"),
        (Error::Clipboard(s()), "clipboard"),
        (Error::Record(s()), "record"),
        (Error::Io(s()), "io"),
    ];
    for (e, code) in all {
        assert_eq!(e.code(), code);
        assert!(!e.message().is_empty());
    }
}

#[test]
fn srt_times_have_milliseconds() {
    assert_eq!(fmt_srt_time(0), "00:00:00,000");
    assert_eq!(fmt_srt_time(366_123), "01:01:01,230");
}

#[test]
fn written_captions_read_back() {
    let segments = vec![
        Segment { text: " Hello there ".to_string(), t0: Some(0), t1: Some(150) },
        Segment { text: "two\nlines".to_string(), t0: Some(200), t1: None },
    ];
    let srt = srt_text(&segments);
    let cues = parse_srt(&srt);
    let found: Vec<(i64, i64, &str)> =
        cues.iter().map(|c| (c.start as i64, c.end as i64, c.text.as_str())).collect();
    assert_eq!(found, vec![(0, S + S / 2, "Hello there"), (2 * S, 3 * S, "two\nlines")]);
}

#[test]
fn broken_captions_are_skipped() {
    let cues = parse_srt("1\nno times\nx\n\n2\n00:00:01,000 --> 00:00:02,500\nok\n");
    assert_eq!(cues.len(), 1);
    assert_eq!((cues[0].start as i64, cues[0].end as i64), (S, 2 * S + S / 2));
}

#[test]
fn a_probe_finds_the_video() {
    let report = "Properties:\n  Duration: 0:01:02.500000000\n  video #1: H.264\n    Width: 640\n    Height: 360\n  audio #2: AAC\n";
    let v = parse_probe(report, "a.mp4").unwrap();
    assert_eq!((v.duration, v.width, v.height, v.has_audio), (62 * S + S / 2, 640, 360, true));
    let e = parse_probe("nothing", "a.mp4").unwrap_err();
    assert_eq!(e.message(), "screen recording failed: could not probe a.mp4");
}

fn frame(w: u32, h: u32) -> Vec<u8> {
    let mut b = Vec::new();
    b.extend_from_slice(&w.to_le_bytes());
    b.extend_from_slice(&h.to_le_bytes());
    b.extend(std::iter::repeat(7u8).take((w * h * 4) as usize));
    b
}

#[test]
fn frames_are_decoded() {
    let p = decode_frame(true, &frame(2, 3)).unwrap();
    assert_eq!((p.width, p.height, p.data.len()), (2, 3, 24));
    assert!(matches!(decode_frame(false, &frame(2, 3)), Err(Error::Record(m)) if m == "frame extraction failed"));
    let short = frame(2, 3);
    assert!(matches!(decode_frame(true, &short[..20]), Err(Error::Record(m)) if m == "short frame data"));
    assert!(matches!(decode_frame(true, &frame(0, 3)), Err(Error::Record(m)) if m == "bad frame dimensions"));
}

#[test]
fn exports_report_their_last_line() {
    assert!(export_result(true, "", true).is_ok());
    let e = export_result(false, "a\nlast words\n", true).unwrap_err();
    assert_eq!(e.message(), "screen recording failed: export failed: last words");
    assert!(export_result(true, "", false).is_err());
}

#[test]
fn thumbnails_lie_in_the_middle_of_their_stretch() {
    let times = thumbnail_times(10 * S, 2);
    assert_eq!(times, vec![5 * S / 2, 15 * S / 2]);
    assert_eq!(format_times(&vec![1, 20]), "1\n20");
    let mut data = frame(1, 1);
    data.extend(frame(2, 1));
    let found = read_thumbnails(&times, &data);
    assert_eq!(found.len(), 2);
    assert_eq!(found[1].t, 15 * S / 2);
    assert_eq!(found[1].pixmap.width, 2);
    assert!(thumbnail_times(0, 3).is_empty());
}

fn event(json: &str) -> Vec<u8> {
    let mut b = b"EVT0".to_vec();
    b.extend_from_slice(&(json.len() as u32).to_le_bytes());
    b.extend_from_slice(json.as_bytes());
    b
}

#[test]
fn packets_are_read_one_by_one() {
    let mut b = b"FRM0".to_vec();
    b.extend_from_slice(&(3 * S as u64).to_le_bytes());
    b.extend(frame(1, 1));
    match next_packet(&b) {
        Packet::Event(PlayerEvent::Frame { t, pixmap }, n) => {
            assert_eq!((t, pixmap.width, n), (3 * S as u64, 1, b.len()));
        }
        other => panic!("unexpected {other:?}"),
    }
    assert!(matches!(next_packet(&b[..10]), Packet::Incomplete));
    let e = event(r#"{"kind":"eos"}"#);
    assert!(matches!(next_packet(&e), Packet::Event(PlayerEvent::Eos, n) if n == e.len()));
    let e = event(r#"{"kind":"error","msg":"no decoder"}"#);
    assert!(matches!(next_packet(&e), Packet::Event(PlayerEvent::Error(m), _) if m == "no decoder"));
    let e = event("not json");
    assert!(matches!(next_packet(&e), Packet::Ignored(n) if n == e.len()));
    assert!(matches!(next_packet(b"XXXXyyyy"), Packet::Desynced));
}

#[test]
fn peaks_bound_their_samples() {
    let mut samples: Vec<i16> = vec![0; 4000];
    samples[3] = -500;
    samples[3999] = 900;
    let p = peak_data(&samples, 1000, 1000);
    assert_eq!(p.peaks.len(), 1000);
    assert_eq!(p.peaks[0], (-500, 0));
    assert_eq!(p.peaks[999], (0, 900));
    assert_eq!(p.duration, 4 * S);
}

#[test]
fn regions_are_parsed() {
    assert_eq!(parse_region("1,2,3,4").unwrap(), (1, 2, 3, 4));
    assert_eq!(parse_region("-1, 2, 3, 4").unwrap(), (-1, 2, 3, 4));
    assert!(matches!(parse_region("1,2,3"), Err(RegionError::Shape(_))));
    assert_eq!(parse_region("1,2,3x4").unwrap(), (1, 2, 3, 4));
    assert!(matches!(parse_region("1,2,y,4"), Err(RegionError::Length(n)) if n == "y"));
    assert!(shape_message("1,2,3").contains("1,2,3"));
}

#[test]
fn a_capture_has_one_target() {
    assert!(matches!(capture_target(None, None).unwrap(), Target::Full));
    assert!(matches!(capture_target(None, Some(2)).unwrap(), Target::Monitor(2)));
    assert!(matches!(capture_target(Some("0,0,5,6"), None).unwrap(), Target::Region(0, 0, 5, 6)));
    assert!(capture_target(Some("oops"), None).is_err());
}

#[test]
fn recording_arguments_are_checked() {
    assert_eq!(check_record(Some(1080), Some("1,2,3,4")).unwrap(), Some((1, 2, 3, 4)));
    assert!(matches!(check_record(Some(999), None), Err(RecordArgError::Resolution)));
    assert!(matches!(check_record(None, Some("-1,2,3,4")), Err(RecordArgError::Origin)));
    assert!(matches!(check_record(None, Some("x")), Err(RecordArgError::Region(_))));
    let o = record_options(None, Some(720), None, Some("default".to_string()));
    assert_eq!(o.height, Some(720));
    assert!(!o.system_audio);
}

#[test]
fn a_recording_ends_on_request_or_limit() {
    assert_eq!(record_step(true, 0, None, true), RecordStep::Stop);
    assert_eq!(record_step(false, 5 * S, Some(5 * S), true), RecordStep::Stop);
    assert_eq!(record_step(false, S, None, false), RecordStep::Lost);
    assert_eq!(record_step(false, S, Some(5 * S), true), RecordStep::Wait);
    assert_eq!(tenths(1_250_000_000), 13);
}

#[test]
fn outputs_and_specs_are_told_apart() {
    assert!(matches!(resolve_output(Some("-".to_string())), Dest::Stdout));
    assert!(resolve_output(Some("-".to_string())).metadata_to_stderr());
    assert!(matches!(resolve_output(Some("a".to_string())), Dest::File(p) if p == "a"));
    assert!(matches!(resolve_output(None), Dest::Default));
    assert!(matches!(read_spec_arg("-"), SpecSource::Stdin));
    assert!(matches!(read_spec_arg("@f.json"), SpecSource::File(p) if p == "f.json"));
    assert!(matches!(read_spec_arg("[]"), SpecSource::Inline(s) if s == "[]"));
}

#[test]
fn names_of_files() {
    assert_eq!(default_annotated_path("in"), "in-annotated.png");
    assert_eq!(sidecar_path("out.png"), "out.png.shot.json");
    assert_eq!(capture_file_name("20260805-120000"), "shot-20260805-120000.png");
    assert_eq!(record_file_name("20260805-120000"), "rec-20260805-120000.mp4");
    assert_eq!(default_dir(None, Some("/home/u".to_string()), "Pictures", "Screenshots").join("/"),
        "/home/u/Pictures/Screenshots");
}

#[test]
fn the_clipboard_tries_its_helpers() {
    assert!(matches!(copy_png(true, 0), CopyStep::Done));
    assert!(matches!(copy_png(false, 0), CopyStep::Pipe(c) if c[0] == "wl-copy"));
    assert!(matches!(copy_png(false, 1), CopyStep::Pipe(c) if c[0] == "xclip"));
    assert!(matches!(copy_png(false, 2), CopyStep::Failed(Error::Clipboard(_))));
    assert_eq!(
        pipe_failure("xclip", "exit status: 1").message(),
        "clipboard copy failed: xclip exited with exit status: 1"
    );
}

fn show(chars: Vec<char>) -> String {
    text::from_chars(&chars)
}

#[test]
fn decimals_round_halves_to_even() {
    assert_eq!(show(seconds_chars(250_000_000)), format!("{:.1}", 0.25f64));
    assert_eq!(show(seconds_chars(750_000_000)), format!("{:.1}", 0.75f64));
    assert_eq!(show(seconds_chars(1_260_000_000)), "1.3");
    assert_eq!(show(fixed_chars(-12_500_000_000, S, 1, 0)), format!("{:.0}", -12.5f64));
    assert_eq!(show(fixed_chars(500, 1000, 1, 0)), format!("{:.0}", 0.5f64));
    assert_eq!(show(fixed_chars(-400, 1000, 1, 0)), format!("{:.0}", -0.4f64));
}

#[test]
fn white_space_is_that_of_unicode() {
    for c in ['\t', ' ', '\u{a0}', '\u{2003}', '\u{3000}', '\u{200b}', 'x', '\u{85}'] {
        assert_eq!(text::white(c), c.is_whitespace());
    }
    assert_eq!(text::trimmed_str(" \u{a0}a b\u{3000}\n"), "a b");
}

#[test]
fn a_cache_keeps_the_latest() {
    let mut c: MediaCache<u32> = MediaCache::new();
    assert!(c.cached("a").is_none());
    c.insert("a", 1);
    c.insert("b", 2);
    c.insert("a", 3);
    assert_eq!(c.cached("a"), Some(&3));
    assert_eq!(c.cached("b"), Some(&2));
}

#[test]
fn a_picture_is_read_from_a_stream() {
    let bytes = frame(2, 2);
    let p = Pixmap::from_bytes(2, 2, &bytes, 8).unwrap();
    assert_eq!(p.data, vec![7; 16]);
    assert!(Pixmap::from_bytes(0, 2, &bytes, 8).is_none());
}

#[test]
fn packets_do_not_change_with_what_follows() {
    let mut b = event(r#"{"kind":"eos"}"#);
    let n = b.len();
    b.extend_from_slice(b"FRM0");
    assert!(matches!(next_packet(&b), Packet::Event(PlayerEvent::Eos, m) if m == n));
    assert!(matches!(next_packet(&b[n..]), Packet::Incomplete));
}

#[test]
fn regions_read_back() {
    for (x, y, w, h) in [(i32::MIN, 0, 0, u32::MAX), (-5, 17, 640, 480)] {
        let text = format!("{x},{y},{w},{h}");
        assert_eq!(parse_region(&text).unwrap(), (x, y, w, h));
        assert_eq!(parse_region(&format!("{x},{y},{w}x{h}")).unwrap(), (x, y, w, h));
    }
}

#[test]
fn the_annotated_copy_has_another_name() {
    for name in ["in.png", "in", "in-annotated.png"] {
        let stem = name.rsplit_once('.').map_or(name, |(s, _)| s);
        assert_ne!(default_annotated_path(stem), name);
    }
}

#[test]
fn segments_without_text_are_left_out() {
    let segment = |text: &str, t0, t1| Segment { text: text.to_string(), t0: Some(t0), t1: Some(t1) };
    let segments = vec![
        segment("", 0, 100),
        segment("hello", 100, 200),
        segment("  ", 200, 300),
        segment(" ", 300, 400),
        segment("bye", 400, 500),
        segment("", 500, 600),
    ];
    let srt = srt_text(&segments);
    assert!(srt.starts_with(
        "1\n00:00:00,000 --> 00:00:01,000\n\n\n2\n00:00:01,000 --> 00:00:02,000\nhello\n\n"
    ));
    let cues = parse_srt(&srt);
    let found: Vec<(i64, i64, &str)> =
        cues.iter().map(|c| (c.start as i64, c.end as i64, c.text.as_str())).collect();
    assert_eq!(found, vec![(S, 2 * S, "hello"), (4 * S, 5 * S, "bye")]);
}

#[test]
fn an_empty_line_can_stand_for_the_number() {
    let cues = parse_srt("\n00:00:01,000 --> 00:00:02,000\nhi\n");
    assert_eq!(cues.len(), 1);
    assert_eq!(cues[0].text, "hi");
    let cues = parse_srt("1\r\n00:00:00,000 --> 00:00:01,000\r\n\r\n\r\n2\r\n00:00:01,000 --> 00:00:02,000\r\nhi\r\n");
    assert_eq!(cues.len(), 1);
    assert_eq!((cues[0].start as i64, cues[0].text.as_str()), (S, "hi"));
}

#[test]
fn caption_times_read_back() {
    for cs in [0i64, 1, 99, 6_000, 360_000, 123_456_789, 999_999_999_999, -250] {
        let t = fmt_srt_time(cs);
        assert_eq!(parse_ts(&t), Some(cs as i128 * 10_000_000));
        assert_eq!(parse_ts(&format!(" \t{t}\n")), Some(cs as i128 * 10_000_000));
    }
    assert_eq!(parse_ts("00:00:01.5,000"), Some((S + S / 2) as i128));
    assert_eq!(parse_ts("00:00:01,0005.5"), Some((S + 5_500_000) as i128));
    assert_eq!(parse_ts("00:00:1.5e1,000"), Some(15 * S as i128));
    assert_eq!(parse_ts("00:00:01"), None);
    assert_eq!(parse_ts("00:01,000"), None);
    assert_eq!(parse_ts("a:00:01,000"), None);
}

#[test]
fn a_long_video_is_probed() {
    let report = "  Duration: 1000000:00:00.000000000\n    Width: 640\n    Height: 360\n";
    let v = parse_probe(report, "a.mp4").unwrap();
    assert_eq!(v.duration, 3_600_000_000 * S);
    assert_eq!(VideoEditor::new(v, true, false).state.segments[0].end, v.duration);
    let report = "  Duration: 10000000:00:00.000000000\n    Width: 640\n    Height: 360\n";
    assert!(parse_probe(report, "a.mp4").is_err());
}

#[test]
fn samples_differ_where_there_is_room() {
    assert_eq!(thumbnail_times(4, 4), vec![0, 1, 2, 3]);
    assert_eq!(thumbnail_times(2, 4), vec![0, 0, 1, 1]);
}

#[test]
fn the_input_is_never_the_output() {
    let file = |s: &str| Some(s.to_string());
    for (output, input) in [
        ("in.png", "in.png"),
        ("./in.png", "in.png"),
        ("a//b/./in.png", "a/b/in.png"),
        ("/a/in.png", "/a/in.png"),
    ] {
        assert!(is_same_place(output, input));
        match annotate_output(file(output), input, false, false) {
            Err(m) => assert_eq!(m, format!("the input is never modified: {output}")),
            Ok(d) => panic!("would write {d:?}"),
        }
    }
    assert!(!is_same_place("/in.png", "in.png"));
    assert!(!is_same_place("a/in.png", "in.png"));
    assert!(annotate_output(file("x.png"), "in.png", true, false).is_err());
    assert!(annotate_output(file("x.png"), "x.png.shot.json", false, true).is_err());
    assert!(matches!(
        annotate_output(file("x.png"), "x.png.shot.json", false, false),
        Ok(Dest::File(p)) if p == "x.png"
    ));
    assert!(matches!(annotate_output(file("-"), "-", true, true), Ok(Dest::Stdout)));
    assert!(matches!(annotate_output(None, "in.png", false, false), Ok(Dest::Default)));
    assert!(annotate_output(None, "in.png", true, false).is_err());
}

#[test]
fn a_region_tells_which_number_is_bad() {
    assert!(matches!(parse_region("q,2,-3,4"), Err(RegionError::Position(n)) if n == "q"));
    assert!(matches!(parse_region("1, 3000000000 ,3,4"),
        Err(RegionError::Position(n)) if n == "3000000000"));
    assert!(matches!(parse_region("1,2,-3,4"), Err(RegionError::Length(n)) if n == "-3"));
}

#[test]
fn decimals_are_those_of_binary_fractions() {
    let show = |c: Vec<char>| c.into_iter().collect::<String>();
    for i in 0..4000i64 {
        let t = i * 50_000_000 - 10_000_000_000;
        assert_eq!(show(seconds_chars(t)), format!("{:.1}", t as f64 / 1e9));
        let t = i * 5_000_000;
        assert_eq!(show(fixed_chars(t, S, 100, 2)), format!("{:.2}", t as f64 / 1e9));
    }
}

#[test]
fn tenths_are_those_of_binary_fractions() {
    for i in 0..4000i64 {
        let t = i * 50_000_000;
        let secs = std::time::Duration::from_nanos(t as u64).as_secs_f64();
        assert_eq!(tenths(t), (secs * 10.0).round() as i64);
    }
    assert_eq!(tenths(i64::MAX), 92_233_720_369);
}
