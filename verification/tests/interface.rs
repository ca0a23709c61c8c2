//! The windows: the pill toolbar, the annotation editor, the video editor.
use ashot::draw::{drag_is_meant, make_style, shape_from_drag, Tool, Typing, TypingStep};
use ashot::editor::{
    color, stroke, tool_for_key, window_size, Draft, Editor, EditorAction, TOOLBAR,
};
use ashot::geometry::{Extent, Pos};
use ashot::launcher::{
    chip_top, grips, meter, mic_choices, mic_label, opening, recording_options, resolution_label,
    scripted, truncate, Cursor, Drag, Grab, Launcher, LauncherAction, LauncherState, MeterColor,
    Mode, Opening, Scope, Scripted, METER_WIDTH,
};
use ashot::micmon::FLOOR_DB;
use ashot::overlay::Area;
use ashot::spec::Annotation;
use ashot::srt::Cue;
use ashot::theme;
use ashot::video::{VideoInfo, LEVEL_ONE, SECOND};
use ashot::video_editor::inspector::Panel;
use ashot::video_editor::keys::export_file_name;
use ashot::video_editor::model::{skip_removed, Effect, VideoEditor};
use ashot::video_editor::state::{Selection, VideoSegment};
use ashot::video_editor::timeline::{fmt_mmss, pick_tick_interval, ruler_ticks, timeline_rect};

const S: i64 = SECOND;

fn at(x: i32, y: i32) -> Pos {
    Pos { x: x * 256, y: y * 256 }
}

fn extent(w: i32, h: i32) -> Extent {
    Extent { w: w * 256, h: h * 256 }
}

// ---- the pill ----

fn session() -> Launcher {
    let mut l = Launcher::new(LauncherState::default(), Some((1920, 1080)), 3, "");
    l.drag_start(at(100, 100));
    l.drag_to(at(300, 250), extent(960, 540));
    l.mouse_up(at(300, 250), extent(960, 540));
    l
}

#[test]
fn a_region_is_drawn_in_a_session() {
    let l = session();
    assert_eq!(
        l.sel_rect(),
        Some(Area { x: 100 * 256, y: 100 * 256, w: 200 * 256, h: 150 * 256 })
    );
    assert_eq!(l.sel_to_pixels(extent(960, 540)), Some((200, 200, 400, 300)));
    assert_eq!(l.crop_label(extent(960, 540)), "Crop 400\u{d7}300");
    assert_eq!(l.size_chip(extent(960, 540)).unwrap(), "400 \u{d7} 300");
    assert!(l.armed());
    assert!(!l.pill_on_top());
    assert!(l.crop_is_active() && !l.full_is_active());
}

#[test]
fn edges_are_grabbed_before_the_inside() {
    let l = session();
    assert_eq!(l.grab_at(at(200, 170)), Grab::Move);
    assert_eq!(
        l.grab_at(at(105, 170)),
        Grab::Resize { left: true, right: false, top: false, bottom: false }
    );
    assert_eq!(
        l.grab_at(at(300, 250)),
        Grab::Resize { left: false, right: true, top: false, bottom: true }
    );
    assert_eq!(l.grab_at(at(310, 250)), Grab::New);
}

#[test]
fn cursors_follow_the_grab() {
    let mut l = session();
    let view = extent(960, 540);
    assert!(l.mouse_move(at(200, 170), view));
    assert_eq!(l.crop_cursor(), Cursor::OpenHand);
    assert!(!l.mouse_move(at(201, 170), view));
    l.mouse_move(at(100, 100), view);
    assert_eq!(l.crop_cursor(), Cursor::UpLeftDownRight);
    l.mouse_move(at(300, 100), view);
    assert_eq!(l.crop_cursor(), Cursor::UpRightDownLeft);
    l.mouse_move(at(300, 170), view);
    assert_eq!(l.crop_cursor(), Cursor::LeftRight);
    l.mouse_move(at(200, 250), view);
    assert_eq!(l.crop_cursor(), Cursor::UpDown);
    l.drag_start(at(200, 170));
    assert_eq!(l.crop_cursor(), Cursor::ClosedHand);
}

#[test]
fn a_moved_region_slides_along_the_window() {
    let mut l = session();
    let view = extent(960, 540);
    l.drag_start(at(200, 170));
    l.drag_to(at(5000, 170), view);
    assert_eq!(
        l.sel_rect(),
        Some(Area { x: 760 * 256, y: 100 * 256, w: 200 * 256, h: 150 * 256 })
    );
    l.drag_to(at(-5000, -5000), view);
    assert_eq!(l.sel_rect(), Some(Area { x: 0, y: 0, w: 200 * 256, h: 150 * 256 }));
    l.drag_to(at(200, 170), view);
    assert!(l.mouse_up(at(200, 170), view));
    assert_eq!(l.sel_rect(), session().sel_rect());
    assert_eq!(l.drag, Drag::Idle);
}

#[test]
fn an_edge_moves_on_its_axis_only() {
    let mut l = session();
    let view = extent(960, 540);
    l.drag_start(at(100, 170));
    l.drag_to(at(150, 400), view);
    assert_eq!(
        l.sel_rect(),
        Some(Area { x: 150 * 256, y: 100 * 256, w: 150 * 256, h: 150 * 256 })
    );
}

#[test]
fn every_grip_resizes() {
    let l = session();
    let points = grips(l.sel_rect().unwrap());
    assert_eq!(points.len(), 8);
    for (x, y) in points {
        assert!(matches!(l.grab_at(Pos { x: x as i32, y: y as i32 }), Grab::Resize { .. }));
    }
    assert_eq!(chip_top(l.sel_rect().unwrap(), extent(960, 540)), 260 * 256);
    assert_eq!(chip_top(l.sel_rect().unwrap(), extent(960, 260)), 72 * 256);
}

#[test]
fn the_red_button_fires_what_is_framed() {
    let view = extent(960, 540);
    let mut l = session();
    assert_eq!(l.fire(view), LauncherAction::PreviewRegion((200, 200, 400, 300)));
    l.set_mode(Mode::Record);
    l.set_resolution(1);
    assert_eq!(
        l.fire(view),
        LauncherAction::Record {
            crop: Some((200, 200, 400, 300)),
            height: Some(1080),
            mic_ix: 0,
            system_audio: false
        }
    );
    let mut empty = Launcher::new(LauncherState::default(), Some((1920, 1080)), 2, "");
    assert_eq!(empty.fire(view), LauncherAction::Nothing);
    assert!(!empty.armed());
    let mut plain = Launcher::new(LauncherState::default(), None, 2, "");
    assert_eq!(plain.fire(view), LauncherAction::PreviewFull);
    plain.set_mode(Mode::Record);
    assert!(matches!(plain.fire(view), LauncherAction::Record { crop: None, height: None, .. }));
}

#[test]
fn a_region_survives_a_new_still_only() {
    let mut l = session();
    let state = match l.key_down("r", false, extent(960, 540)) {
        LauncherAction::Freeze(s) => s,
        other => panic!("unexpected {other:?}"),
    };
    assert_eq!(state.scope, Scope::Crop);
    let again = Launcher::new(state, Some((1920, 1080)), 3, "");
    assert_eq!(again.sel_rect(), l.sel_rect());
    assert_eq!(l.key_down("r", true, extent(960, 540)), LauncherAction::Nothing);
    assert!(matches!(l.key_down("escape", false, extent(960, 540)),
        LauncherAction::OpenPill(s) if s.sel.is_none() && s.scope == Scope::Full));
    assert_eq!(l.enter_crop(), LauncherAction::Repaint);
    assert!(l.sel_rect().is_none());
    let mut plain = Launcher::new(LauncherState::default(), None, 2, "");
    assert!(matches!(plain.enter_crop(), LauncherAction::Freeze(s) if s.sel.is_none()));
    assert_eq!(plain.key_down("escape", false, extent(960, 540)), LauncherAction::Quit);
}

#[test]
fn scripts_open_their_windows() {
    assert_eq!(opening("record-start"), Opening::Recording);
    assert_eq!(opening("crop-empty"), Opening::Session);
    assert_eq!(opening(""), Opening::Pill);
    assert_eq!(scripted("crop-refresh", false), Scripted::Refresh);
    assert_eq!(scripted("crop-refresh", true), Scripted::Nothing);
    assert_eq!(scripted("auto-full", false), Scripted::Fire);
    let l = Launcher::new(LauncherState::default(), None, 5, "record-mics");
    assert_eq!((l.mode, l.mic_open, l.mic_ix), (Mode::Record, true, 3));
    let l = Launcher::new(LauncherState::default(), Some((10, 10)), 5, "crop-session");
    assert!(l.sel_rect().is_some());
}

#[test]
fn microphones_are_chosen_and_checked() {
    let found = vec![("usb".to_string(), "A microphone with quite a long description indeed".to_string())];
    let list = mic_choices(&found);
    assert_eq!(list.len(), 3);
    assert_eq!(list[0], (None, "Don't record mic".to_string()));
    assert_eq!(list[2].1.chars().count(), 42);
    assert_eq!(mic_label(&list, 0), "\u{1f3a4} Off");
    assert_eq!(mic_label(&list, 2), "\u{1f3a4} A microphon\u{2026}");
    assert_eq!(recording_options(None, None, &list, 2, true).mic.as_deref(), Some("usb"));
    assert_eq!(truncate("abc", 3), "abc");
    assert_eq!(truncate("abcd", 3), "ab\u{2026}");

    let mut l = Launcher::new(LauncherState::default(), None, list.len(), "");
    l.set_mode(Mode::Record);
    l.toggle_mic_menu();
    assert!(l.shows_mic_menu());
    assert_eq!(l.toggle_mic_test(), LauncherAction::Repaint);
    assert_eq!(l.pick_mic(2), LauncherAction::Repaint);
    assert_eq!(
        l.toggle_mic_test(),
        LauncherAction::StartMicTest { mic_ix: 2, dsp: true, hear: false }
    );
    let first = l.mic_test_started(true).unwrap();
    assert!(l.shows_mic_panel());
    assert!(l.mic_test_tick(first, (-20, -10)));
    assert!(matches!(l.toggle_hear(), LauncherAction::StartMicTest { hear: true, .. }));
    assert!(!l.mic_test_tick(first, (0, 0)));
    let second = l.mic_test_started(true).unwrap();
    assert!(!l.mic_test_tick(first, (0, 0)) && l.mic_test_tick(second, (0, 0)));
    assert!(matches!(l.toggle_dsp(), LauncherAction::StartMicTest { dsp: false, .. }));
    assert_eq!(l.mic_test_started(false), None);
    l.mic_test_started(true);
    assert_eq!(l.pick_mic(0), LauncherAction::Repaint);
    assert!(!l.mic_test);
    l.toggle_system_audio();
    assert!(l.system_audio);
}

#[test]
fn the_meter_spans_the_scale() {
    let m = meter((FLOOR_DB, -3 * S));
    assert_eq!(m.fill, 0);
    assert_eq!(m.color, MeterColor::Red);
    assert_eq!(m.label, "-3 dB");
    assert_eq!(meter((0, 0)).fill, METER_WIDTH);
    assert_eq!(meter((-30 * S, -30 * S)).fill, METER_WIDTH / 2);
    assert_eq!(meter((-30 * S, -30 * S)).tick, METER_WIDTH / 2 - 256);
    assert_eq!(meter((0, -9 * S)).color, MeterColor::Yellow);
    assert_eq!(meter((0, -12 * S)).color, MeterColor::Green);
    assert_eq!(meter((0, -12 * S - S / 2)).label, format!("{:.0} dB", -12.5f32));
    assert_eq!(meter((0, -90 * S)).label, "-60 dB");
}

#[test]
fn resolutions_are_labelled() {
    let all: Vec<&str> = (0..4).map(resolution_label).collect();
    assert_eq!(all, vec!["720p", "1080p", "2K", "Native"]);
    assert_eq!(theme::accent(), 0xd97757);
}

// ---- the annotation editor ----

#[test]
fn a_drag_draws_a_shape_and_undo_takes_it_back() {
    let mut e = Editor::new(200, 100);
    let view = extent(1000, 800);
    let f = e.fit(view).unwrap();
    let p = |x: i128, y: i128| Pos {
        x: (f.ox + x * 256 * f.dw / (200 * 256)) as i32,
        y: (TOOLBAR as i128 + f.oy + y * 256 * f.dh / (100 * 256)) as i32,
    };
    e.mouse_down(p(10, 10), view);
    e.mouse_move(p(50, 40), view);
    assert!(matches!(e.drag_preview(&f), Some(Draft::Frame { ellipse: false, .. })));
    assert_eq!(e.mouse_up(p(50, 40), view), EditorAction::Rerender);
    assert_eq!(e.annotations.len(), 1);
    assert_eq!(e.undo(), EditorAction::Rerender);
    assert!(e.annotations.is_empty());
}

#[test]
fn keys_choose_tools_and_actions() {
    assert_eq!(tool_for_key("o"), Some(Tool::Ellipse));
    assert_eq!(tool_for_key("x"), None);
    let mut e = Editor::new(200, 100);
    e.key_down("a", Some("a"), false, false);
    assert_eq!(e.tool, Tool::Arrow);
    assert_eq!(e.key_down("s", None, true, false), EditorAction::Save);
    assert_eq!(e.key_down("c", None, true, false), EditorAction::Copy);
    assert_eq!(e.key_down("escape", None, false, false), EditorAction::Quit);
    e.fail("Save", "disk full");
    assert!(e.status.unwrap().contains("disk full"));
    assert_eq!(Tool::all().len(), 5);
    assert_eq!(color(0).1, 0xff3b30);
    assert_eq!(stroke(0).0, "S");
}

#[test]
fn typed_text_is_committed() {
    let mut t = Typing { x: 0, y: 0, text: String::new() };
    assert_eq!(t.key("h", Some("h"), false), TypingStep::Changed);
    assert_eq!(t.key("i", Some("i"), false), TypingStep::Changed);
    assert_eq!(t.key("backspace", None, false), TypingStep::Changed);
    assert_eq!(t.text, "h");
    assert_eq!(t.key("enter", None, false), TypingStep::Commit);
    assert_eq!(t.key("escape", None, false), TypingStep::Cancel);
}

#[test]
fn shapes_ignore_the_direction_of_the_drag() {
    let a = shape_from_drag(Tool::Rect, (0, 0), (2560, 5120), make_style("#fff", 1024), 256);
    let b = shape_from_drag(Tool::Rect, (2560, 5120), (0, 0), make_style("#fff", 1024), 256);
    assert!(a.same(&b));
    assert!(matches!(a, Annotation::Rect { w: 2560, h: 5120, .. }));
    assert!(!drag_is_meant((0, 0), (10, 10)));
    let (w, h) = window_size(4000, 3000);
    assert!(w > 0 && h > 0);
}

// ---- the video editor ----

fn editor() -> VideoEditor {
    let info = VideoInfo { duration: 10 * S, width: 640, height: 360, has_audio: true };
    VideoEditor::new(info, true, false)
}

#[test]
fn splits_and_deletes_can_be_undone() {
    let mut v = editor();
    v.seek_to(4 * S);
    v.split_click();
    assert_eq!(v.state.segments.len(), 2);
    v.selection = Selection::VideoSegment(1);
    v.delete_selected_segment();
    assert_eq!(v.state.cuts(), vec![(4 * S, 10 * S)]);
    v.undo();
    assert!(v.state.cuts().is_empty());
    v.redo();
    assert_eq!(v.state.cuts(), vec![(4 * S, 10 * S)]);
    assert_eq!(v.export_plan().keep, vec![(0, 4 * S)]);
}

#[test]
fn playback_skips_what_is_removed() {
    let segments = vec![
        VideoSegment { start: 0, end: 2 * S, removed: false },
        VideoSegment { start: 2 * S, end: 5 * S, removed: true },
        VideoSegment { start: 5 * S, end: 9 * S, removed: false },
    ];
    assert_eq!(skip_removed(&segments, 3 * S), 5 * S);
    assert_eq!(skip_removed(&segments, S), S);
    let mut v = editor();
    assert!(v.toggle_play().contains(&Effect::Play));
    assert!(v.playing);
    v.pump_player(Some(S), false, None);
    assert_eq!(v.playhead, S);
    assert!(v.toggle_play().contains(&Effect::Pause));
}

#[test]
fn zooms_are_added_at_the_playhead() {
    let mut v = editor();
    v.seek_to(5 * S);
    v.add_zoom_at_playhead();
    assert_eq!(v.state.zooms.len(), 1);
    assert_eq!(v.selection, Selection::Zoom(0));
    match v.panel() {
        Panel::Zoom { level, .. } => assert_eq!(level, "2.00\u{d7}"),
        other => panic!("unexpected {other:?}"),
    }
    v.preset_zoom(0, 0);
    assert!(v.state.zooms[0].level > LEVEL_ONE);
    v.remove_zoom(0);
    assert!(v.state.zooms.is_empty());
}

#[test]
fn status_and_names() {
    let mut v = editor();
    assert_eq!(v.status_line(), "0.0s / 10.0s");
    v.seek_to(2 * S + S / 4);
    assert_eq!(v.status_line(), "2.2s / 10.0s");
    assert_eq!(export_file_name("clip"), "clip-edited.mp4");
    v.cues = vec![Cue { start: 0, end: 5 * S as i128, text: "hello".to_string() }];
    assert_eq!(v.shown_cue(), None);
    v.state.burn_cc = true;
    v.has_srt = true;
    assert_eq!(v.shown_cue(), Some(0));
    v.export_finished(Err("boom".to_string()));
    assert_eq!(v.status_line(), "Export failed: boom");
}

#[test]
fn the_ruler_keeps_its_ticks_apart() {
    assert_eq!(fmt_mmss(75 * S), "1:15");
    let rect = timeline_rect(1200 * 256);
    let step = pick_tick_interval(10 * S, rect.width);
    assert_eq!(step, S / 2);
    assert_eq!(pick_tick_interval(10 * S + 1, rect.width), S);
    let ticks = ruler_ticks(&rect, 10 * S);
    assert_eq!(ticks.len(), 21);
    assert_eq!(rect.x_to_time(600 * 256, 10 * S), 5 * S);
    assert_eq!(rect.time_to_x(5 * S, 10 * S), 600 * 256);
}

#[test]
fn playback_starts_behind_the_leading_cut() {
    let mut v = editor();
    v.state.segments = vec![
        VideoSegment { start: 0, end: 2 * SECOND, removed: true },
        VideoSegment { start: 2 * SECOND, end: 6 * SECOND, removed: false },
        VideoSegment { start: 6 * SECOND, end: 10 * SECOND, removed: true },
    ];
    v.playhead = 7 * SECOND;
    assert_eq!(
        v.toggle_play(),
        vec![Effect::Seek(2 * SECOND), Effect::Play, Effect::Repaint]
    );
    assert!(v.playing);
    assert_eq!(v.playhead, 2 * SECOND);
    v.toggle_play();
    v.state.segments[1].removed = true;
    v.toggle_play();
    assert_eq!(v.playhead, 0);
}
