//! The pointer in the video editor: the timeline, the preview, the captions.
use ashot::capture::{OutputData, OutputEvent};
use ashot::draw::Tool;
use ashot::geometry::{Extent, Pos};
use ashot::launcher::{Launcher, LauncherAction, LauncherState, Scope};
use ashot::srt::Cue;
use ashot::video::{VideoInfo, ZoomPoint, LEVEL_ONE, SECOND};
use ashot::video_editor::inspector::Panel;
use ashot::video_editor::model::{Effect, VideoEditor};
use ashot::video_editor::preview::{window_size, TIMELINE};
use ashot::video_editor::state::{Selection, VideoSegment};
use ashot::video_editor::timeline::{
    cue_spans, segment_cells, thumb_spans, timeline_rect, waveform_bars, zoom_cells, TimelineRect,
};
use ashot::editor::{Draft, TOOLBAR};

const S: i64 = SECOND;
const PX: i32 = 256;

fn editor() -> VideoEditor {
    let info = VideoInfo { duration: 10 * S, width: 640, height: 360, has_audio: true };
    VideoEditor::new(info, true, false)
}

fn rect() -> TimelineRect {
    timeline_rect(1000 * PX)
}

#[test]
fn scrubbing_moves_the_playhead() {
    let mut v = editor();
    assert!(v.scrub_down(&rect(), 500 * PX).contains(&Effect::Seek(5 * S)));
    assert_eq!(v.playhead, 5 * S);
    v.timeline_move(&rect(), 200 * PX);
    assert_eq!(v.playhead, 2 * S);
    v.timeline_up();
    assert!(!v.scrubbing);
    v.timeline_move(&rect(), 900 * PX);
    assert_eq!(v.playhead, 2 * S);
}

#[test]
fn a_boundary_is_dragged_and_committed_once() {
    let mut v = editor();
    v.seek_to(4 * S);
    v.split_click();
    v.segment_down(&rect(), 0, 401 * PX);
    v.timeline_move(&rect(), 600 * PX);
    v.timeline_move(&rect(), 700 * PX);
    v.timeline_up();
    assert_eq!(v.state.segments[0].end, 7 * S);
    v.undo();
    assert_eq!(v.state.segments[0].end, 4 * S);
    v.segment_down(&rect(), 1, 800 * PX);
    assert_eq!(v.selection, Selection::VideoSegment(1));
    match v.panel() {
        Panel::Segment { start, length, button, .. } => {
            assert_eq!((start.as_str(), length.as_str(), button), ("4.00s", "6.00s", "Delete"));
        }
        other => panic!("unexpected {other:?}"),
    }
    v.toggle_segment(1);
    assert!(v.state.segments[1].removed);
    v.toggle_segment(1);
    assert!(!v.state.segments[1].removed);
}

#[test]
fn a_zoom_is_moved_and_stretched() {
    let mut v = editor();
    v.seek_to(5 * S);
    v.add_zoom_at_playhead();
    let (start, end) = v.state.zooms[0].window();
    assert_eq!((start, end), (3 * S + S / 2, 6 * S + S / 2));
    v.zoom_down(&rect(), 0, 500 * PX);
    v.timeline_move(&rect(), 600 * PX);
    v.timeline_up();
    assert_eq!(v.state.zooms[0].t, 6 * S);
    v.zoom_down(&rect(), 0, 750 * PX);
    v.timeline_move(&rect(), 900 * PX);
    v.timeline_up();
    assert_eq!(v.state.zooms[0].window(), (4 * S + S / 2, 9 * S));
}

fn view() -> Extent {
    // The preview then is as large as the video.
    Extent { w: (640 + 260) * PX, h: 360 * PX + TOOLBAR as i32 + TIMELINE as i32 }
}

fn on_video(x: i32, y: i32) -> Pos {
    Pos { x: x * PX, y: y * PX + TOOLBAR as i32 }
}

#[test]
fn shapes_are_drawn_on_the_video() {
    let mut v = editor();
    let f = v.fit(view()).unwrap();
    assert_eq!((f.ox, f.oy, f.dw), (0, 0, 640 * 256));
    v.toggle_tool(Tool::Rect);
    v.preview_down(on_video(10, 10), view());
    v.preview_move(on_video(60, 50), view());
    v.preview_up(on_video(60, 50), view());
    assert_eq!(v.state.annotations.len(), 1);
    v.undo();
    assert!(v.state.annotations.is_empty());
    v.toggle_tool(Tool::Marker);
    assert!(v.preview_down(on_video(20, 20), view()).contains(&Effect::Redraw));
    assert_eq!(v.state.annotations.len(), 1);
    assert!(v.export_plan().overlay);
}

#[test]
fn the_frame_of_a_zoom_is_dragged() {
    let mut v = editor();
    v.seek_to(5 * S);
    v.add_zoom_at_playhead();
    assert_eq!(v.peak_crop_rect(0), Some((160 * 256, 90 * 256, 320 * 256, 180 * 256)));
    v.preview_down(on_video(320, 180), view());
    v.preview_move(on_video(300, 170), view());
    v.preview_up(on_video(300, 170), view());
    assert_eq!((v.state.zooms[0].cx, v.state.zooms[0].cy), (300 * 256, 170 * 256));
    let f = v.fit(view()).unwrap();
    let (x, y, w, h) = v.selected_frame(&f).unwrap();
    assert_eq!((x, y, w, h), (140 * 256, 80 * 256, 320 * 256, 180 * 256));
    v.playhead = 0;
    assert_eq!(v.frame_layout(&f), (0, 0, 640 * 256, 360 * 256));
    v.playhead = 5 * S;
    assert_eq!(v.frame_layout(&f), (-280 * 256, -160 * 256, 1280 * 256, 720 * 256));
}

#[test]
fn lanes_show_what_there_is() {
    let segments = vec![
        VideoSegment { start: 0, end: 4 * S, removed: true },
        VideoSegment { start: 4 * S, end: 10 * S, removed: false },
    ];
    let cells = segment_cells(&rect(), &segments, Selection::VideoSegment(1), 10 * S);
    assert_eq!((cells[0].span.left, cells[0].span.width), (0, 400 * 256));
    assert!(cells[0].removed && !cells[0].selected && cells[1].selected);
    let zooms =
        vec![ZoomPoint { t: 5 * S, cx: 0, cy: 0, level: 3 * LEVEL_ONE / 2, duration: 2 * S }];
    let cells = zoom_cells(&rect(), &zooms, Selection::Nothing, 10 * S);
    assert_eq!(cells[0].label, "1.5\u{d7}");
    assert_eq!((cells[0].span.left, cells[0].span.width), (400 * 256, 200 * 256));
    let cues = vec![Cue { start: S as i128, end: S as i128, text: "x".to_string() }];
    assert_eq!(cue_spans(&rect(), &cues, 10 * S)[0].width, 2 * 256);
    let thumbs = thumb_spans(&rect(), &vec![5 * S / 2, 15 * S / 2], 10 * S);
    assert_eq!((thumbs[0].left, thumbs[0].width), (0, 500 * 256));
    assert_eq!(waveform_bars(&rect(), &vec![(0, 0), (-32768, 32767)]).len(), 2);
}

#[test]
fn captions_are_generated_and_burned() {
    let mut v = editor();
    assert!(v.toggle_captions().contains(&Effect::Transcribe));
    assert!(v.captions_tick("loading"));
    assert_eq!(v.status_line(), "CC: loading");
    assert!(v.captions_finished(Ok(())).contains(&Effect::ReloadCues));
    assert!(v.has_srt && v.state.burn_cc);
    assert!(v.export_plan().burn_captions);
    assert!(!v.captions_tick("late"));
    v.toggle_captions();
    assert!(!v.state.burn_cc);
    let mut v = editor();
    v.generate_captions();
    v.captions_finished(Err("no audio".to_string()));
    assert_eq!(v.status_line(), "CC failed: no audio");
}

#[test]
fn an_export_reports_its_progress() {
    let mut v = editor();
    assert!(v.export().contains(&Effect::Export));
    assert!(v.export().is_empty());
    assert!(v.export_tick(42));
    assert_eq!(v.status_line(), "Exporting\u{2026} 42%");
    v.export_finished(Ok("/tmp/a.mp4".to_string()));
    assert!(!v.export_tick(50));
    assert_eq!(v.status_line(), "Exported \u{2192} /tmp/a.mp4");
}

#[test]
fn outputs_keep_their_current_mode() {
    let mut o = OutputData::default();
    o.event(OutputEvent::Mode { current: true, width: 1920, height: 1080 });
    o.event(OutputEvent::Mode { current: false, width: 640, height: 480 });
    o.event(OutputEvent::Scale(2));
    o.event(OutputEvent::Name("DP-1".to_string()));
    o.event(OutputEvent::LogicalPosition(10, 20));
    o.event(OutputEvent::LogicalSize(960, 540));
    o.event(OutputEvent::Other);
    assert_eq!(o.mode, Some((1920, 1080)));
    assert_eq!((o.scale, o.logical_pos, o.logical_size), (2, Some((10, 20)), Some((960, 540))));
    assert_eq!(o.name.as_deref(), Some("DP-1"));
}

#[test]
fn full_leaves_a_session() {
    let mut l = Launcher::new(LauncherState::default(), Some((10, 10)), 2, "");
    assert!(matches!(l.choose_full(), LauncherAction::OpenPill(s) if s.scope == Scope::Full));
    let state = LauncherState { scope: Scope::Crop, ..LauncherState::default() };
    let mut l = Launcher::new(state, None, 2, "");
    assert_eq!(l.choose_full(), LauncherAction::Repaint);
    assert_eq!(l.scope, Scope::Full);
}

#[test]
fn the_window_grows_with_the_video() {
    let size = window_size(1501, 1001);
    assert_eq!((size.w, size.h), (1417 * 256 + 192, 966 * 256 + 192));
    assert_eq!(window_size(100, 100).w, 1100 * 256);
    assert_eq!(window_size(u32::MAX, u32::MAX).h, 1080 * 256);
}

#[test]
fn drafts_have_fixed_widths() {
    let mut v = editor();
    v.tool = Some(Tool::Rect);
    v.drag_start = Some((0, 0));
    v.drag_current = Some((256, 256));
    let f = v.fit(Extent { w: 1000 * PX, h: 700 * PX }).unwrap();
    assert!(matches!(v.drag_preview(&f), Some(Draft::Frame { border: 2, .. })));
    v.tool = Some(Tool::Arrow);
    assert!(matches!(v.drag_preview(&f), Some(Draft::Arrow { stroke: 1024, .. })));
    v.tool = None;
    assert!(v.drag_preview(&f).is_none());
}
