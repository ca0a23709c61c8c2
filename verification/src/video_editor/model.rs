//! The video editor: what playback, keys and buttons do to the edit.
use vstd::prelude::*;
use crate::draw::{pen, typing_view, Tool, Typing, TypingView};
use crate::editor::on_picture;
use crate::error::owned;
use crate::json::maybe;
use crate::math::{seconds_chars, seconds_text};
use crate::spec::StyleView;
use crate::srt::{cue_views, Cue, CueView};
use crate::text;
use crate::video::{VideoInfo, ZoomPoint, LEVEL_ONE};
use crate::video_editor::state::{
    flag_segment, in_kept_segment, law_flag_keeps_tiling, law_split_keeps_tiling, lemma_ordered,
    segment_around, split_segments, splits, tiles, Edge, EditState, EditView, Selection,
    VideoSegment, MAX_LEVEL,
};
use crate::video_editor::undo::{History, HistoryView};
use crate::video_editor::zooms::{
    clamped_zoom, law_placed_zoom_is_apart, law_sorting_orders_zooms, lemma_sorted_members,
    sorted_zooms, zooms_apart, zooms_placed,
};

verus! {

broadcast use vstd::seq_lib::group_seq_properties;

/// A drag on the timeline.
#[derive(Clone, Copy, PartialEq, Eq, Structural, Debug)]
pub enum TimelineDrag {
    SegmentEdge { ix: usize },
    /// The zoom is held this far from its centre.
    ZoomBody { ix: usize, grab_offset: i64 },
    ZoomEdge { ix: usize, edge: Edge },
}

/// A drag of the frame of the selected zoom on the preview.
#[derive(Clone, Copy, PartialEq, Eq, Structural, Debug)]
pub enum PreviewDrag {
    MoveCenter { ix: usize, grab_dx: i64, grab_dy: i64 },
    ResizeLevel { ix: usize },
}

/// What is to be done after an event.
#[derive(Clone, Copy, PartialEq, Eq, Structural, Debug)]
pub enum Effect {
    Seek(i64),
    Play,
    Pause,
    /// Draw the annotations anew.
    Redraw,
    Repaint,
    Transcribe,
    ReloadCues,
    Export,
    Quit,
}

/// How the editor stands.
pub struct VideoEditor {
    pub info: VideoInfo,
    pub has_player: bool,
    pub playhead: i64,
    pub playing: bool,
    pub state: EditState,
    pub history: History,
    pub selection: Selection,
    pub zoom_level_ix: usize,
    pub tool: Option<Tool>,
    pub color_ix: usize,
    pub drag_start: Option<(i64, i64)>,
    pub drag_current: Option<(i64, i64)>,
    pub typing: Option<Typing>,
    pub has_srt: bool,
    pub cc_status: Option<String>,
    pub cc_running: bool,
    pub exporting: bool,
    pub status: Option<String>,
    pub scrubbing: bool,
    pub timeline_drag: Option<TimelineDrag>,
    pub preview_drag: Option<PreviewDrag>,
    pub cues: Vec<Cue>,
}

/// What the editor holds.
#[verifier::ext_equal]
pub struct VideoView {
    pub info: VideoInfo,
    pub has_player: bool,
    pub playhead: i64,
    pub playing: bool,
    pub state: EditView,
    pub history: HistoryView,
    pub selection: Selection,
    pub zoom_level_ix: usize,
    pub tool: Option<Tool>,
    pub color_ix: usize,
    pub drag_start: Option<(i64, i64)>,
    pub drag_current: Option<(i64, i64)>,
    pub typing: Option<TypingView>,
    pub has_srt: bool,
    pub cc_status: Option<Seq<char>>,
    pub cc_running: bool,
    pub exporting: bool,
    pub status: Option<Seq<char>>,
    pub scrubbing: bool,
    pub timeline_drag: Option<TimelineDrag>,
    pub preview_drag: Option<PreviewDrag>,
    pub cues: Seq<CueView>,
}

impl View for VideoEditor {
    type V = VideoView;

    open spec fn view(&self) -> VideoView {
        VideoView {
            info: self.info,
            has_player: self.has_player,
            playhead: self.playhead,
            playing: self.playing,
            state: self.state@,
            history: self.history@,
            selection: self.selection,
            zoom_level_ix: self.zoom_level_ix,
            tool: self.tool,
            color_ix: self.color_ix,
            drag_start: self.drag_start,
            drag_current: self.drag_current,
            typing: typing_view(self.typing),
            has_srt: self.has_srt,
            cc_status: maybe(self.cc_status),
            cc_running: self.cc_running,
            exporting: self.exporting,
            status: maybe(self.status),
            scrubbing: self.scrubbing,
            timeline_drag: self.timeline_drag,
            preview_drag: self.preview_drag,
            cues: cue_views(self.cues@),
        }
    }
}

// ---- the invariant ----

/// A zoom of an allowed level whose centre can be computed with.
pub open spec fn zoom_sound(z: ZoomPoint) -> bool {
    &&& LEVEL_ONE <= z.level <= MAX_LEVEL
    &&& 0 <= z.cx <= 0x100_0000_0000
    &&& 0 <= z.cy <= 0x100_0000_0000
}

pub open spec fn zooms_sound(zooms: Seq<ZoomPoint>) -> bool {
    forall|i: int| 0 <= i < zooms.len() ==> zoom_sound(#[trigger] zooms[i])
}

/// An edit of a video of that duration: the segments tile it, and the zooms
/// are sound and apart.
pub open spec fn edit_ok(e: EditView, duration: int) -> bool {
    &&& tiles(e.segments, duration)
    &&& zooms_placed(e.zooms)
    &&& zooms_apart(e.zooms)
    &&& zooms_sound(e.zooms)
}

/// Every snapshot is such an edit.
pub open spec fn history_ok(h: HistoryView, duration: int) -> bool {
    &&& h.wf()
    &&& forall|i: int| 0 <= i < h.stack.len() ==> edit_ok(#[trigger] h.stack[i], duration)
    &&& forall|i: int| 0 <= i < h.redo.len() ==> edit_ok(#[trigger] h.redo[i], duration)
}

pub open spec fn preview_ok(d: Option<PreviewDrag>) -> bool {
    match d {
        Some(PreviewDrag::MoveCenter { grab_dx, grab_dy, .. }) => -0x200_0000_0000 <= grab_dx
            <= 0x200_0000_0000 && -0x200_0000_0000 <= grab_dy <= 0x200_0000_0000,
        _ => true,
    }
}

/// A video that can be edited.
pub open spec fn info_ok(info: VideoInfo) -> bool {
    0 < info.duration
}

impl VideoView {
    pub open spec fn wf(self) -> bool {
        &&& info_ok(self.info)
        &&& edit_ok(self.state, self.info.duration as int)
        &&& history_ok(self.history, self.info.duration as int)
        &&& 0 <= self.playhead <= self.info.duration
        &&& self.zoom_level_ix < 3
        &&& self.color_ix < 5
        &&& on_picture(self.drag_start, self.info.width, self.info.height)
        &&& on_picture(self.drag_current, self.info.width, self.info.height)
        &&& preview_ok(self.preview_drag)
    }

    /// With the current edit taken into the history.
    pub open spec fn committed(self) -> VideoView {
        VideoView { history: self.history.committed(self.state), ..self }
    }

    pub open spec fn says(self, s: Seq<char>) -> VideoView {
        VideoView { status: Some(s), ..self }
    }

    /// The style of what is drawn next.
    pub open spec fn style(self) -> StyleView<i64> {
        pen(video_color_name(self.color_ix as int), 1280)
    }
}

pub proof fn lemma_commit_ok(h: HistoryView, e: EditView, duration: int)
    requires
        history_ok(h, duration),
        edit_ok(e, duration),
    ensures
        history_ok(h.committed(e), duration),
{
    let after = h.committed(e);
    assert forall|i: int| 0 <= i < after.stack.len() implies edit_ok(
        #[trigger] after.stack[i],
        duration,
    ) by {
        if i < h.stack.len() {
            assert(after.stack[i] == h.stack[i]);
        }
    }
}

proof fn lemma_undo_ok(h: HistoryView, duration: int)
    requires
        history_ok(h, duration),
    ensures
        history_ok(h.undone(), duration),
        history_ok(h.redone(), duration),
        edit_ok(h.undone().current(), duration),
        edit_ok(h.redone().current(), duration),
{
    let u = h.undone();
    let r = h.redone();
    assert forall|i: int| 0 <= i < u.stack.len() implies edit_ok(#[trigger] u.stack[i], duration) by {
        assert(u.stack[i] == h.stack[i]);
    }
    assert forall|i: int| 0 <= i < u.redo.len() implies edit_ok(#[trigger] u.redo[i], duration) by {
        if i < h.redo.len() {
            assert(u.redo[i] == h.redo[i]);
        } else {
            assert(u.redo[i] == h.stack[h.stack.len() - 1]);
        }
    }
    assert forall|i: int| 0 <= i < r.stack.len() implies edit_ok(#[trigger] r.stack[i], duration) by {
        if i < h.stack.len() {
            assert(r.stack[i] == h.stack[i]);
        } else {
            assert(r.stack[i] == h.redo[h.redo.len() - 1]);
        }
    }
    assert forall|i: int| 0 <= i < r.redo.len() implies edit_ok(#[trigger] r.redo[i], duration) by {
        assert(r.redo[i] == h.redo[i]);
    }
    assert(u.current() == u.stack[u.stack.len() - 1]);
    assert(r.current() == r.stack[r.stack.len() - 1]);
}

// ---- presets ----

/// The colors of the toolbar.
pub open spec fn video_color_name(i: int) -> Seq<char> {
    if i == 0 {
        "red"@
    } else if i == 1 {
        "green"@
    } else if i == 2 {
        "blue"@
    } else if i == 3 {
        "yellow"@
    } else {
        "white"@
    }
}

pub open spec fn video_color_value(i: int) -> u32 {
    if i == 0 {
        0xff3b30
    } else if i == 1 {
        0x34c759
    } else if i == 2 {
        0x007aff
    } else if i == 3 {
        0xffcc00
    } else {
        0xffffff
    }
}

pub fn video_color(i: usize) -> (r: (&'static str, u32))
    ensures
        r.0@ == video_color_name(i as int),
        r.1 == video_color_value(i as int),
{
    if i == 0 {
        ("red", 0xff3b30)
    } else if i == 1 {
        ("green", 0x34c759)
    } else if i == 2 {
        ("blue", 0x007aff)
    } else if i == 3 {
        ("yellow", 0xffcc00)
    } else {
        ("white", 0xffffff)
    }
}

/// The preset zoom levels, in millionths, and how they are written.
pub open spec fn preset_level(i: int) -> u32 {
    if i == 0 {
        1_500_000
    } else if i == 1 {
        2_000_000
    } else {
        3_000_000
    }
}

pub open spec fn preset_digits(i: int) -> Seq<char> {
    if i == 0 {
        "1.5"@
    } else if i == 1 {
        "2"@
    } else {
        "3"@
    }
}

pub fn zoom_preset(i: usize) -> (r: (&'static str, u32))
    ensures
        r.0@ == preset_digits(i as int),
        r.1 == preset_level(i as int),
{
    if i == 0 {
        ("1.5", 1_500_000)
    } else if i == 1 {
        ("2", 2_000_000)
    } else {
        ("3", 3_000_000)
    }
}

// ---- playback ----

/// Whether a removed segment holds the time.
pub open spec fn in_removed(segments: Seq<VideoSegment>, t: int) -> bool {
    exists|i: int|
        0 <= i < segments.len() && (#[trigger] segments[i]).removed && segments[i].start <= t
            < segments[i].end
}

/// `r` is the first time from `t` on that no removed segment holds.
pub open spec fn skips_to(segments: Seq<VideoSegment>, t: int, r: int) -> bool {
    &&& t <= r
    &&& !in_removed(segments, r)
    &&& forall|x: int| t <= x < r ==> #[trigger] in_removed(segments, x)
}

/// The first time from `t` on that is not removed.
pub open spec fn skipped(segments: Seq<VideoSegment>, t: int) -> int {
    choose|r: int| #[trigger] skips_to(segments, t, r)
}

/// There is only one such time.
pub proof fn lemma_skip_is_unique(segments: Seq<VideoSegment>, t: int, r: int)
    requires
        skips_to(segments, t, r),
    ensures
        skipped(segments, t) == r,
{
    let s = skipped(segments, t);
    assert(skips_to(segments, t, s));
    if s < r {
        assert(in_removed(segments, s));
    }
    if r < s {
        assert(in_removed(segments, r));
    }
}

fn removed_end(segments: &Vec<VideoSegment>, t: i64) -> (r: Option<i64>)
    ensures
        match r {
            Some(e) => t < e && exists|i: int|
                0 <= i < segments@.len() && (#[trigger] segments@[i]).removed
                    && segments@[i].start <= t && segments@[i].end == e,
            None => !in_removed(segments@, t as int),
        },
{
    let mut i: usize = 0;
    while i < segments.len()
        invariant
            i <= segments@.len(),
            forall|k: int|
                0 <= k < i ==> !((#[trigger] segments@[k]).removed && segments@[k].start <= t
                    < segments@[k].end),
        decreases segments.len() - i,
    {
        let s = segments[i];
        if s.removed && s.start <= t && t < s.end {
            assert(segments@[i as int].removed);
            return Some(s.end);
        }
        i += 1;
    }
    None
}

/// The first time from `t` on that is not removed: adjacent removed segments
/// are skipped in one go.
pub fn skip_removed(segments: &Vec<VideoSegment>, t: i64) -> (r: i64)
    ensures
        r == skipped(segments@, t as int),
        skips_to(segments@, t as int, r as int),
{
    let mut at: i64 = t;
    loop
        invariant_except_break
            t <= at,
            forall|x: int| t <= x < at ==> #[trigger] in_removed(segments@, x),
        ensures
            skips_to(segments@, t as int, at as int),
        decreases i64::MAX - at,
    {
        match removed_end(segments, at) {
            Some(e) => {
                proof {
                    let k = choose|k: int|
                        0 <= k < segments@.len() && (#[trigger] segments@[k]).removed
                            && segments@[k].start <= at && segments@[k].end == e;
                    assert forall|x: int| t <= x < e implies #[trigger] in_removed(
                        segments@,
                        x,
                    ) by {
                        if x >= at {
                            assert(segments@[k].removed && segments@[k].start <= x
                                < segments@[k].end);
                        }
                    }
                }
                at = e;
            },
            None => {
                break;
            },
        }
    }
    proof {
        lemma_skip_is_unique(segments@, t as int, at as int);
    }
    at
}

/// In a tiled timeline, what is skipped to is the end of the video or lies in
/// a segment that is kept.
pub proof fn law_playback_stays_on_kept(segments: Seq<VideoSegment>, t: int, r: int, duration: int)
    requires
        tiles(segments, duration),
        0 <= t <= duration,
        skips_to(segments, t, r),
        r < duration,
    ensures
        in_kept_segment(segments, r),
{
    lemma_holds(segments, r, segments.len() as int, duration);
    let k = choose|k: int|
        0 <= k < segments.len() && (#[trigger] segments[k]).start <= r < segments[k].end;
    assert(!segments[k].removed);
}

proof fn lemma_holds(segments: Seq<VideoSegment>, x: int, n: int, duration: int)
    requires
        tiles(segments, duration),
        0 < n <= segments.len(),
        0 <= x < segments[n - 1].end,
    ensures
        exists|k: int| 0 <= k < n && (#[trigger] segments[k]).start <= x < segments[k].end,
    decreases n,
{
    if segments[n - 1].start <= x {
        assert(segments[n - 1].start <= x < segments[n - 1].end);
    } else {
        assert(n > 1);
        assert(segments[n - 2].end == segments[n - 1].start);
        lemma_holds(segments, x, n - 1, duration);
    }
}

impl VideoView {
    /// After a frame of time `t` was shown: while playing, the playhead
    /// follows it, over removed segments. The flag tells that the end was
    /// reached.
    pub open spec fn shown(self, t: i64) -> (VideoView, Seq<Effect>, bool) {
        let target = skipped(self.state.segments, t as int);
        if !self.playing {
            (self, seq![Effect::Repaint], false)
        } else if target >= self.info.duration {
            (self, seq![Effect::Repaint], true)
        } else {
            (
                VideoView { playhead: target as i64, ..self },
                if target != t && self.has_player {
                    seq![Effect::Seek(target as i64), Effect::Repaint]
                } else {
                    seq![Effect::Repaint]
                },
                false,
            )
        }
    }

    /// After the end was reached: back to the start, paused.
    pub open spec fn ended(self) -> (VideoView, Seq<Effect>) {
        (
            VideoView { playing: false, playhead: 0, ..self },
            if self.has_player {
                seq![Effect::Pause, Effect::Seek(0), Effect::Repaint]
            } else {
                seq![Effect::Repaint]
            },
        )
    }

    /// After what the player told: its newest frame, whether it came to the
    /// end, and its last error.
    pub open spec fn pumped(self, t: Option<i64>, eos: bool, error: Option<Seq<char>>) -> (
        VideoView,
        Seq<Effect>,
    ) {
        let (a, fa, hit) = match t {
            Some(t) => self.shown(t),
            None => (self, Seq::empty(), false),
        };
        let (b, fb) = if eos || hit {
            a.ended()
        } else {
            (a, Seq::empty())
        };
        match error {
            Some(e) => (b.says("Preview error: "@ + e), fa + fb + seq![Effect::Repaint]),
            None => (b, fa + fb),
        }
    }

    /// Where playback starts: at the playhead, or at the beginning if nothing
    /// is left behind it, and never inside of a removed segment, unless all of
    /// them are.
    pub open spec fn play_from(self) -> int {
        let t = if self.playhead >= self.info.duration - 50_000_000 {
            0
        } else {
            self.playhead as int
        };
        let s = skipped(self.state.segments, t);
        let first = skipped(self.state.segments, 0);
        if s < self.info.duration {
            s
        } else if first < self.info.duration {
            first
        } else {
            0
        }
    }

    /// After Play or Pause.
    pub open spec fn play_toggled(self) -> (VideoView, Seq<Effect>) {
        if !self.has_player {
            (self, Seq::empty())
        } else if self.playing {
            (
                VideoView { playing: false, ..self },
                seq![Effect::Pause, Effect::Repaint],
            )
        } else {
            let t = self.play_from();
            (
                VideoView { playing: true, playhead: t as i64, ..self },
                if t != self.playhead {
                    seq![Effect::Seek(t as i64), Effect::Play, Effect::Repaint]
                } else {
                    seq![Effect::Play, Effect::Repaint]
                },
            )
        }
    }
}

proof fn lemma_skip_exists(segments: Seq<VideoSegment>, t: int, bound: int)
    requires
        t <= bound,
        !in_removed(segments, bound),
    ensures
        skips_to(segments, t, skipped(segments, t)),
        skipped(segments, t) <= bound,
    decreases bound - t,
{
    if in_removed(segments, t) {
        lemma_skip_exists(segments, t + 1, bound);
        let r = skipped(segments, t + 1);
        assert(skips_to(segments, t, r));
    } else {
        assert(skips_to(segments, t, t));
    }
    let s = skipped(segments, t);
    assert(skips_to(segments, t, s));
    if bound < s {
        assert(in_removed(segments, bound));
    }
}

/// Playback starts inside of a kept segment and outside of the removed ones,
/// as long as there is a kept one.
pub proof fn law_play_starts_on_kept(v: VideoView, kept: int)
    requires
        v.wf(),
        0 <= kept < v.state.segments.len(),
        !v.state.segments[kept].removed,
    ensures
        in_kept_segment(v.state.segments, v.play_from()),
        !in_removed(v.state.segments, v.play_from()),
{
    let segments = v.state.segments;
    let duration = v.info.duration as int;
    let first = segments[kept].start as int;
    lemma_ordered(segments, duration);
    assert(0 <= first < duration);
    assert forall|i: int| 0 <= i < segments.len() && (#[trigger] segments[i]).removed implies !(
    segments[i].start <= first < segments[i].end) && segments[i].end <= duration by {
        if i < kept {
            assert(segments[i].end <= segments[kept].start);
        } else {
            assert(segments[kept].end <= segments[i].start);
        }
    }
    let t = if v.playhead >= duration - 50_000_000 {
        0
    } else {
        v.playhead as int
    };
    lemma_skip_exists(segments, t, duration);
    lemma_skip_exists(segments, 0, first);
    let r = if skipped(segments, t) < duration {
        skipped(segments, t)
    } else {
        skipped(segments, 0)
    };
    if skipped(segments, t) < duration {
        law_playback_stays_on_kept(segments, t, r, duration);
    } else {
        law_playback_stays_on_kept(segments, 0, r, duration);
    }
}

impl VideoEditor {
    /// An editor of a video, with the captions next to it if there are any.
    pub fn new(info: VideoInfo, has_player: bool, has_srt: bool) -> (r: VideoEditor)
        requires
            info_ok(info),
        ensures
            r@.wf(),
            r@.info == info,
            r@.state.segments == seq![
                VideoSegment { start: 0, end: info.duration, removed: false },
            ],
            r@.state.zooms.len() == 0,
            r@.state.annotations.len() == 0,
            !r@.state.burn_cc,
            r@.history == (HistoryView { stack: seq![r@.state], redo: Seq::empty() }),
            r@.playhead == 0 && !r@.playing,
            r@.selection == Selection::Nothing,
            r@.zoom_level_ix == 1 && r@.color_ix == 0,
            r@.tool is None && r@.typing is None && r@.drag_start is None,
            r@.timeline_drag is None && r@.preview_drag is None,
            r@.drag_current is None && !r@.scrubbing && !r@.exporting && !r@.cc_running,
            r@.cc_status is None && r@.cues.len() == 0,
            r@.has_player == has_player && r@.has_srt == has_srt,
            r@.status == (if has_player {
                None
            } else {
                Some("Preview unavailable: player failed to start"@)
            }),
    {
        let state = EditState::new(info.duration);
        let history = History::new(state.duplicate());
        let status: Option<String> = if has_player {
            None
        } else {
            Some(owned("Preview unavailable: player failed to start"))
        };
        VideoEditor {
            info,
            has_player,
            playhead: 0,
            playing: false,
            state,
            history,
            selection: Selection::Nothing,
            zoom_level_ix: 1,
            tool: None,
            color_ix: 0,
            drag_start: None,
            drag_current: None,
            typing: None,
            has_srt,
            cc_status: None,
            cc_running: false,
            exporting: false,
            status,
            scrubbing: false,
            timeline_drag: None,
            preview_drag: None,
            cues: Vec::new(),
        }
    }

    /// Take the current edit into the history.
    pub fn commit(&mut self)
        requires
            old(self)@.wf(),
        ensures
            final(self)@ == old(self)@.committed(),
            final(self)@.wf(),
    {
        let copy = self.state.duplicate();
        proof {
            lemma_commit_ok(self.history@, self.state@, self.info.duration as int);
        }
        self.history.commit(copy);
    }

    /// Take what the player told since the last time.
    pub fn pump_player(&mut self, frame: Option<i64>, eos: bool, error: Option<&str>) -> (r: Vec<
        Effect,
    >)
        requires
            old(self)@.wf(),
            frame matches Some(t) ==> t >= 0,
        ensures
            (final(self)@, r@) == old(self)@.pumped(
                frame,
                eos,
                match error {
                    Some(e) => Some(e@),
                    None => None,
                },
            ),
            final(self)@.wf(),
    {
        let ghost start = self@;
        let mut out: Vec<Effect> = Vec::new();
        let mut over: bool = eos;
        if let Some(t) = frame {
            if self.playing {
                let target: i64 = skip_removed(&self.state.segments, t);
                if target >= self.info.duration {
                    over = true;
                } else {
                    self.playhead = target;
                    if target != t && self.has_player {
                        out.push(Effect::Seek(target));
                    }
                }
            }
            out.push(Effect::Repaint);
        }
        let ghost a = self@;
        assert(a == (match frame {
            Some(t) => start.shown(t).0,
            None => start,
        }));
        assert(out@ =~= (match frame {
            Some(t) => start.shown(t).1,
            None => Seq::empty(),
        }));
        if over {
            self.playing = false;
            self.playhead = 0;
            if self.has_player {
                out.push(Effect::Pause);
                out.push(Effect::Seek(0));
            }
            out.push(Effect::Repaint);
        }
        if let Some(e) = error {
            let mut m = owned("Preview error: ");
            m.append(e);
            self.status = Some(m);
            out.push(Effect::Repaint);
        }
        assert(out@ =~= start.pumped(
            frame,
            eos,
            match error {
                Some(e) => Some(e@),
                None => None,
            },
        ).1);
        out
    }

    /// Play or pause.
    pub fn toggle_play(&mut self) -> (r: Vec<Effect>)
        requires
            old(self)@.wf(),
        ensures
            (final(self)@, r@) == old(self)@.play_toggled(),
            final(self)@.wf(),
    {
        let ghost start = self@;
        let mut out: Vec<Effect> = Vec::new();
        if !self.has_player {
            assert(out@ =~= Seq::empty());
            return out;
        }
        if self.playing {
            self.playing = false;
            out.push(Effect::Pause);
        } else {
            self.playing = true;
            let from: i64 = if self.playhead >= self.info.duration - 50_000_000 {
                0
            } else {
                self.playhead
            };
            let mut t: i64 = skip_removed(&self.state.segments, from);
            if t >= self.info.duration {
                t = skip_removed(&self.state.segments, 0);
            }
            if t >= self.info.duration {
                t = 0;
            }
            if t != self.playhead {
                self.playhead = t;
                out.push(Effect::Seek(t));
            }
            out.push(Effect::Play);
        }
        out.push(Effect::Repaint);
        assert(out@ =~= start.play_toggled().1);
        out
    }
}

// ---- edits ----

/// A time said in a message.
pub open spec fn at_text(head: Seq<char>, t: int) -> Seq<char> {
    head + seconds_text(t) + "s"@
}

fn say_time(head: &str, t: i64) -> (r: String)
    ensures
        r@ == at_text(head@, t as int),
{
    let mut m = owned(head);
    let c = seconds_chars(t);
    let s = text::from_chars(c.as_slice());
    m.append(s.as_str());
    m.append("s");
    m
}

/// The length of a new zoom: three seconds.
pub const NEW_ZOOM: i64 = 3_000_000_000;

impl VideoView {
    /// After splitting at the playhead.
    pub open spec fn split(self) -> (VideoView, Seq<Effect>) {
        let t = self.playhead;
        match segment_around(self.state.segments, t as int, 0) {
            Some(i) => if splits(self.state.segments[i], t as int) {
                (
                    VideoView {
                        state: EditView {
                            segments: split_segments(self.state.segments, i, t),
                            ..self.state
                        },
                        ..self
                    }.committed().says(at_text("Split at "@, t as int)),
                    seq![Effect::Repaint],
                )
            } else {
                (self, Seq::empty())
            },
            None => (self, Seq::empty()),
        }
    }

    /// After segment `i` was removed or restored.
    pub open spec fn flagged(self, i: int, removed: bool) -> VideoView {
        VideoView {
            state: EditView {
                segments: flag_segment(self.state.segments, i, removed),
                ..self.state
            },
            ..self
        }.committed()
    }

    /// After Delete: the selected segment is removed.
    pub open spec fn deleted(self) -> (VideoView, Seq<Effect>) {
        match self.selection {
            Selection::VideoSegment(i) => (self.flagged(i as int, true), seq![Effect::Repaint]),
            _ => (self, Seq::empty()),
        }
    }

    /// The zoom that is added at the playhead: of the preset level, in the
    /// middle of the picture.
    pub open spec fn new_zoom(self) -> ZoomPoint {
        clamped_zoom(
            self.state.zooms,
            ZoomPoint {
                t: self.playhead,
                cx: (self.info.width * 128) as i64,
                cy: (self.info.height * 128) as i64,
                level: preset_level(self.zoom_level_ix as int),
                duration: NEW_ZOOM,
            },
            None,
            self.info.duration as int,
        )
    }

    /// After a zoom was added and came to place `ix`.
    pub open spec fn zoom_added(self, ix: usize) -> VideoView {
        VideoView {
            state: EditView {
                zooms: sorted_zooms(self.state.zooms.push(self.new_zoom())),
                ..self.state
            },
            selection: Selection::Zoom(ix),
            ..self
        }.committed().says(
            at_text(
                "Zoom "@ + preset_digits(self.zoom_level_ix as int) + "\u{d7} added at "@,
                self.playhead as int,
            ),
        )
    }

    /// With a selection that no longer names anything dropped.
    pub open spec fn reselected(self) -> VideoView {
        let gone = match self.selection {
            Selection::Nothing => false,
            Selection::VideoSegment(i) => i >= self.state.segments.len(),
            Selection::Zoom(i) => i >= self.state.zooms.len(),
        };
        if gone {
            VideoView { selection: Selection::Nothing, ..self }
        } else {
            self
        }
    }

    /// After Undo.
    pub open spec fn undone(self) -> (VideoView, Seq<Effect>) {
        if self.history.stack.len() <= 1 {
            (self, Seq::empty())
        } else {
            let h = self.history.undone();
            (
                VideoView { history: h, state: h.current(), ..self }.reselected(),
                seq![Effect::Redraw],
            )
        }
    }

    /// After Redo.
    pub open spec fn redone(self) -> (VideoView, Seq<Effect>) {
        if self.history.redo.len() == 0 {
            (self, Seq::empty())
        } else {
            let h = self.history.redone();
            (
                VideoView { history: h, state: h.current(), ..self }.reselected(),
                seq![Effect::Redraw],
            )
        }
    }
}

proof fn lemma_added_sound(zooms: Seq<ZoomPoint>, z: ZoomPoint)
    requires
        zooms_sound(zooms),
        zoom_sound(z),
    ensures
        zooms_sound(sorted_zooms(zooms.push(z))),
{
    let all = zooms.push(z);
    lemma_sorted_members(all);
    law_sorting_orders_zooms(all);
    let s = sorted_zooms(all);
    assert forall|i: int| 0 <= i < s.len() implies zoom_sound(#[trigger] s[i]) by {
        assert(all.contains(s[i]));
        let m = choose|m: int| 0 <= m < all.len() && all[m] == s[i];
        if m < zooms.len() {
            assert(zooms[m] == s[i]);
        }
    }
}

impl VideoEditor {
    /// Split the video at the playhead.
    pub fn split_click(&mut self) -> (r: Vec<Effect>)
        requires
            old(self)@.wf(),
        ensures
            (final(self)@, r@) == old(self)@.split(),
            final(self)@.wf(),
    {
        let ghost start = self@;
        let mut out: Vec<Effect> = Vec::new();
        let t: i64 = self.playhead;
        let ghost around = segment_around(self@.state.segments, t as int, 0);
        proof {
            lemma_around(self@.state.segments, t as int, 0);
        }
        if self.state.split_at(t) {
            proof {
                law_split_keeps_tiling(
                    start.state.segments,
                    around->0,
                    t,
                    start.info.duration as int,
                );
            }
            self.commit();
            self.status = Some(say_time("Split at ", t));
            out.push(Effect::Repaint);
        }
        assert(out@ =~= start.split().1);
        out
    }

    /// Remove the selected segment.
    pub fn delete_selected_segment(&mut self) -> (r: Vec<Effect>)
        requires
            old(self)@.wf(),
        ensures
            (final(self)@, r@) == old(self)@.deleted(),
            final(self)@.wf(),
    {
        let ghost start = self@;
        let mut out: Vec<Effect> = Vec::new();
        if let Selection::VideoSegment(i) = self.selection {
            self.set_removed(i, true);
            out.push(Effect::Repaint);
        }
        assert(out@ =~= start.deleted().1);
        out
    }

    /// Remove or restore a segment.
    pub fn set_removed(&mut self, ix: usize, removed: bool)
        requires
            old(self)@.wf(),
        ensures
            final(self)@ == old(self)@.flagged(ix as int, removed),
            final(self)@.wf(),
    {
        proof {
            law_flag_keeps_tiling(
                self@.state.segments,
                ix as int,
                removed,
                self.info.duration as int,
            );
        }
        if removed {
            self.state.delete_segment(ix);
        } else {
            self.state.restore_segment(ix);
        }
        self.commit();
    }

    /// Add a zoom at the playhead and select it.
    pub fn add_zoom_at_playhead(&mut self) -> (r: Vec<Effect>)
        requires
            old(self)@.wf(),
        ensures
            ({
                let z = old(self)@.new_zoom();
                exists|ix: usize|
                    final(self)@ == #[trigger] old(self)@.zoom_added(ix) && ix
                        < final(self)@.state.zooms.len() && final(self)@.state.zooms[ix as int] == z
                        && forall|k: int| 0 <= k < ix ==> final(self)@.state.zooms[k] != z
            }),
            r@ == seq![Effect::Redraw],
            final(self)@.wf(),
    {
        let ghost start = self@;
        let preset = zoom_preset(self.zoom_level_ix);
        let ghost raw = ZoomPoint {
            t: self.playhead,
            cx: (self.info.width * 128) as i64,
            cy: (self.info.height * 128) as i64,
            level: preset.1,
            duration: NEW_ZOOM,
        };
        proof {
            law_placed_zoom_is_apart(
                self@.state.zooms,
                raw,
                (raw.start(), raw.end()),
                None,
                self.info.duration as int,
            );
            lemma_added_sound(self@.state.zooms, start.new_zoom());
        }
        let ix: usize = self.state.add_zoom(
            self.playhead,
            self.info.width as i64 * 128,
            self.info.height as i64 * 128,
            preset.1,
            NEW_ZOOM,
            self.info.duration,
        );
        self.selection = Selection::Zoom(ix);
        self.commit();
        let mut head = owned("Zoom ");
        head.append(preset.0);
        head.append("\u{d7} added at ");
        let m = say_time(head.as_str(), self.playhead);
        self.status = Some(m);
        assert(self@ == start.zoom_added(ix));
        let mut out: Vec<Effect> = Vec::new();
        out.push(Effect::Redraw);
        out
    }

    /// Drop a selection that no longer names anything.
    pub fn clamp_selection(&mut self)
        ensures
            final(self)@ == old(self)@.reselected(),
    {
        let gone: bool = match self.selection {
            Selection::Nothing => false,
            Selection::VideoSegment(i) => i >= self.state.segments.len(),
            Selection::Zoom(i) => i >= self.state.zooms.len(),
        };
        if gone {
            self.selection = Selection::Nothing;
        }
    }

    pub fn undo(&mut self) -> (r: Vec<Effect>)
        requires
            old(self)@.wf(),
        ensures
            (final(self)@, r@) == old(self)@.undone(),
            final(self)@.wf(),
    {
        let ghost start = self@;
        let mut out: Vec<Effect> = Vec::new();
        proof {
            lemma_undo_ok(self.history@, self.info.duration as int);
        }
        let copy = match self.history.undo() {
            Some(s) => Some(s.duplicate()),
            None => None,
        };
        if let Some(s) = copy {
            self.state = s;
            self.clamp_selection();
            out.push(Effect::Redraw);
        }
        assert(out@ =~= start.undone().1);
        out
    }

    pub fn redo(&mut self) -> (r: Vec<Effect>)
        requires
            old(self)@.wf(),
        ensures
            (final(self)@, r@) == old(self)@.redone(),
            final(self)@.wf(),
    {
        let ghost start = self@;
        let mut out: Vec<Effect> = Vec::new();
        proof {
            lemma_undo_ok(self.history@, self.info.duration as int);
        }
        let copy = match self.history.redo() {
            Some(s) => Some(s.duplicate()),
            None => None,
        };
        if let Some(s) = copy {
            self.state = s;
            self.clamp_selection();
            out.push(Effect::Redraw);
        }
        assert(out@ =~= start.redone().1);
        out
    }
}

proof fn lemma_around(segments: Seq<VideoSegment>, t: int, from: int)
    requires
        0 <= from,
    ensures
        segment_around(segments, t, from) matches Some(i) ==> from <= i < segments.len()
            && segments[i].start < t < segments[i].end,
    decreases segments.len() - from,
{
    if from < segments.len() && !(segments[from].start < t < segments[from].end) {
        lemma_around(segments, t, from + 1);
    }
}

/// A split at the playhead cuts the segment around it in two that meet there,
/// as one edit that an undo takes back. Closer than a tenth of a second to a
/// boundary it does nothing.
pub proof fn law_split_cuts_at_the_playhead(v: VideoView, i: int)
    requires
        v.wf(),
        v.history.current() == v.state,
        0 <= i < v.state.segments.len(),
        v.state.segments[i].start < v.playhead < v.state.segments[i].end,
    ensures
        ({
            let s = v.state.segments[i];
            let room = v.playhead - s.start >= 100_000_000 && s.end - v.playhead >= 100_000_000;
            let after = v.split().0;
            &&& !room ==> after == v
            &&& room ==> {
                &&& after.state.segments.len() == v.state.segments.len() + 1
                &&& after.state.segments[i].start == s.start
                &&& after.state.segments[i].end == v.playhead
                &&& after.state.segments[i + 1].start == v.playhead
                &&& after.state.segments[i + 1].end == s.end
                &&& after.state.segments[i].removed == s.removed
                &&& after.state.segments[i + 1].removed == s.removed
                &&& after.state.zooms == v.state.zooms
                &&& after.state.annotations == v.state.annotations
                &&& after.undone().0.state == v.state
            }
        }),
{
    crate::video_editor::state::law_one_segment_around(
        v.state.segments,
        v.playhead as int,
        i,
        v.info.duration as int,
    );
    let after = v.split().0;
    if splits(v.state.segments[i], v.playhead as int) {
        assert(after.state.segments.len() != v.state.segments.len());
        assert(after.history.stack.drop_last() =~= v.history.stack);
        assert(after.undone().0.state == after.history.undone().current());
    }
}

/// Deleting takes the selected segment out of the video, and no other; an undo
/// brings it back.
pub proof fn law_delete_removes_the_selected_segment(v: VideoView, i: usize, j: int)
    requires
        v.history.wf(),
        v.history.current() == v.state,
        v.selection == Selection::VideoSegment(i),
        i < v.state.segments.len(),
        !v.state.segments[i as int].removed,
        0 <= j < v.state.segments.len(),
    ensures
        ({
            let after = v.deleted().0;
            &&& after.state.segments.len() == v.state.segments.len()
            &&& after.state.segments[i as int].removed
            &&& after.state.segments[j].start == v.state.segments[j].start
            &&& after.state.segments[j].end == v.state.segments[j].end
            &&& j != i ==> after.state.segments[j] == v.state.segments[j]
            &&& after.undone().0.state == v.state
            &&& after.playhead == v.playhead
        }),
{
    let after = v.deleted().0;
    assert(after.state.segments[i as int] != v.state.segments[i as int]);
    assert(after.history.stack.drop_last() =~= v.history.stack);
}

/// While it plays, the preview shows the frame that came unless a removed
/// segment holds its time; then it goes on at the end of what was removed, and
/// the player is sent there. It ends with the video, at its start.
pub proof fn law_playback_skips_what_was_removed(v: VideoView, t: i64, r: int)
    requires
        v.playing,
        t >= 0,
        r >= t,
        forall|i: int|
            0 <= i < v.state.segments.len() && (#[trigger] v.state.segments[i]).removed ==> !(
            v.state.segments[i].start <= r < v.state.segments[i].end),
        forall|x: int| t <= x < r ==> #[trigger] in_removed(v.state.segments, x),
    ensures
        in_removed(v.state.segments, t as int) <==> exists|i: int|
            0 <= i < v.state.segments.len() && (#[trigger] v.state.segments[i]).removed
                && v.state.segments[i].start <= t < v.state.segments[i].end,
        r < v.info.duration ==> ({
            let (next, effects, hit) = v.shown(t);
            &&& next.playhead == r && next.playing && !hit
            &&& r == t ==> effects == seq![Effect::Repaint]
            &&& r != t && v.has_player ==> effects[0] == Effect::Seek(r as i64)
        }),
        r >= v.info.duration ==> ({
            let (next, effects) = v.pumped(Some(t), false, None);
            !next.playing && next.playhead == 0
        }),
        v.pumped(None, true, None).0.playhead == 0 && !v.pumped(None, true, None).0.playing,
{
    let segments = v.state.segments;
    assert(!in_removed(segments, r));
    assert(skips_to(segments, t as int, r));
    let s = skipped(segments, t as int);
    assert(skips_to(segments, t as int, s));
    if s < r {
        assert(in_removed(segments, s));
    }
    if r < s {
        assert(in_removed(segments, r));
    }
}

/// Playing and pausing take turns where there is a player. From within the
/// last twentieth of a second, playing begins at the start again; else at the
/// playhead, if it is on something that is kept.
pub proof fn law_play_and_pause_take_turns(v: VideoView)
    requires
        v.has_player,
        v.wf(),
    ensures
        v.play_toggled().0.playing == !v.playing,
        v.playing ==> v.play_toggled().1[0] == Effect::Pause && v.play_toggled().0.playhead
            == v.playhead,
        !v.playing ==> v.play_toggled().1.contains(Effect::Play),
        !v.playing && v.playhead < v.info.duration - 50_000_000 && (forall|i: int|
            0 <= i < v.state.segments.len() && (#[trigger] v.state.segments[i]).removed ==> !(
            v.state.segments[i].start <= v.playhead < v.state.segments[i].end)) ==> v.play_toggled().0.playhead
            == v.playhead,
        !v.playing && v.playhead >= v.info.duration - 50_000_000 && (forall|i: int|
            0 <= i < v.state.segments.len() ==> !(#[trigger] v.state.segments[i]).removed)
            ==> v.play_toggled().0.playhead == 0,
{
    let segments = v.state.segments;
    if !v.playing {
        let effects = v.play_toggled().1;
        if v.play_from() != v.playhead {
            assert(effects[1] == Effect::Play);
        } else {
            assert(effects[0] == Effect::Play);
        }
        if v.playhead < v.info.duration - 50_000_000 && (forall|i: int|
            0 <= i < segments.len() && (#[trigger] segments[i]).removed ==> !(segments[i].start
                <= v.playhead < segments[i].end)) {
            assert(!in_removed(segments, v.playhead as int));
            lemma_not_skipped(segments, v.playhead as int);
        }
        if v.playhead >= v.info.duration - 50_000_000 && (forall|i: int|
            0 <= i < segments.len() ==> !(#[trigger] segments[i]).removed) {
            assert(!in_removed(segments, 0));
            lemma_not_skipped(segments, 0);
        }
    }
}

proof fn lemma_not_skipped(segments: Seq<VideoSegment>, t: int)
    requires
        !in_removed(segments, t),
    ensures
        skipped(segments, t) == t,
{
    assert(skips_to(segments, t, t));
    let s = skipped(segments, t);
    assert(skips_to(segments, t, s));
    if t < s {
        assert(in_removed(segments, t));
    }
}

/// A new zoom is centred at the playhead and on the middle of the picture, has
/// the level that is picked and lasts three seconds, where there is room.
pub proof fn law_new_zoom_is_at_the_playhead(v: VideoView)
    requires
        v.wf(),
        1_500_000_000 <= v.playhead <= v.info.duration - 1_500_000_000,
        forall|i: int|
            0 <= i < v.state.zooms.len() ==> (#[trigger] v.state.zooms[i]).end() <= v.playhead
                - 1_500_000_000 || v.state.zooms[i].start() >= v.playhead + 1_500_000_000,
    ensures
        v.new_zoom().t == v.playhead,
        v.new_zoom().duration == 3_000_000_000,
        v.new_zoom().cx == v.info.width * 128,
        v.new_zoom().cy == v.info.height * 128,
        v.new_zoom().level == (if v.zoom_level_ix == 0 {
            1_500_000u32
        } else if v.zoom_level_ix == 1 {
            2_000_000u32
        } else {
            3_000_000u32
        }),
{
    let z = ZoomPoint {
        t: v.playhead,
        cx: (v.info.width * 128) as i64,
        cy: (v.info.height * 128) as i64,
        level: preset_level(v.zoom_level_ix as int),
        duration: NEW_ZOOM,
    };
    crate::video_editor::zooms::law_free_zoom_is_unchanged(
        v.state.zooms,
        z,
        None,
        v.info.duration as int,
    );
}

/// The swatch of a color shows what is drawn in it.
pub proof fn law_video_swatches_show_their_colors(i: int)
    requires
        0 <= i < 5,
    ensures
        crate::color::color_of(video_color_name(i)) matches Some(c) && c.a == 255 && c.r * 65536 + c.g
            * 256 + c.b == video_color_value(i),
{
    reveal_strlit("red");
    reveal_strlit("orange");
    reveal_strlit("yellow");
    reveal_strlit("green");
    reveal_strlit("blue");
    reveal_strlit("purple");
    reveal_strlit("pink");
    reveal_strlit("black");
    reveal_strlit("white");
    assert(crate::text::lower(video_color_name(i)) =~= video_color_name(i));
    assert("red"@.len() == 3 && "orange"@.len() == 6 && "yellow"@.len() == 6 && "green"@.len() == 5
        && "blue"@.len() == 4 && "purple"@.len() == 6 && "pink"@.len() == 4 && "black"@.len() == 5
        && "white"@.len() == 5);
    assert("orange"@[0] == 'o' && "yellow"@[0] == 'y' && "green"@[0] == 'g' && "blue"@[0] == 'b'
        && "purple"@[0] == 'p' && "pink"@[0] == 'p' && "black"@[0] == 'b' && "white"@[0] == 'w');
}

/// Adding a zoom adds the one at the playhead and keeps all others; it is
/// selected.
pub proof fn law_added_zoom_joins_the_others(v: VideoView, ix: usize)
    ensures
        v.zoom_added(ix).state.zooms.to_multiset() =~= v.state.zooms.to_multiset().insert(
            v.new_zoom(),
        ),
        v.zoom_added(ix).state.segments == v.state.segments,
        v.zoom_added(ix).state.annotations == v.state.annotations,
        v.zoom_added(ix).selection == Selection::Zoom(ix),
        v.zoom_added(ix).history.current() == v.zoom_added(ix).state,
{
    broadcast use vstd::seq_lib::group_to_multiset_ensures;

    crate::video_editor::zooms::law_sorting_orders_zooms(v.state.zooms.push(v.new_zoom()));
}

} // verus!
