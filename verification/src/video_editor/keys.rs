//! The video editor's keys, captions and export.
use vstd::prelude::*;
use crate::draw::{make_style, typed, typed_annotation, Tool, TypingStep, TypingView};
use crate::editor::push_annotation;
use crate::error::owned;
use crate::math::{max_i64, max_of, min_of, seconds_chars, seconds_text};
use crate::spec::Annotation;
use crate::text;
use crate::video::{ZoomPoint, SECOND};
use crate::video_editor::model::{video_color, Effect, VideoEditor, VideoView};
use crate::video_editor::state::{cuts_of, keep_of, EditView, Selection};

verus! {

/// The size of typed text: 28 pixels.
pub const TEXT_SIZE: i64 = 7168;

impl VideoView {
    /// After the typed text was taken: it becomes an annotation unless it is
    /// empty.
    pub open spec fn typing_committed(self) -> VideoView {
        match self.typing {
            Some(t) => if t.text.len() == 0 {
                VideoView { typing: None, ..self }
            } else {
                VideoView {
                    typing: None,
                    state: EditView {
                        annotations: self.state.annotations.push(
                            typed_annotation(t, TEXT_SIZE, self.style()),
                        ),
                        ..self.state
                    },
                    ..self
                }.committed()
            },
            None => self,
        }
    }

    /// After the playhead was put at `t`.
    pub open spec fn sought(self, t: int) -> (VideoView, Seq<Effect>) {
        (
            VideoView { playhead: t as i64, ..self },
            if self.has_player {
                seq![Effect::Seek(t as i64), Effect::Repaint]
            } else {
                seq![Effect::Repaint]
            },
        )
    }

    /// After a key while no text is typed.
    pub open spec fn command(self, key: Seq<char>, ctrl: bool, shift: bool) -> (
        VideoView,
        Seq<Effect>,
    ) {
        if key == "space"@ {
            self.play_toggled()
        } else if key == "s"@ {
            self.split()
        } else if key == "delete"@ || key == "backspace"@ {
            self.deleted()
        } else if key == "z"@ && ctrl {
            if shift {
                self.redone()
            } else {
                self.undone()
            }
        } else if key == "escape"@ {
            if self.selection != Selection::Nothing {
                (
                    VideoView { selection: Selection::Nothing, status: None, ..self },
                    seq![Effect::Repaint],
                )
            } else {
                (self, seq![Effect::Quit])
            }
        } else if key == "left"@ {
            self.sought(max_of(self.playhead - SECOND, 0))
        } else if key == "right"@ {
            self.sought(min_of(self.playhead + SECOND, self.info.duration as int))
        } else {
            (self, Seq::empty())
        }
    }

    /// After a key: a text that is being typed takes it first.
    pub open spec fn keyed(
        self,
        key: Seq<char>,
        ch: Option<Seq<char>>,
        ctrl: bool,
        shift: bool,
    ) -> (VideoView, Seq<Effect>) {
        match self.typing {
            Some(t) => {
                let (s, step) = typed(t.text, key, ch, ctrl);
                match step {
                    TypingStep::Commit => (self.typing_committed(), seq![Effect::Redraw]),
                    TypingStep::Cancel => (
                        VideoView { typing: None, ..self },
                        seq![Effect::Redraw],
                    ),
                    TypingStep::Changed => (
                        VideoView { typing: Some(TypingView { text: s, ..t }), ..self },
                        seq![Effect::Redraw],
                    ),
                    TypingStep::Ignored => (self, Seq::empty()),
                }
            },
            None => self.command(key, ctrl, shift),
        }
    }
}

pub(crate) fn one(e: Effect) -> (r: Vec<Effect>)
    ensures
        r@ == seq![e],
{
    let mut out: Vec<Effect> = Vec::new();
    out.push(e);
    assert(out@ =~= seq![e]);
    out
}

impl VideoEditor {
    /// Take the typed text.
    pub fn commit_typing(&mut self) -> (r: Vec<Effect>)
        requires
            old(self)@.wf(),
        ensures
            final(self)@ == old(self)@.typing_committed(),
            r@ == seq![Effect::Redraw],
            final(self)@.wf(),
    {
        let ghost start = self@;
        let taken = self.typing.take();
        if let Some(t) = taken {
            let chars = text::to_chars(t.text.as_str());
            if chars.len() > 0 {
                let style = make_style(video_color(self.color_ix).0, 1280);
                push_annotation(
                    &mut self.state.annotations,
                    Annotation::Text { x: t.x, y: t.y, text: t.text, size: Some(TEXT_SIZE), style },
                );
                self.commit();
            }
        }
        assert(self@ =~= start.typing_committed());
        one(Effect::Redraw)
    }

    /// Put the playhead at a time and show its frame.
    pub fn seek_to(&mut self, t: i64) -> (r: Vec<Effect>)
        requires
            old(self)@.wf(),
            0 <= t <= old(self).info.duration,
        ensures
            (final(self)@, r@) == old(self)@.sought(t as int),
            final(self)@.wf(),
    {
        let ghost start = self@;
        self.playhead = t;
        let mut out: Vec<Effect> = Vec::new();
        if self.has_player {
            out.push(Effect::Seek(t));
        }
        out.push(Effect::Repaint);
        assert(out@ =~= start.sought(t as int).1);
        out
    }

    fn command_key(&mut self, key: &str, ctrl: bool, shift: bool) -> (r: Vec<Effect>)
        requires
            old(self)@.wf(),
        ensures
            (final(self)@, r@) == old(self)@.command(key@, ctrl, shift),
            final(self)@.wf(),
    {
        if text::same_text(key, "space") {
            self.toggle_play()
        } else if text::same_text(key, "s") {
            self.split_click()
        } else if text::same_text(key, "delete") || text::same_text(key, "backspace") {
            self.delete_selected_segment()
        } else if ctrl && text::same_text(key, "z") {
            if shift {
                self.redo()
            } else {
                self.undo()
            }
        } else if text::same_text(key, "escape") {
            if self.selection != Selection::Nothing {
                self.selection = Selection::Nothing;
                self.status = None;
                one(Effect::Repaint)
            } else {
                one(Effect::Quit)
            }
        } else if text::same_text(key, "left") {
            let t: i64 = max_i64(self.playhead - SECOND, 0);
            self.seek_to(t)
        } else if text::same_text(key, "right") {
            let t: i64 = if self.info.duration - self.playhead < SECOND {
                self.info.duration
            } else {
                self.playhead + SECOND
            };
            self.seek_to(t)
        } else {
            let none: Vec<Effect> = Vec::new();
            assert(none@ =~= Seq::empty());
            none
        }
    }

    pub fn key_down(&mut self, key: &str, ch: Option<&str>, ctrl: bool, shift: bool) -> (r: Vec<
        Effect,
    >)
        requires
            old(self)@.wf(),
        ensures
            (final(self)@, r@) == old(self)@.keyed(
                key@,
                match ch {
                    Some(c) => Some(c@),
                    None => None,
                },
                ctrl,
                shift,
            ),
            final(self)@.wf(),
    {
        let ghost start = self@;
        if self.typing.is_none() {
            return self.command_key(key, ctrl, shift);
        }
        let taken = self.typing.take();
        let mut step = TypingStep::Ignored;
        if let Some(mut t) = taken {
            step = t.key(key, ch, ctrl);
            self.typing = Some(t);
        }
        match step {
            TypingStep::Commit => {
                assert(self@ =~= start);
                self.commit_typing()
            },
            TypingStep::Cancel => {
                self.typing = None;
                one(Effect::Redraw)
            },
            TypingStep::Changed => one(Effect::Redraw),
            TypingStep::Ignored => {
                assert(self@ =~= start);
                let none: Vec<Effect> = Vec::new();
                assert(none@ =~= Seq::empty());
                none
            },
        }
    }

    /// Pick a tool, or put it down again.
    pub fn toggle_tool(&mut self, tool: Tool) -> (r: Vec<Effect>)
        requires
            old(self)@.wf(),
        ensures
            final(self)@ == (VideoView {
                tool: if old(self)@.tool == Some(tool) {
                    None
                } else {
                    Some(tool)
                },
                ..old(self)@
            }),
            r@ == seq![Effect::Repaint],
            final(self)@.wf(),
    {
        let same: bool = match self.tool {
            Some(t) => t == tool,
            None => false,
        };
        self.tool = if same {
            None
        } else {
            Some(tool)
        };
        one(Effect::Repaint)
    }

    /// Pick a color.
    pub fn set_color(&mut self, ix: usize) -> (r: Vec<Effect>)
        requires
            old(self)@.wf(),
            ix < 5,
        ensures
            final(self)@ == (VideoView { color_ix: ix, ..old(self)@ }),
            r@ == seq![Effect::Repaint],
            final(self)@.wf(),
    {
        self.color_ix = ix;
        one(Effect::Repaint)
    }
}

// ---- captions ----

pub open spec fn result_text(r: Result<(), String>) -> Option<Seq<char>> {
    match r {
        Ok(_) => None,
        Err(e) => Some(e@),
    }
}

impl VideoView {
    /// After captions were asked for: nothing happens if they were before.
    pub open spec fn captions_started(self) -> (VideoView, Seq<Effect>) {
        if self.cc_status is Some {
            (self, Seq::empty())
        } else {
            (
                VideoView {
                    cc_status: Some("CC: starting\u{2026}"@),
                    cc_running: true,
                    ..self
                },
                seq![Effect::Transcribe, Effect::Repaint],
            )
        }
    }

    /// After captions were made, or failed: they are burned in from then on.
    pub open spec fn captions_done(self, failure: Option<Seq<char>>) -> (VideoView, Seq<Effect>) {
        match failure {
            None => (
                VideoView {
                    cc_running: false,
                    has_srt: true,
                    state: EditView { burn_cc: true, ..self.state },
                    cc_status: Some("CC \u{2713}"@),
                    ..self
                }.committed(),
                seq![Effect::ReloadCues, Effect::Repaint],
            ),
            Some(e) => (
                VideoView { cc_running: false, cc_status: Some("CC failed: "@ + e), ..self },
                seq![Effect::Repaint],
            ),
        }
    }
}

impl VideoEditor {
    /// Ask for captions.
    pub fn generate_captions(&mut self) -> (r: Vec<Effect>)
        requires
            old(self)@.wf(),
        ensures
            (final(self)@, r@) == old(self)@.captions_started(),
            final(self)@.wf(),
    {
        let ghost start = self@;
        let mut out: Vec<Effect> = Vec::new();
        if self.cc_status.is_none() {
            self.cc_status = Some(owned("CC: starting\u{2026}"));
            self.cc_running = true;
            out.push(Effect::Transcribe);
            out.push(Effect::Repaint);
        }
        assert(out@ =~= start.captions_started().1);
        out
    }

    /// Show how far the captions are, and tell whether they are still being
    /// made.
    pub fn captions_tick(&mut self, message: &str) -> (r: bool)
        requires
            old(self)@.wf(),
        ensures
            final(self)@ == (if old(self)@.cc_running {
                VideoView { cc_status: Some("CC: "@ + message@), ..old(self)@ }
            } else {
                old(self)@
            }),
            r == old(self)@.cc_running,
            final(self)@.wf(),
    {
        if self.cc_running {
            let mut m = owned("CC: ");
            m.append(message);
            self.cc_status = Some(m);
        }
        self.cc_running
    }

    /// The captions were made, or failed.
    pub fn captions_finished(&mut self, result: Result<(), String>) -> (r: Vec<Effect>)
        requires
            old(self)@.wf(),
        ensures
            (final(self)@, r@) == old(self)@.captions_done(result_text(result)),
            final(self)@.wf(),
    {
        let ghost start = self@;
        self.cc_running = false;
        let mut out: Vec<Effect> = Vec::new();
        match result {
            Ok(_) => {
                self.has_srt = true;
                self.state.burn_cc = true;
                self.cc_status = Some(owned("CC \u{2713}"));
                self.commit();
                out.push(Effect::ReloadCues);
            },
            Err(e) => {
                let mut m = owned("CC failed: ");
                m.append(e.as_str());
                self.cc_status = Some(m);
            },
        }
        out.push(Effect::Repaint);
        assert(out@ =~= start.captions_done(result_text(result)).1);
        assert(self@ =~= start.captions_done(result_text(result)).0);
        out
    }
}

// ---- export ----

/// What an export of the edit needs.
#[derive(Debug)]
pub struct ExportPlan {
    pub keep: Vec<(i64, i64)>,
    pub zooms: Vec<ZoomPoint>,
    /// Whether the annotations are laid over the video.
    pub overlay: bool,
    /// Whether the captions are burned in.
    pub burn_captions: bool,
}

/// The file name of the export of a video with the given stem.
/// Whether a plan is that of a video's edits.
pub open spec fn plan_is(p: ExportPlan, v: VideoView) -> bool {
    &&& p.keep@ == keep_of(cuts_of(v.state.segments), v.info.duration)
    &&& p.zooms@ == v.state.zooms
    &&& p.overlay == (v.state.annotations.len() > 0)
    &&& p.burn_captions == (v.state.burn_cc && v.has_srt)
}

pub fn export_file_name(stem: &str) -> (r: String)
    ensures
        r@ == stem@ + "-edited.mp4"@,
{
    let mut s = owned(stem);
    s.append("-edited.mp4");
    s
}

impl VideoEditor {
    /// Begin an export, unless one runs.
    pub fn export(&mut self) -> (r: Vec<Effect>)
        requires
            old(self)@.wf(),
        ensures
            (final(self)@, r@) == old(self)@.export_begun(),
            final(self)@.wf(),
    {
        let mut out: Vec<Effect> = Vec::new();
        if self.exporting {
            assert(out@ =~= Seq::empty());
            return out;
        }
        self.exporting = true;
        self.status = Some(owned("Exporting\u{2026}"));
        out.push(Effect::Export);
        out.push(Effect::Repaint);
        assert(out@ =~= seq![Effect::Export, Effect::Repaint]);
        out
    }

    /// What an export of the current edit needs.
    pub fn export_plan(&self) -> (r: ExportPlan)
        requires
            self@.wf(),
        ensures
            plan_is(r, self@),
    {
        let copy = self.state.duplicate();
        ExportPlan {
            keep: self.state.keep_ranges(self.info.duration),
            zooms: copy.zooms,
            overlay: self.state.annotations.len() > 0,
            burn_captions: self.state.burn_cc && self.has_srt,
        }
    }

    /// Show how far the export is, and tell whether it still runs.
    pub fn export_tick(&mut self, percent: u32) -> (r: bool)
        requires
            old(self)@.wf(),
        ensures
            final(self)@ == (if old(self)@.exporting {
                old(self)@.says("Exporting\u{2026} "@ + text::decimal(percent as nat) + "%"@)
            } else {
                old(self)@
            }),
            r == old(self)@.exporting,
            final(self)@.wf(),
    {
        if self.exporting {
            let mut m = owned("Exporting\u{2026} ");
            let d = text::decimal_chars(percent as u64);
            m.append(text::from_chars(d.as_slice()).as_str());
            m.append("%");
            self.status = Some(m);
        }
        self.exporting
    }

    /// The export wrote a file, or failed.
    pub fn export_finished(&mut self, result: Result<String, String>) -> (r: Vec<Effect>)
        requires
            old(self)@.wf(),
        ensures
            final(self)@ == old(self)@.export_ended(result),
            r@ == seq![Effect::Repaint],
            final(self)@.wf(),
    {
        self.exporting = false;
        let m = match result {
            Ok(p) => {
                let mut m = owned("Exported \u{2192} ");
                m.append(p.as_str());
                m
            },
            Err(e) => {
                let mut m = owned("Export failed: ");
                m.append(e.as_str());
                m
            },
        };
        self.status = Some(m);
        one(Effect::Repaint)
    }

    /// The line at the end of the toolbar: the status, else that of the
    /// captions, else the times.
    pub fn status_line(&self) -> (r: String)
        ensures
            r@ == (match self@.status {
                Some(s) => s,
                None => match self@.cc_status {
                    Some(s) => s,
                    None => seconds_text(self.playhead as int) + "s / "@ + seconds_text(
                        self.info.duration as int,
                    ) + "s"@,
                },
            }),
    {
        if let Some(s) = &self.status {
            return s.clone();
        }
        if let Some(s) = &self.cc_status {
            return s.clone();
        }
        let a = seconds_chars(self.playhead);
        let b = seconds_chars(self.info.duration);
        let mut m = text::from_chars(a.as_slice());
        m.append("s / ");
        m.append(text::from_chars(b.as_slice()).as_str());
        m.append("s");
        m
    }
}

/// Undo after an edit brings the edit before it back, whatever it was.
pub proof fn law_undo_restores_edit(before: VideoView, after: VideoView)
    requires
        before.wf(),
        before.history.current() == before.state,
        after == (VideoView { history: before.history.committed(after.state), ..after }),
        after.state != before.state,
    ensures
        after.undone().0.state == before.state,
        after.undone().0.redone().0.state == after.state,
{
    let h = after.history;
    assert(h.stack.drop_last() =~= before.history.stack);
    let u = after.undone().0;
    assert(u.history.redo.last() == after.state);
    assert(u.history.stack.push(u.history.redo.last()).last() == after.state);
}

/// An export keeps what was not removed and nothing else. It zooms where the
/// preview does, draws over the picture if there is anything drawn, and shows
/// captions if they are wanted and there are any. A video without a removed
/// segment is kept as a whole.
pub proof fn law_export_follows_the_edits(p: ExportPlan, v: VideoView, x: int, t: int)
    requires
        plan_is(p, v),
        v.wf(),
        0 <= x < v.info.duration,
    ensures
        (forall|i: int| 0 <= i < v.state.segments.len() ==> !(#[trigger] v.state.segments[i]).removed)
            <==> p.keep@.len() == 0,
        p.keep@.len() > 0 ==> ((exists|k: int|
            0 <= k < p.keep@.len() && (#[trigger] p.keep@[k]).0 <= x < p.keep@[k].1) <==> (exists|
            i: int,
        |
            0 <= i < v.state.segments.len() && !(#[trigger] v.state.segments[i]).removed
                && v.state.segments[i].start <= x < v.state.segments[i].end)),
        crate::video_editor::zooms::zoom_shown(t, p.zooms@, v.info.width * 256, v.info.height * 256)
            == crate::video_editor::zooms::zoom_shown(
            t,
            v.state.zooms,
            v.info.width * 256,
            v.info.height * 256,
        ),
        p.overlay == (v.state.annotations.len() != 0),
        p.burn_captions ==> v.has_srt && v.state.burn_cc,
        v.has_srt && v.state.burn_cc ==> p.burn_captions,
{
    crate::video_editor::state::law_empty_keep_means_unedited(v.state.segments, v.info.duration);
    if p.keep@.len() > 0 {
        crate::video_editor::state::law_kept_ranges_lie_between_cuts(
            v.state.segments,
            v.info.duration,
            x,
        );
    }
}

/// The space bar plays or pauses, S splits, Delete and Backspace delete, and
/// with Ctrl, Z undoes, or redoes if Shift is held as well. The arrows move the
/// playhead by a second as far as the video goes. Escape drops the selection,
/// or quits where there is none.
pub proof fn law_keys_of_the_video_editor(v: VideoView, ctrl: bool, shift: bool)
    requires
        0 <= v.playhead <= v.info.duration,
        v.typing is None,
    ensures
        v.keyed("space"@, None, ctrl, shift) == v.play_toggled(),
        v.keyed("s"@, None, ctrl, shift) == v.split(),
        v.keyed("delete"@, None, ctrl, shift) == v.deleted(),
        v.keyed("backspace"@, None, ctrl, shift) == v.deleted(),
        v.keyed("z"@, None, true, false) == v.undone(),
        v.keyed("z"@, None, true, true) == v.redone(),
        v.keyed("z"@, None, false, shift).0 == v,
        v.selection == Selection::Nothing ==> v.keyed("escape"@, None, ctrl, shift).1 == seq![
            Effect::Quit,
        ],
        v.selection != Selection::Nothing ==> v.keyed("escape"@, None, ctrl, shift).0.selection
            == Selection::Nothing,
        ({
            let left = v.keyed("left"@, None, ctrl, shift).0.playhead;
            let right = v.keyed("right"@, None, ctrl, shift).0.playhead;
            &&& v.playhead >= 1_000_000_000 ==> left == v.playhead - 1_000_000_000
            &&& v.playhead < 1_000_000_000 ==> left == 0
            &&& v.info.duration - v.playhead >= 1_000_000_000 ==> right == v.playhead + 1_000_000_000
            &&& v.info.duration - v.playhead < 1_000_000_000 ==> right == v.info.duration
        }),
        v.has_player ==> v.keyed("left"@, None, ctrl, shift).1[0] == Effect::Seek(
            v.keyed("left"@, None, ctrl, shift).0.playhead,
        ),
{
    reveal_strlit("space");
    reveal_strlit("s");
    reveal_strlit("delete");
    reveal_strlit("backspace");
    reveal_strlit("z");
    reveal_strlit("escape");
    reveal_strlit("left");
    reveal_strlit("right");
    assert("space"@.len() == 5 && "s"@.len() == 1 && "delete"@.len() == 6 && "backspace"@.len() == 9
        && "z"@.len() == 1 && "escape"@.len() == 6 && "left"@.len() == 4 && "right"@.len() == 5);
    assert("s"@[0] == 's' && "z"@[0] == 'z' && "delete"@[0] == 'd' && "escape"@[0] == 'e'
        && "space"@[0] == 's' && "right"@[0] == 'r');
}

/// Captions that are done are shown and burned in, as an edit that an undo
/// takes back; a failure is told and changes nothing else of the edits.
pub proof fn law_finished_captions_are_burned_in(v: VideoView, why: Seq<char>)
    requires
        v.history.wf(),
        v.history.current() == v.state,
        !v.state.burn_cc,
    ensures
        v.captions_done(None).0.has_srt,
        v.captions_done(None).0.state.burn_cc,
        !v.captions_done(None).0.cc_running,
        v.captions_done(None).0.undone().0.state == v.state,
        v.captions_done(Some(why)).0.state == v.state,
        v.captions_done(Some(why)).0.has_srt == v.has_srt,
        !v.captions_done(Some(why)).0.cc_running,
        v.captions_done(Some(why)).0.cc_status == Some("CC failed: "@ + why),
{
    let after = v.captions_done(None).0;
    assert(after.history.stack.drop_last() =~= v.history.stack);
}

/// A typed text is drawn where it was begun, with the characters that were
/// typed, as an edit that an undo takes back.
pub proof fn law_typed_text_is_an_edit(v: VideoView)
    requires
        v.history.wf(),
        v.history.current() == v.state,
        v.typing matches Some(t) && t.text.len() > 0,
    ensures
        ({
            let after = v.typing_committed();
            let t = v.typing->0;
            &&& after.typing is None
            &&& after.state.annotations.drop_last() == v.state.annotations
            &&& after.state.annotations.last() matches crate::spec::AnnotationView::Text {
                x,
                y,
                text,
                size,
                style,
            } && x == t.x && y == t.y && text == t.text && size == Some(7168i64) && style.color
                == Some(crate::video_editor::model::video_color_name(v.color_ix as int))
            &&& after.undone().0.state == v.state
        }),
{
    let after = v.typing_committed();
    assert(after.state.annotations.drop_last() =~= v.state.annotations);
    assert(after.state.annotations.len() != v.state.annotations.len());
    assert(after.history.stack.drop_last() =~= v.history.stack);
}

impl VideoView {
    /// After an export was asked for.
    pub open spec fn export_begun(self) -> (VideoView, Seq<Effect>) {
        if self.exporting {
            (self, Seq::empty())
        } else {
            (
                VideoView { exporting: true, ..self }.says("Exporting\u{2026}"@),
                seq![Effect::Export, Effect::Repaint],
            )
        }
    }

    /// After an export ended.
    pub open spec fn export_ended(self, result: Result<String, String>) -> VideoView {
        VideoView { exporting: false, ..self }.says(
            match result {
                Ok(p) => "Exported \u{2192} "@ + p@,
                Err(e) => "Export failed: "@ + e@,
            },
        )
    }
}

/// One export runs at a time, and its end is told: where the file is, or why
/// there is none. It changes nothing of the edits.
pub proof fn law_one_export_at_a_time(v: VideoView, result: Result<String, String>)
    ensures
        v.exporting ==> !v.export_begun().1.contains(Effect::Export),
        !v.exporting ==> v.export_begun().1.contains(Effect::Export),
        v.export_begun().0.exporting,
        !v.export_ended(result).exporting,
        v.export_begun().0.state == v.state,
        v.export_ended(result).state == v.state,
        result matches Ok(p) ==> v.export_ended(result).status == Some("Exported \u{2192} "@ + p@),
        result matches Err(e) ==> v.export_ended(result).status == Some("Export failed: "@ + e@),
{
    if !v.exporting {
        assert(v.export_begun().1[0] == Effect::Export);
    }
}

} // verus!
