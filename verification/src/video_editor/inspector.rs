//! The inspector: what it shows of the selection, and what its buttons do.
use vstd::prelude::*;
use crate::math::{abs_of, fixed_chars, fixed_text, seconds_chars, seconds_text};
use crate::text;
use crate::video::ZoomPoint;
use crate::video_editor::keys::one;
use crate::video_editor::model::{
    preset_level, zoom_preset, zoom_sound, zooms_sound, Effect, VideoEditor, VideoView,
};
use crate::video_editor::state::{EditView, Selection, VideoSegment};

verus! {

broadcast use vstd::seq_lib::group_seq_properties;

/// What the inspector shows.
#[derive(Debug)]
pub enum Panel {
    /// The export panel: the captions button and whether it is lit, and the
    /// export button.
    Export { captions: &'static str, captions_on: bool, button: &'static str },
    /// A segment: start, end and length, and its button.
    Segment { start: String, end: String, length: String, button: &'static str },
    /// A zoom: level, centre and length, and which presets are lit.
    Zoom { level: String, center: String, length: String, presets: (bool, bool, bool) },
    /// The selection names nothing.
    Empty,
}

/// Seconds with two decimals.
pub open spec fn fine_seconds(t: int) -> Seq<char> {
    fixed_text(t, 1_000_000_000, 100, 2) + "s"@
}

pub open spec fn level_text(level: int) -> Seq<char> {
    fixed_text(level, 1_000_000, 100, 2) + "\u{d7}"@
}

/// Whole pixels of a point.
pub open spec fn center_text(x: int, y: int) -> Seq<char> {
    fixed_text(x, 256, 1, 0) + ", "@ + fixed_text(y, 256, 1, 0)
}

/// A preset is lit if the level is within a hundredth of it.
pub open spec fn preset_on(level: int, i: int) -> bool {
    abs_of(level - preset_level(i)) < 10_000
}

/// Whether the inspector may show `p`.
pub open spec fn panel_is(p: Panel, v: VideoView) -> bool {
    match v.selection {
        Selection::Nothing => match p {
            Panel::Export { captions, captions_on, button } => {
                &&& captions@ == (if !v.has_srt {
                    "Generate captions"@
                } else if v.state.burn_cc {
                    "Captions: burn \u{2713}"@
                } else {
                    "Captions: off"@
                })
                &&& captions_on == (v.has_srt && v.state.burn_cc)
                &&& button@ == (if v.exporting {
                    "Exporting\u{2026}"@
                } else {
                    "Export"@
                })
            },
            _ => false,
        },
        Selection::VideoSegment(i) => if i < v.state.segments.len() {
            let s = v.state.segments[i as int];
            match p {
                Panel::Segment { start, end, length, button } => {
                    &&& start@ == fine_seconds(s.start as int)
                    &&& end@ == fine_seconds(s.end as int)
                    &&& length@ == fine_seconds(s.end - s.start)
                    &&& button@ == (if s.removed {
                        "Restore"@
                    } else {
                        "Delete"@
                    })
                },
                _ => false,
            }
        } else {
            p is Empty
        },
        Selection::Zoom(i) => if i < v.state.zooms.len() {
            let z = v.state.zooms[i as int];
            match p {
                Panel::Zoom { level, center, length, presets } => {
                    &&& level@ == level_text(z.level as int)
                    &&& center@ == center_text(z.cx as int, z.cy as int)
                    &&& length@ == seconds_text(z.duration as int) + "s"@
                    &&& presets == (
                        preset_on(z.level as int, 0),
                        preset_on(z.level as int, 1),
                        preset_on(z.level as int, 2),
                    )
                },
                _ => false,
            }
        } else {
            p is Empty
        },
    }
}

fn fine(t: i64) -> (r: String)
    ensures
        r@ == fine_seconds(t as int),
{
    let mut c = fixed_chars(t, 1_000_000_000, 100, 2);
    let s = text::to_chars("s");
    text::append_chars(&mut c, s.as_slice());
    text::from_chars(c.as_slice())
}

fn is_preset(level: u32, i: usize) -> (r: bool)
    ensures
        r == preset_on(level as int, i as int),
{
    let p: i64 = zoom_preset(i).1 as i64;
    let d: i64 = level as i64 - p;
    if d < 0 {
        0 - d < 10_000
    } else {
        d < 10_000
    }
}

fn zoom_panel(z: &ZoomPoint) -> (r: Panel)
    requires
        zoom_sound(*z),
    ensures
        match r {
            Panel::Zoom { level, center, length, presets } => {
                &&& level@ == level_text(z.level as int)
                &&& center@ == center_text(z.cx as int, z.cy as int)
                &&& length@ == seconds_text(z.duration as int) + "s"@
                &&& presets == (
                    preset_on(z.level as int, 0),
                    preset_on(z.level as int, 1),
                    preset_on(z.level as int, 2),
                )
            },
            _ => false,
        },
{
    let mut level = fixed_chars(z.level as i64, 1_000_000, 100, 2);
    let times = text::to_chars("\u{d7}");
    text::append_chars(&mut level, times.as_slice());
    let mut center = fixed_chars(z.cx, 256, 1, 0);
    let comma = text::to_chars(", ");
    text::append_chars(&mut center, comma.as_slice());
    let y = fixed_chars(z.cy, 256, 1, 0);
    text::append_chars(&mut center, y.as_slice());
    let mut length = seconds_chars(z.duration);
    let s = text::to_chars("s");
    text::append_chars(&mut length, s.as_slice());
    Panel::Zoom {
        level: text::from_chars(level.as_slice()),
        center: text::from_chars(center.as_slice()),
        length: text::from_chars(length.as_slice()),
        presets: (is_preset(z.level, 0), is_preset(z.level, 1), is_preset(z.level, 2)),
    }
}

impl VideoEditor {
    /// What the inspector shows.
    pub fn panel(&self) -> (r: Panel)
        requires
            self@.wf(),
        ensures
            panel_is(r, self@),
    {
        match self.selection {
            Selection::Nothing => Panel::Export {
                captions: if !self.has_srt {
                    "Generate captions"
                } else if self.state.burn_cc {
                    "Captions: burn \u{2713}"
                } else {
                    "Captions: off"
                },
                captions_on: self.has_srt && self.state.burn_cc,
                button: if self.exporting {
                    "Exporting\u{2026}"
                } else {
                    "Export"
                },
            },
            Selection::VideoSegment(i) => {
                if i >= self.state.segments.len() {
                    return Panel::Empty;
                }
                let s = self.state.segments[i];
                proof {
                    lemma_inside(self@.state.segments, i as int, self.info.duration as int);
                }
                Panel::Segment {
                    start: fine(s.start),
                    end: fine(s.end),
                    length: fine(s.end - s.start),
                    button: if s.removed {
                        "Restore"
                    } else {
                        "Delete"
                    },
                }
            },
            Selection::Zoom(i) => {
                if i >= self.state.zooms.len() {
                    return Panel::Empty;
                }
                let z = self.state.zooms[i];
                assert(zoom_sound(self@.state.zooms[i as int]));
                zoom_panel(&z)
            },
        }
    }

    /// The captions button: burn them in or not, or make them first.
    pub fn toggle_captions(&mut self) -> (r: Vec<Effect>)
        requires
            old(self)@.wf(),
        ensures
            (final(self)@, r@) == old(self)@.captions_toggled(),
            final(self)@.wf(),
    {
        if self.has_srt {
            self.state.burn_cc = !self.state.burn_cc;
            self.commit();
            one(Effect::Repaint)
        } else {
            self.generate_captions()
        }
    }

    /// The button of a segment: remove it, or take it back.
    pub fn toggle_segment(&mut self, ix: usize) -> (r: Vec<Effect>)
        requires
            old(self)@.wf(),
            ix < old(self)@.state.segments.len(),
        ensures
            final(self)@ == old(self)@.flagged(
                ix as int,
                !old(self)@.state.segments[ix as int].removed,
            ),
            r@ == seq![Effect::Repaint],
            final(self)@.wf(),
    {
        let removed: bool = self.state.segments[ix].removed;
        self.set_removed(ix, !removed);
        one(Effect::Repaint)
    }

    /// The button of a preset level.
    pub fn preset_zoom(&mut self, ix: usize, preset: usize) -> (r: Vec<Effect>)
        requires
            old(self)@.wf(),
            preset < 3,
        ensures
            final(self)@ == old(self)@.zoom_at_preset(ix as int, preset as int),
            r@ == seq![Effect::Redraw],
            final(self)@.wf(),
    {
        self.level_zoom(ix, zoom_preset(preset).1);
        self.commit();
        one(Effect::Redraw)
    }

    /// The remove button of a zoom.
    pub fn remove_zoom(&mut self, ix: usize) -> (r: Vec<Effect>)
        requires
            old(self)@.wf(),
        ensures
            final(self)@ == old(self)@.zoom_removed(ix as int),
            r@ == seq![Effect::Redraw],
            final(self)@.wf(),
    {
        proof {
            if ix < self@.state.zooms.len() {
                lemma_removed_sound(self@.state.zooms, ix as int);
            }
        }
        self.state.remove_zoom(ix);
        self.selection = Selection::Nothing;
        self.commit();
        one(Effect::Redraw)
    }
}

proof fn lemma_removed_sound(zooms: Seq<ZoomPoint>, ix: int)
    requires
        zooms_sound(zooms),
        0 <= ix < zooms.len(),
    ensures
        zooms_sound(zooms.remove(ix)),
{
    let after = zooms.remove(ix);
    assert forall|i: int| 0 <= i < after.len() implies zoom_sound(#[trigger] after[i]) by {
        if i < ix {
            assert(after[i] == zooms[i]);
        } else {
            assert(after[i] == zooms[i + 1]);
        }
    }
}

/// A segment of a tiled timeline lies inside of the video.
proof fn lemma_inside(segments: Seq<VideoSegment>, i: int, duration: int)
    requires
        crate::video_editor::state::tiles(segments, duration),
        0 <= i < segments.len(),
    ensures
        0 <= segments[i].start <= segments[i].end <= duration,
{
    lemma_from_zero(segments, i, duration);
    lemma_to_end(segments, i, duration);
}

proof fn lemma_from_zero(segments: Seq<VideoSegment>, i: int, duration: int)
    requires
        crate::video_editor::state::tiles(segments, duration),
        0 <= i < segments.len(),
    ensures
        0 <= segments[i].start,
    decreases i,
{
    if i > 0 {
        let j = i - 1;
        lemma_from_zero(segments, j, duration);
        assert(segments[j].end == segments[i].start);
    }
}

proof fn lemma_to_end(segments: Seq<VideoSegment>, i: int, duration: int)
    requires
        crate::video_editor::state::tiles(segments, duration),
        0 <= i < segments.len(),
    ensures
        segments[i].end <= duration,
    decreases segments.len() - i,
{
    if i < segments.len() - 1 {
        let j = i + 1;
        lemma_to_end(segments, j, duration);
        assert(segments[i].end == segments[j].start);
    }
}

/// Deleting and then restoring a segment leaves the segments as they were.
pub proof fn law_restore_takes_back_delete(v: VideoView, ix: int)
    requires
        0 <= ix < v.state.segments.len(),
        !v.state.segments[ix].removed,
    ensures
        v.flagged(ix, true).flagged(ix, false).state == v.state,
{
    let after = v.flagged(ix, true).flagged(ix, false).state;
    assert(after.segments =~= v.state.segments);
}

impl VideoView {
    /// After the captions' button: they are burned in or not, or made first.
    pub open spec fn captions_toggled(self) -> (VideoView, Seq<Effect>) {
        if self.has_srt {
            (
                VideoView {
                    state: EditView { burn_cc: !self.state.burn_cc, ..self.state },
                    ..self
                }.committed(),
                seq![Effect::Repaint],
            )
        } else {
            self.captions_started()
        }
    }

    /// After a preset level was picked for a zoom.
    pub open spec fn zoom_at_preset(self, ix: int, preset: int) -> VideoView {
        VideoView {
            state: EditView {
                zooms: if ix < self.state.zooms.len() {
                    self.state.zooms.update(
                        ix,
                        ZoomPoint { level: preset_level(preset), ..self.state.zooms[ix] },
                    )
                } else {
                    self.state.zooms
                },
                ..self.state
            },
            ..self
        }.committed()
    }

    /// After a zoom was removed.
    pub open spec fn zoom_removed(self, ix: int) -> VideoView {
        VideoView {
            state: EditView {
                zooms: if ix < self.state.zooms.len() {
                    self.state.zooms.remove(ix)
                } else {
                    self.state.zooms
                },
                ..self.state
            },
            selection: Selection::Nothing,
            ..self
        }.committed()
    }
}

/// Captions that exist are switched on and off, and others are made first. An
/// undo takes the switch back.
pub proof fn law_captions_are_switched(v: VideoView)
    requires
        v.history.wf(),
        v.history.current() == v.state,
    ensures
        v.has_srt ==> v.captions_toggled().0.state.burn_cc == !v.state.burn_cc,
        v.has_srt ==> v.captions_toggled().0.undone().0.state == v.state,
        v.has_srt ==> v.captions_toggled().0.captions_toggled().0.state == v.state,
        !v.has_srt && v.cc_status is None ==> v.captions_toggled().1.contains(Effect::Transcribe)
            && v.captions_toggled().0.cc_running,
        !v.has_srt ==> v.captions_toggled().0.state == v.state,
{
    let after = v.captions_toggled().0;
    if v.has_srt {
        assert(after.state.burn_cc != v.state.burn_cc);
        assert(after.history.stack.drop_last() =~= v.history.stack);
        assert(after.captions_toggled().0.state =~= v.state);
    } else if v.cc_status is None {
        assert(v.captions_toggled().1[0] == Effect::Transcribe);
    }
}

/// A preset sets the level of one zoom, to 1.5, 2 or 3, and nothing else of it.
/// Removing a zoom takes that one out and leaves the others in their order.
pub proof fn law_zoom_buttons_change_one_zoom(v: VideoView, ix: int, preset: int, j: int)
    requires
        0 <= ix < v.state.zooms.len(),
        0 <= j < v.state.zooms.len(),
        0 <= preset < 3,
    ensures
        ({
            let set = v.zoom_at_preset(ix, preset).state.zooms;
            &&& set.len() == v.state.zooms.len()
            &&& j != ix ==> set[j] == v.state.zooms[j]
            &&& set[ix].level == (if preset == 0 {
                1_500_000u32
            } else if preset == 1 {
                2_000_000u32
            } else {
                3_000_000u32
            })
            &&& set[ix].t == v.state.zooms[ix].t && set[ix].duration == v.state.zooms[ix].duration
            &&& set[ix].cx == v.state.zooms[ix].cx && set[ix].cy == v.state.zooms[ix].cy
        }),
        ({
            let rest = v.zoom_removed(ix).state.zooms;
            &&& rest.len() == v.state.zooms.len() - 1
            &&& j < ix ==> rest[j] == v.state.zooms[j]
            &&& j > ix ==> rest[j - 1] == v.state.zooms[j]
        }),
        v.zoom_removed(ix).selection == Selection::Nothing,
        v.zoom_removed(ix).state.segments == v.state.segments,
        v.zoom_removed(ix).history.current() == v.zoom_removed(ix).state,
        v.zoom_at_preset(ix, preset).history.current() == v.zoom_at_preset(ix, preset).state,
{
}

/// The panel of a segment offers to restore a removed one and to delete any
/// other, and shows its length.
pub proof fn law_panel_shows_the_selection(p: Panel, v: VideoView, i: usize)
    requires
        panel_is(p, v),
    ensures
        v.selection == Selection::Nothing ==> p is Export,
        v.selection == Selection::VideoSegment(i) && i < v.state.segments.len() ==> (p matches
            Panel::Segment { start, end, length, button } && start@ == fine_seconds(
            v.state.segments[i as int].start as int,
        ) && end@ == fine_seconds(v.state.segments[i as int].end as int) && length@ == fine_seconds(
            v.state.segments[i as int].end - v.state.segments[i as int].start,
        ) && (button@ == "Restore"@ <==> v.state.segments[i as int].removed)),
        v.selection == Selection::Zoom(i) && i < v.state.zooms.len() ==> (p matches Panel::Zoom {
            level,
            length,
            ..
        } && level@ == level_text(v.state.zooms[i as int].level as int) && length@ == seconds_text(
            v.state.zooms[i as int].duration as int,
        ) + "s"@),
{
    reveal_strlit("Restore");
    reveal_strlit("Delete");
    assert("Restore"@.len() == 7 && "Delete"@.len() == 6);
}

/// Whole hundredths of a second are shown as they are.
pub proof fn law_times_are_shown_in_hundredths(k: nat)
    requires
        k <= 0x100_0000_0000,
    ensures
        fine_seconds(k * 10_000_000int) == text::decimal(k / 100) + seq!['.'] + text::zero_pad(
            text::decimal(k % 100),
            2,
        ) + "s"@,
{
    crate::math::law_fixed_text_shows_the_nearest(
        k * 10_000_000int,
        1_000_000_000,
        100,
        2,
        k as int,
    );
    assert(Seq::<char>::empty() + (text::decimal(k / 100) + seq!['.'] + text::zero_pad(
        text::decimal(k % 100),
        2,
    )) =~= text::decimal(k / 100) + seq!['.'] + text::zero_pad(text::decimal(k % 100), 2));
}

} // verus!
