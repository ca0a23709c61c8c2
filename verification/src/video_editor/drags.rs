//! What presses and drags on the timeline do.
use vstd::prelude::*;
use crate::math::abs_of;
use crate::video::ZoomPoint;
use crate::video_editor::keys::one;
use crate::video_editor::model::{
    zoom_sound, zooms_sound, Effect, TimelineDrag, VideoEditor, VideoView,
};
use crate::video_editor::state::{
    clamped, drag_boundary, law_drag_keeps_tiling, Edge, EditView, Selection,
};
use crate::video_editor::timeline::{TimelineRect, EDGE_HIT};
use crate::video_editor::zooms::{
    clamped_zoom, dragged_window, law_sorting_orders_zooms, lemma_sorted_members, placed_zoom,
    sorted_zooms,
};

verus! {

broadcast use vstd::seq_lib::group_seq_properties;

/// A press lies on an edge.
pub open spec fn near(x: int, edge: int) -> bool {
    abs_of(x - edge) <= EDGE_HIT
}

fn is_near(x: i32, edge: i128) -> (r: bool)
    requires
        -0x1_0000_0000_0000_0000_0000_0000_0000 <= edge
            <= 0x1_0000_0000_0000_0000_0000_0000_0000,
    ensures
        r == near(x as int, edge as int),
{
    let d: i128 = x as i128 - edge;
    if d < 0 {
        0 - d <= EDGE_HIT as i128
    } else {
        d <= EDGE_HIT as i128
    }
}

impl VideoView {
    /// After the playhead was dragged to a position.
    pub open spec fn scrubbed(self, rect: TimelineRect, x: int) -> (VideoView, Seq<Effect>) {
        self.sought(rect.time_of(x, self.info.duration as int))
    }

    /// After a press on segment `ix`: on the boundary behind it, a drag of the
    /// boundary begins, else the segment is selected.
    pub open spec fn segment_pressed(self, rect: TimelineRect, ix: int, x: int) -> VideoView {
        if ix + 1 < self.state.segments.len() && near(
            x,
            rect.x_of(self.state.segments[ix].end as int, self.info.duration as int),
        ) {
            VideoView {
                timeline_drag: Some(TimelineDrag::SegmentEdge { ix: ix as usize }),
                ..self
            }
        } else {
            VideoView { selection: Selection::VideoSegment(ix as usize), ..self }
        }
    }

    /// The drag that a press on zoom `ix` begins: of its first or its last
    /// edge, else of its whole window.
    pub open spec fn zoom_drag(self, rect: TimelineRect, ix: int, x: int) -> TimelineDrag {
        let z = self.state.zooms[ix];
        let d = self.info.duration as int;
        if near(x, rect.x_of(z.start(), d)) {
            TimelineDrag::ZoomEdge { ix: ix as usize, edge: Edge::Start }
        } else if near(x, rect.x_of(z.end(), d)) {
            TimelineDrag::ZoomEdge { ix: ix as usize, edge: Edge::End }
        } else {
            TimelineDrag::ZoomBody {
                ix: ix as usize,
                grab_offset: (rect.time_of(x, d) - z.t) as i64,
            }
        }
    }

    /// After a press on zoom `ix`: it is selected, and a drag begins.
    pub open spec fn zoom_pressed(self, rect: TimelineRect, ix: int, x: int) -> (
        VideoView,
        Seq<Effect>,
    ) {
        if ix >= self.state.zooms.len() {
            (self, Seq::empty())
        } else {
            (
                VideoView {
                    timeline_drag: Some(self.zoom_drag(rect, ix, x)),
                    selection: Selection::Zoom(ix as usize),
                    ..self
                },
                seq![Effect::Repaint],
            )
        }
    }

    /// The zooms while zoom `ix` is moved to be centred at `t`.
    pub open spec fn zooms_moved(self, ix: int, t: int) -> Seq<ZoomPoint> {
        if ix < self.state.zooms.len() {
            self.state.zooms.update(
                ix,
                clamped_zoom(
                    self.state.zooms,
                    ZoomPoint { t: t as i64, ..self.state.zooms[ix] },
                    Some(ix),
                    self.info.duration as int,
                ),
            )
        } else {
            self.state.zooms
        }
    }

    /// The zooms while an edge of zoom `ix` is dragged to `t`.
    pub open spec fn zooms_resized(self, ix: int, edge: Edge, t: int) -> Seq<ZoomPoint> {
        if ix < self.state.zooms.len() {
            let z = self.state.zooms[ix];
            let w = dragged_window(z, edge, t);
            self.state.zooms.update(
                ix,
                placed_zoom(
                    self.state.zooms,
                    z,
                    w,
                    Some(ix),
                    self.info.duration as int,
                ),
            )
        } else {
            self.state.zooms
        }
    }

    /// After a move over the timeline.
    pub open spec fn timeline_moved(self, rect: TimelineRect, x: int) -> (VideoView, Seq<Effect>) {
        let t = rect.time_of(x, self.info.duration as int);
        if self.scrubbing {
            self.scrubbed(rect, x)
        } else {
            match self.timeline_drag {
                Some(TimelineDrag::SegmentEdge { ix }) => (
                    VideoView {
                        state: EditView {
                            segments: drag_boundary(self.state.segments, ix as int, t),
                            ..self.state
                        },
                        ..self
                    },
                    seq![Effect::Repaint],
                ),
                Some(TimelineDrag::ZoomBody { ix, grab_offset }) => (
                    VideoView {
                        state: EditView {
                            zooms: self.zooms_moved(
                                ix as int,
                                clamped(t - grab_offset, i64::MIN as int, i64::MAX as int),
                            ),
                            ..self.state
                        },
                        ..self
                    },
                    seq![Effect::Repaint],
                ),
                Some(TimelineDrag::ZoomEdge { ix, edge }) => (
                    VideoView {
                        state: EditView {
                            zooms: self.zooms_resized(ix as int, edge, t),
                            ..self.state
                        },
                        ..self
                    },
                    seq![Effect::Repaint],
                ),
                None => (self, Seq::empty()),
            }
        }
    }

    /// The zoom that a drag holds.
    pub open spec fn held_zoom(self) -> Option<int> {
        match self.timeline_drag {
            Some(TimelineDrag::ZoomBody { ix, .. }) => Some(ix as int),
            Some(TimelineDrag::ZoomEdge { ix, .. }) => Some(ix as int),
            _ => None,
        }
    }

    /// After the release: the edit is taken into the history once. Zooms are
    /// sorted, and the dragged one stays selected at its new place.
    pub open spec fn timeline_released(self, selection: Selection) -> VideoView {
        let still = VideoView { scrubbing: false, timeline_drag: None, ..self };
        if self.timeline_drag is None {
            still
        } else if self.held_zoom() is None {
            still.committed()
        } else {
            VideoView {
                state: EditView { zooms: sorted_zooms(self.state.zooms), ..self.state },
                selection,
                ..still
            }.committed()
        }
    }

    /// The selection after the release.
    pub open spec fn released_selection(self, selection: Selection) -> bool {
        match self.held_zoom() {
            Some(ix) => if ix < self.state.zooms.len() {
                first_place(sorted_zooms(self.state.zooms), self.state.zooms[ix], selection)
            } else {
                selection == self.selection
            },
            None => selection == self.selection,
        }
    }
}

/// The selection is the first place of `z` among the zooms.
pub open spec fn first_place(zooms: Seq<ZoomPoint>, z: ZoomPoint, s: Selection) -> bool {
    match s {
        Selection::Zoom(i) => i < zooms.len() && zooms[i as int] == z && forall|k: int|
            0 <= k < i ==> zooms[k] != z,
        _ => false,
    }
}

proof fn lemma_update_sound(zooms: Seq<ZoomPoint>, ix: int, z: ZoomPoint)
    requires
        zooms_sound(zooms),
        0 <= ix < zooms.len(),
        z.level == zooms[ix].level,
        z.cx == zooms[ix].cx,
        z.cy == zooms[ix].cy,
    ensures
        zooms_sound(zooms.update(ix, z)),
{
    let after = zooms.update(ix, z);
    assert(zoom_sound(zooms[ix]));
    assert forall|i: int| 0 <= i < after.len() implies zoom_sound(#[trigger] after[i]) by {
        if i != ix {
            assert(after[i] == zooms[i]);
        }
    }
}

proof fn lemma_sorted_sound(zooms: Seq<ZoomPoint>)
    requires
        zooms_sound(zooms),
    ensures
        zooms_sound(sorted_zooms(zooms)),
{
    lemma_sorted_members(zooms);
    law_sorting_orders_zooms(zooms);
    let s = sorted_zooms(zooms);
    assert forall|i: int| 0 <= i < s.len() implies zoom_sound(#[trigger] s[i]) by {
        assert(zooms.contains(s[i]));
        let m = choose|m: int| 0 <= m < zooms.len() && zooms[m] == s[i];
        assert(zoom_sound(zooms[m]));
    }
}

impl VideoEditor {
    /// Put the playhead at a position.
    pub fn scrub_to(&mut self, rect: &TimelineRect, x: i32) -> (r: Vec<Effect>)
        requires
            old(self)@.wf(),
        ensures
            (final(self)@, r@) == old(self)@.scrubbed(*rect, x as int),
            final(self)@.wf(),
    {
        let t: i64 = rect.x_to_time(x, self.info.duration);
        self.seek_to(t)
    }

    /// A press on the ruler or the waveform: the playhead follows the pointer.
    pub fn scrub_down(&mut self, rect: &TimelineRect, x: i32) -> (r: Vec<Effect>)
        requires
            old(self)@.wf(),
        ensures
            (final(self)@, r@) == (VideoView { scrubbing: true, ..old(self)@ }).scrubbed(
                *rect,
                x as int,
            ),
            final(self)@.wf(),
    {
        self.scrubbing = true;
        self.scrub_to(rect, x)
    }

    /// A press on a segment.
    pub fn segment_down(&mut self, rect: &TimelineRect, ix: usize, x: i32) -> (r: Vec<Effect>)
        requires
            old(self)@.wf(),
        ensures
            final(self)@ == old(self)@.segment_pressed(*rect, ix as int, x as int),
            r@ == seq![Effect::Repaint],
            final(self)@.wf(),
    {
        let n: usize = self.state.segments.len();
        if ix < n && n - ix > 1 {
            let edge: i128 = rect.time_to_x(self.state.segments[ix].end, self.info.duration);
            if is_near(x, edge) {
                self.timeline_drag = Some(TimelineDrag::SegmentEdge { ix });
                return one(Effect::Repaint);
            }
        }
        self.selection = Selection::VideoSegment(ix);
        one(Effect::Repaint)
    }

    /// A press on a zoom.
    pub fn zoom_down(&mut self, rect: &TimelineRect, ix: usize, x: i32) -> (r: Vec<Effect>)
        requires
            old(self)@.wf(),
        ensures
            (final(self)@, r@) == old(self)@.zoom_pressed(*rect, ix as int, x as int),
            final(self)@.wf(),
    {
        let ghost start = self@;
        if ix >= self.state.zooms.len() {
            let none: Vec<Effect> = Vec::new();
            assert(none@ =~= Seq::empty());
            return none;
        }
        let z = self.state.zooms[ix];
        assert(self@.state.zooms[ix as int].duration >= 0);
        let w = z.window();
        let d: i64 = self.info.duration;
        let x0: i128 = rect.time_to_x(w.0, d);
        let x1: i128 = rect.time_to_x(w.1, d);
        let drag = if is_near(x, x0) {
            TimelineDrag::ZoomEdge { ix, edge: Edge::Start }
        } else if is_near(x, x1) {
            TimelineDrag::ZoomEdge { ix, edge: Edge::End }
        } else {
            let t: i64 = rect.x_to_time(x, d);
            TimelineDrag::ZoomBody { ix, grab_offset: t - z.t }
        };
        self.timeline_drag = Some(drag);
        self.selection = Selection::Zoom(ix);
        one(Effect::Repaint)
    }

    /// A move over the timeline.
    pub fn timeline_move(&mut self, rect: &TimelineRect, x: i32) -> (r: Vec<Effect>)
        requires
            old(self)@.wf(),
        ensures
            (final(self)@, r@) == old(self)@.timeline_moved(*rect, x as int),
            final(self)@.wf(),
    {
        let ghost start = self@;
        if self.scrubbing {
            return self.scrub_to(rect, x);
        }
        let d: i64 = self.info.duration;
        match self.timeline_drag {
            Some(TimelineDrag::SegmentEdge { ix }) => {
                let t: i64 = rect.x_to_time(x, d);
                proof {
                    law_drag_keeps_tiling(self@.state.segments, ix as int, t as int, d as int);
                }
                self.state.resize_segment_edge(ix, t);
                one(Effect::Repaint)
            },
            Some(TimelineDrag::ZoomBody { ix, grab_offset }) => {
                let t: i64 = rect.x_to_time(x, d);
                let raw: i128 = t as i128 - grab_offset as i128;
                let new_t: i64 = if raw < i64::MIN as i128 {
                    i64::MIN
                } else if raw > i64::MAX as i128 {
                    i64::MAX
                } else {
                    raw as i64
                };
                proof {
                    if ix < self@.state.zooms.len() {
                        let z = clamped_zoom(
                            self@.state.zooms,
                            ZoomPoint { t: new_t, ..self@.state.zooms[ix as int] },
                            Some(ix as int),
                            d as int,
                        );
                        lemma_update_sound(self@.state.zooms, ix as int, z);
                    }
                }
                self.state.move_zoom(ix, new_t, d);
                one(Effect::Repaint)
            },
            Some(TimelineDrag::ZoomEdge { ix, edge }) => {
                let t: i64 = rect.x_to_time(x, d);
                proof {
                    if ix < self@.state.zooms.len() {
                        let z = self@.state.zooms[ix as int];
                        let w = dragged_window(z, edge, t as int);
                        let c = placed_zoom(
                            self@.state.zooms,
                            z,
                            w,
                            Some(ix as int),
                            d as int,
                        );
                        lemma_update_sound(self@.state.zooms, ix as int, c);
                    }
                }
                self.state.resize_zoom_edge(ix, edge, t, d);
                one(Effect::Repaint)
            },
            None => {
                let none: Vec<Effect> = Vec::new();
                assert(none@ =~= Seq::empty());
                none
            },
        }
    }

    /// The release of a drag over the timeline, or beside it.
    pub fn timeline_up(&mut self) -> (r: Vec<Effect>)
        requires
            old(self)@.wf(),
        ensures
            exists|s: Selection|
                old(self)@.released_selection(s) && final(self)@
                    == #[trigger] old(self)@.timeline_released(s),
            r@ == seq![Effect::Repaint],
            final(self)@.wf(),
    {
        let ghost start = self@;
        self.scrubbing = false;
        let drag = self.timeline_drag;
        self.timeline_drag = None;
        let ghost mut chosen = start.selection;
        match drag {
            Some(TimelineDrag::SegmentEdge { .. }) => {
                self.commit();
            },
            Some(TimelineDrag::ZoomBody { ix, .. }) => {
                self.settle_zoom(ix);
                proof {
                    chosen = self.selection;
                }
                self.commit();
            },
            Some(TimelineDrag::ZoomEdge { ix, .. }) => {
                self.settle_zoom(ix);
                proof {
                    chosen = self.selection;
                }
                self.commit();
            },
            None => {},
        }
        assert(self@ == start.timeline_released(chosen));
        one(Effect::Repaint)
    }

    /// Sort the zooms, and keep the one that was dragged selected.
    fn settle_zoom(&mut self, ix: usize)
        requires
            old(self)@.wf(),
        ensures
            final(self)@ == (VideoView {
                state: EditView {
                    zooms: sorted_zooms(old(self)@.state.zooms),
                    ..old(self)@.state
                },
                selection: final(self).selection,
                ..old(self)@
            }),
            if ix < old(self)@.state.zooms.len() {
                first_place(
                    sorted_zooms(old(self)@.state.zooms),
                    old(self)@.state.zooms[ix as int],
                    final(self).selection,
                )
            } else {
                final(self).selection == old(self).selection
            },
            final(self)@.wf(),
    {
        let ghost start = self@;
        proof {
            lemma_sorted_sound(self@.state.zooms);
            lemma_sorted_members(self@.state.zooms);
            law_sorting_orders_zooms(self@.state.zooms);
        }
        let held = ix < self.state.zooms.len();
        if held {
            let z = self.state.zooms[ix];
            assert(sorted_zooms(start.state.zooms).contains(start.state.zooms[ix as int]));
            self.state.resort_zooms();
            let mut i: usize = 0;
            while i < self.state.zooms.len() && self.state.zooms[i] != z
                invariant
                    i <= self.state.zooms@.len(),
                    forall|k: int| 0 <= k < i ==> self.state.zooms@[k] != z,
                decreases self.state.zooms.len() - i,
            {
                i += 1;
            }
            self.selection = Selection::Zoom(i);
        } else {
            self.state.resort_zooms();
        }
    }
}

/// A drag is one step of the history, however many moves it took: moving
/// changes no history.
pub proof fn law_moves_leave_history(v: VideoView, rect: TimelineRect, x: int)
    ensures
        v.timeline_moved(rect, x).0.history == v.history,
{
}

/// Scrubbing moves the playhead to the time under the pointer, and the player
/// with it.
pub proof fn law_scrubbing_seeks(v: VideoView, rect: TimelineRect, x: int)
    requires
        rect.width >= 256,
        v.info.duration >= 0,
    ensures
        ({
            let (next, effects) = v.scrubbed(rect, x);
            let t = rect.time_of(x, v.info.duration as int);
            &&& next.playhead == t
            &&& v.has_player ==> effects[0] == Effect::Seek(t as i64)
            &&& next.state == v.state
            &&& x <= rect.left ==> next.playhead == 0
            &&& x >= rect.left + rect.width ==> next.playhead == v.info.duration
        }),
{
    crate::video_editor::timeline::law_positions_beside_are_ends(
        rect,
        x,
        v.info.duration as int,
    );
    let w = rect.width as int;
    let d = v.info.duration as int;
    let at = crate::math::max_of(0, crate::math::min_of(x - rect.left, rect.span()));
    assert(0 <= at * d / w <= d) by (nonlinear_arith)
        requires
            0 <= at <= w,
            w > 0,
            d >= 0,
    ;
}

/// A press within six pixels of the boundary behind a segment takes hold of the
/// boundary, which then follows the pointer; any other press selects the
/// segment.
pub proof fn law_boundary_follows_the_pointer(
    v: VideoView,
    rect: TimelineRect,
    ix: int,
    a: int,
    x: int,
)
    requires
        0 <= ix < v.state.segments.len(),
        ix <= usize::MAX,
        !v.scrubbing,
    ensures
        ({
            let end = rect.x_of(v.state.segments[ix].end as int, v.info.duration as int);
            let held = ix + 1 < v.state.segments.len() && -1536 <= a - end <= 1536;
            let down = v.segment_pressed(rect, ix, a);
            &&& down.state == v.state
            &&& !held ==> down.selection == Selection::VideoSegment(ix as usize)
                && down.timeline_drag == v.timeline_drag
            &&& held ==> down.timeline_moved(rect, x).0.state.segments == drag_boundary(
                v.state.segments,
                ix,
                rect.time_of(x, v.info.duration as int),
            )
            &&& held ==> down.timeline_moved(rect, x).0.state.zooms == v.state.zooms
        }),
{
}

/// A zoom is held at an edge within six pixels of it, which then follows the
/// pointer, and else as a whole: then its centre moves as far in time as the
/// pointer.
pub proof fn law_zoom_follows_the_pointer(
    v: VideoView,
    rect: TimelineRect,
    ix: int,
    a: int,
    x: int,
)
    requires
        0 <= ix < v.state.zooms.len(),
        ix <= usize::MAX,
        !v.scrubbing,
        v.state.zooms[ix].t >= 0,
        0 <= rect.time_of(a, v.info.duration as int) <= v.info.duration,
        0 <= rect.time_of(x, v.info.duration as int) <= v.info.duration,
        v.info.duration < 0x4000_0000_0000_0000,
        v.state.zooms[ix].t < 0x2000_0000_0000_0000,
    ensures
        ({
            let d = v.info.duration as int;
            let z = v.state.zooms[ix];
            let (s, e) = (rect.x_of(z.start(), d), rect.x_of(z.end(), d));
            let at_start = -1536 <= a - s <= 1536;
            let at_end = -1536 <= a - e <= 1536 && !at_start;
            let down = v.zoom_pressed(rect, ix, a).0;
            let next = down.timeline_moved(rect, x).0.state.zooms;
            let t = rect.time_of(x, d);
            &&& down.selection == Selection::Zoom(ix as usize)
            &&& down.state == v.state
            &&& at_start ==> next == v.zooms_resized(ix, Edge::Start, t)
            &&& at_end ==> next == v.zooms_resized(ix, Edge::End, t)
            &&& !at_start && !at_end ==> next == v.zooms_moved(ix, z.t + (t - rect.time_of(a, d)))
        }),
{
}

/// A zoom that is moved to a place with room keeps all but its time, and the
/// other zooms stay as they are.
pub proof fn law_moved_zoom_keeps_its_length(v: VideoView, ix: int, t: i64, j: int)
    requires
        0 <= ix < v.state.zooms.len(),
        0 <= j < v.state.zooms.len(),
        forall|k: int| 0 <= k < v.state.zooms.len() ==> (#[trigger] v.state.zooms[k]).duration > 0,
        t - v.state.zooms[ix].duration / 2 >= 0,
        t - v.state.zooms[ix].duration / 2 + v.state.zooms[ix].duration <= v.info.duration,
        forall|k: int|
            0 <= k < v.state.zooms.len() && k != ix ==> (#[trigger] v.state.zooms[k]).end() <= t
                - v.state.zooms[ix].duration / 2 || v.state.zooms[k].start() >= t
                - v.state.zooms[ix].duration / 2 + v.state.zooms[ix].duration,
    ensures
        ({
            let after = v.zooms_moved(ix, t as int);
            &&& after.len() == v.state.zooms.len()
            &&& after[ix].t == t
            &&& after[ix].duration == v.state.zooms[ix].duration
            &&& after[ix].cx == v.state.zooms[ix].cx && after[ix].cy == v.state.zooms[ix].cy
            &&& after[ix].level == v.state.zooms[ix].level
            &&& j != ix ==> after[j] == v.state.zooms[j]
        }),
{
    let z = ZoomPoint { t, ..v.state.zooms[ix] };
    assert(v.state.zooms[ix].duration > 0);
    crate::video_editor::zooms::law_free_zoom_is_unchanged(
        v.state.zooms,
        z,
        Some(ix),
        v.info.duration as int,
    );
}

/// Letting go of the timeline ends the drag and makes one edit of it. The zooms
/// are put in order; none is lost or changed.
pub proof fn law_release_commits_the_drag(v: VideoView, s: Selection)
    ensures
        ({
            let after = v.timeline_released(s);
            &&& after.timeline_drag is None && !after.scrubbing
            &&& after.state.segments == v.state.segments
            &&& after.state.zooms.to_multiset() =~= v.state.zooms.to_multiset()
            &&& v.timeline_drag is Some ==> after.history.current() == after.state
            &&& v.timeline_drag is None ==> after.history == v.history
        }),
{
    crate::video_editor::zooms::law_sorting_orders_zooms(v.state.zooms);
}

/// After a zoom was let go, it is the one that is selected, wherever it is in
/// the order.
pub proof fn law_released_zoom_stays_selected(v: VideoView, s: Selection, ix: usize)
    requires
        v.released_selection(s),
        v.timeline_drag matches Some(TimelineDrag::ZoomBody { ix: j, .. }) && j == ix,
        ix < v.state.zooms.len(),
    ensures
        v.timeline_released(s).selection matches Selection::Zoom(k) && k
            < v.timeline_released(s).state.zooms.len() && v.timeline_released(s).state.zooms[k as int]
            == v.state.zooms[ix as int],
{
    crate::video_editor::zooms::law_sorting_orders_zooms(v.state.zooms);
}

} // verus!
