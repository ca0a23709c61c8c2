//! The preview: where the video lies in the window, drawing on it, and framing
//! the selected zoom.
use vstd::prelude::*;
use crate::draw::{
    drag_is_meant, dragged_shape, is_drag, make_style, shape_from_drag, Tool, Typing, TypingView,
};
use crate::editor::{draft_is, draft_of, on_picture, push_annotation, Draft};
use crate::geometry::{
    fit_picture, fitted, lemma_point_inside, picture_point, Extent, Fit, Pos, FIT_LIMIT,
};
use crate::math::floor_div;
use crate::math::{abs_of, max_of, min_of};
use crate::spec::{first_free, next_marker_number, Annotation, AnnotationView};
use crate::srt::Cue;
use crate::text;
use crate::video::{ZoomPoint, LEVEL_ONE};
use crate::video_editor::keys::one;
use crate::video_editor::model::{
    video_color, zoom_sound, zooms_sound, Effect, PreviewDrag, VideoEditor, VideoView,
};
use crate::video_editor::state::{clamped, EditView, Selection, MAX_LEVEL};
use crate::video_editor::zooms::{crop_rect_for, crop_shown, half_view, overlap, zooms_apart, zooms_placed};

verus! {

broadcast use vstd::seq_lib::group_seq_properties;

/// The width of the inspector and the heights of the toolbar and the timeline,
/// in 1/256 pixels.
pub const INSPECTOR_W: i64 = 66_560;

pub const TOOLBAR: i64 = 13_312;

pub const TIMELINE: i64 = 33_792;

/// How close to a corner a press must be to drag it: ten pixels.
pub const CORNER_HIT: i64 = 2560;

/// Where the video lies in the area beside the inspector and between the
/// toolbar and the timeline.
pub open spec fn place(view: Extent, width: u32, height: u32) -> Option<Fit> {
    fitted(view.w - INSPECTOR_W, view.h - TOOLBAR - TIMELINE, width as int, height as int, None)
}

/// The point of the video at a position of the window.
pub open spec fn video_hit(
    p: Option<(i64, i64)>,
    pos: Pos,
    view: Extent,
    width: u32,
    height: u32,
) -> bool {
    match place(view, width, height) {
        Some(f) => picture_point(p, f, pos.x as int, pos.y - TOOLBAR, width as int, height as int),
        None => p is None,
    }
}

/// The part of a `w` by `h` picture that a zoom shows when it is fully in.
pub open spec fn peak_rect(z: ZoomPoint, w: int, h: int) -> (int, int, int, int) {
    let vw = w * LEVEL_ONE / z.level as int;
    let vh = h * LEVEL_ONE / z.level as int;
    (
        min_of(max_of(z.cx - vw / 2, 0), max_of(w - vw, 0)),
        min_of(max_of(z.cy - vh / 2, 0), max_of(h - vh, 0)),
        vw,
        vh,
    )
}

/// The corners of the frame of a zoom in the area of the preview.
pub open spec fn frame_corners(f: Fit, r: (int, int, int, int)) -> (int, int, int, int) {
    (
        f.ox + f.scaled(r.0),
        f.oy + f.scaled(r.1),
        f.ox + f.scaled(r.0 + r.2),
        f.oy + f.scaled(r.1 + r.3),
    )
}

/// Two positions are at most `CORNER_HIT` apart.
pub open spec fn close(x: int, y: int, a: int, b: int) -> bool {
    (x - a) * (x - a) + (y - b) * (y - b) <= CORNER_HIT * CORNER_HIT
}

/// A position is close to one of the corners.
pub open spec fn at_corner(c: (int, int, int, int), x: int, y: int) -> bool {
    close(x, y, c.0, c.1) || close(x, y, c.2, c.1) || close(x, y, c.0, c.3) || close(x, y, c.2, c.3)
}

/// A position lies on the frame, or so close beside it.
pub open spec fn on_frame(c: (int, int, int, int), x: int, y: int) -> bool {
    c.0 - CORNER_HIT <= x <= c.2 + CORNER_HIT && c.1 - CORNER_HIT <= y <= c.3 + CORNER_HIT
}

/// The level at which a corner is that far from the centre.
pub open spec fn level_for(size: int, d: int) -> int {
    if d > 256 {
        size * LEVEL_ONE / (2 * d)
    } else {
        MAX_LEVEL as int
    }
}

impl VideoView {
    pub open spec fn video_w(self) -> int {
        self.info.width * 256
    }

    pub open spec fn video_h(self) -> int {
        self.info.height * 256
    }

    /// The drag that a press on the frame of zoom `ix` begins: of its level at
    /// a corner, else of its centre.
    pub open spec fn frame_drag(self, ix: int, f: Fit, pos: Pos, p: Option<(i64, i64)>) -> Option<
        PreviewDrag,
    > {
        let z = self.state.zooms[ix];
        let c = frame_corners(f, peak_rect(z, self.video_w(), self.video_h()));
        let x = pos.x as int;
        let y = pos.y - TOOLBAR;
        if !on_frame(c, x, y) {
            None
        } else if at_corner(c, x, y) {
            Some(PreviewDrag::ResizeLevel { ix: ix as usize })
        } else {
            match p {
                Some(p) => Some(
                    PreviewDrag::MoveCenter {
                        ix: ix as usize,
                        grab_dx: (p.0 - z.cx) as i64,
                        grab_dy: (p.1 - z.cy) as i64,
                    },
                ),
                None => None,
            }
        }
    }

    /// The drag of the selected zoom's frame that a press begins.
    pub open spec fn pressed_frame(self, f: Option<Fit>, pos: Pos, p: Option<(i64, i64)>) -> Option<
        PreviewDrag,
    > {
        match (self.selection, f) {
            (Selection::Zoom(ix), Some(f)) => if ix < self.state.zooms.len() {
                self.frame_drag(ix as int, f, pos, p)
            } else {
                None
            },
            _ => None,
        }
    }

    /// After a press on point `p` of the video, if any, that begins no drag of
    /// a frame.
    pub open spec fn drawn_at(self, p: Option<(i64, i64)>) -> (VideoView, Seq<Effect>) {
        match p {
            None => (self, Seq::empty()),
            Some(p) => match self.tool {
                None => if self.selection != Selection::Nothing {
                    (
                        VideoView { selection: Selection::Nothing, ..self },
                        seq![Effect::Repaint],
                    )
                } else {
                    (self, Seq::empty())
                },
                Some(Tool::Marker) => (
                    VideoView {
                        state: EditView {
                            annotations: self.state.annotations.push(
                                AnnotationView::Marker {
                                    x: p.0,
                                    y: p.1,
                                    number: Some(first_free(self.state.annotations) as u32),
                                    size: None,
                                    style: self.style(),
                                },
                            ),
                            ..self.state
                        },
                        ..self
                    }.committed(),
                    seq![Effect::Redraw],
                ),
                Some(Tool::Text) => (
                    VideoView {
                        typing: Some(TypingView { x: p.0, y: p.1, text: Seq::empty() }),
                        ..self
                    },
                    seq![Effect::Redraw],
                ),
                Some(_) => (VideoView { drag_start: Some(p), ..self }, Seq::empty()),
            },
        }
    }

    /// After a press on the preview: a text that is being typed is taken, else
    /// the frame of the selected zoom is dragged, else the tool is used.
    pub open spec fn preview_pressed(self, f: Option<Fit>, pos: Pos, p: Option<(i64, i64)>) -> (
        VideoView,
        Seq<Effect>,
    ) {
        if self.typing is Some {
            (self.typing_committed(), seq![Effect::Redraw])
        } else {
            match self.pressed_frame(f, pos, p) {
                Some(d) => (
                    VideoView { preview_drag: Some(d), ..self },
                    seq![Effect::Repaint],
                ),
                None => self.drawn_at(p),
            }
        }
    }

    /// The zooms while the centre of zoom `ix` is moved to `(x, y)`.
    pub open spec fn zooms_centred(self, ix: int, x: int, y: int) -> Seq<ZoomPoint> {
        if ix < self.state.zooms.len() {
            let z = self.state.zooms[ix];
            let hw = half_view(self.video_w(), z.level as int);
            let hh = half_view(self.video_h(), z.level as int);
            self.state.zooms.update(
                ix,
                ZoomPoint {
                    cx: clamped(x, hw, self.video_w() - hw) as i64,
                    cy: clamped(y, hh, self.video_h() - hh) as i64,
                    ..z
                },
            )
        } else {
            self.state.zooms
        }
    }

    /// The zooms while a corner of zoom `ix` is dragged to `p`: the level is
    /// the one that keeps the corner there, between 1 and 8.
    pub open spec fn zooms_levelled(self, ix: int, p: (i64, i64)) -> Seq<ZoomPoint> {
        if ix < self.state.zooms.len() {
            let z = self.state.zooms[ix];
            let level = min_of(
                level_for(self.video_w(), abs_of(p.0 - z.cx)),
                level_for(self.video_h(), abs_of(p.1 - z.cy)),
            );
            self.state.zooms.update(
                ix,
                ZoomPoint {
                    level: clamped(level, LEVEL_ONE as int, MAX_LEVEL as int) as u32,
                    ..z
                },
            )
        } else {
            self.state.zooms
        }
    }

    /// After a move over the preview.
    pub open spec fn preview_moved(self, p: Option<(i64, i64)>) -> (VideoView, Seq<Effect>) {
        match self.preview_drag {
            Some(PreviewDrag::MoveCenter { ix, grab_dx, grab_dy }) => match p {
                Some(p) => (
                    VideoView {
                        state: EditView {
                            zooms: self.zooms_centred(ix as int, p.0 - grab_dx, p.1 - grab_dy),
                            ..self.state
                        },
                        ..self
                    },
                    seq![Effect::Repaint],
                ),
                None => (self, Seq::empty()),
            },
            Some(PreviewDrag::ResizeLevel { ix }) => match p {
                Some(p) => if ix < self.state.zooms.len() {
                    (
                        VideoView {
                            state: EditView {
                                zooms: self.zooms_levelled(ix as int, p),
                                ..self.state
                            },
                            ..self
                        },
                        seq![Effect::Repaint],
                    )
                } else {
                    (self, Seq::empty())
                },
                None => (self, Seq::empty()),
            },
            None => if self.drag_start is Some && p is Some {
                (VideoView { drag_current: p, ..self }, seq![Effect::Repaint])
            } else {
                (self, Seq::empty())
            },
        }
    }

    /// After the release over the preview: a drag of a frame is taken into the
    /// history, and a drag with a tool leaves its shape.
    pub open spec fn preview_released(self, p: Option<(i64, i64)>) -> (VideoView, Seq<Effect>) {
        if self.preview_drag is Some {
            (VideoView { preview_drag: None, ..self }.committed(), seq![Effect::Repaint])
        } else {
            match self.drag_start {
                None => (self, Seq::empty()),
                Some(s) => {
                    let e = match p {
                        Some(p) => p,
                        None => match self.drag_current {
                            Some(c) => c,
                            None => s,
                        },
                    };
                    let done = VideoView { drag_start: None, drag_current: None, ..self };
                    let tool = match self.tool {
                        Some(t) => t,
                        None => Tool::Rect,
                    };
                    (
                        if is_drag(s.0 as int, s.1 as int, e.0 as int, e.1 as int) {
                            VideoView {
                                state: EditView {
                                    annotations: self.state.annotations.push(
                                        dragged_shape(tool, s, e, self.style(), 0),
                                    ),
                                    ..self.state
                                },
                                ..done
                            }.committed()
                        } else {
                            done
                        },
                        seq![Effect::Redraw],
                    )
                },
            }
        }
    }
}

proof fn lemma_same_windows(a: Seq<ZoomPoint>, b: Seq<ZoomPoint>, ix: int)
    requires
        zooms_placed(a),
        zooms_apart(a),
        0 <= ix < a.len(),
        b.len() == a.len(),
        b =~= a.update(ix, b[ix]),
        b[ix].t == a[ix].t,
        b[ix].duration == a[ix].duration,
    ensures
        zooms_placed(b),
        zooms_apart(b),
{
    assert forall|i: int| 0 <= i < b.len() implies (#[trigger] b[i]).t == a[i].t && b[i].duration
        == a[i].duration by {}
    assert forall|i: int| 0 <= i < b.len() implies (#[trigger] b[i]).duration >= 0 && b[i].start()
        >= 0 && b[i].end() <= i64::MAX by {
        assert(a[i].duration >= 0);
    }
    assert forall|i: int, j: int|
        #![trigger b[i], b[j]]
        0 <= i < j < b.len() implies !overlap(
        b[i].start(),
        b[i].end(),
        b[j].start(),
        b[j].end(),
    ) by {
        assert(b[i].t == a[i].t && b[j].t == a[j].t);
        assert(!overlap(a[i].start(), a[i].end(), a[j].start(), a[j].end()));
    }
}

proof fn lemma_sound_update(zooms: Seq<ZoomPoint>, ix: int, z: ZoomPoint)
    requires
        zooms_sound(zooms),
        0 <= ix < zooms.len(),
        zoom_sound(z),
    ensures
        zooms_sound(zooms.update(ix, z)),
{
    let after = zooms.update(ix, z);
    assert forall|i: int| 0 <= i < after.len() implies zoom_sound(#[trigger] after[i]) by {
        if i != ix {
            assert(after[i] == zooms[i]);
        }
    }
}

proof fn lemma_peak(size: int, level: int)
    requires
        0 <= size <= 0x100_0000_0000,
        LEVEL_ONE <= level,
    ensures
        0 <= size * LEVEL_ONE / level <= size,
        0 <= size * LEVEL_ONE <= 0x100_0000_0000 * 1_000_000,
        0 <= half_view(size, level) <= size,
        half_view(size, level) <= size - half_view(size, level),
{
    let v = size * LEVEL_ONE / level;
    assert(0 <= v <= size && 0 <= size * LEVEL_ONE <= 0x100_0000_0000 * 1_000_000)
        by (nonlinear_arith)
        requires
            0 <= size <= 0x100_0000_0000,
            LEVEL_ONE <= level,
            LEVEL_ONE == 1_000_000,
            v == size * LEVEL_ONE / level,
    ;
}

fn peak_axis(size: i64, level: u32, c: i64) -> (r: (i64, i64))
    requires
        0 <= size <= 0x100_0000_0000,
        LEVEL_ONE <= level,
        0 <= c <= 0x100_0000_0000,
    ensures
        r.1 == size * LEVEL_ONE / level as int,
        r.0 == min_of(max_of(c - r.1 as int / 2, 0), max_of(size - r.1, 0)),
        0 <= r.0,
        0 <= r.1,
        r.0 + r.1 <= size,
{
    proof {
        lemma_peak(size as int, level as int);
    }
    let v: i64 = (size as i128 * LEVEL_ONE as i128 / level as i128) as i64;
    let at: i64 = c - v / 2;
    let low: i64 = if at < 0 {
        0
    } else {
        at
    };
    let high: i64 = size - v;
    (
        if low < high {
            low
        } else {
            high
        },
        v,
    )
}

fn is_close(x: i128, y: i128, a: i128, b: i128) -> (r: bool)
    requires
        -4 * FIT_LIMIT <= x <= 4 * FIT_LIMIT,
        -4 * FIT_LIMIT <= y <= 4 * FIT_LIMIT,
        -4 * FIT_LIMIT <= a <= 4 * FIT_LIMIT,
        -4 * FIT_LIMIT <= b <= 4 * FIT_LIMIT,
    ensures
        r == close(x as int, y as int, a as int, b as int),
{
    let dx: i128 = x - a;
    let dy: i128 = y - b;
    proof {
        let (p, q) = (dx as int, dy as int);
        assert(p * p >= 0 && q * q >= 0) by (nonlinear_arith);
        assert(p > 2560 || p < -2560 ==> p * p > 2560 * 2560) by (nonlinear_arith);
        assert(q > 2560 || q < -2560 ==> q * q > 2560 * 2560) by (nonlinear_arith);
        assert(-2560 <= p <= 2560 ==> p * p <= 2560 * 2560) by (nonlinear_arith);
        assert(-2560 <= q <= 2560 ==> q * q <= 2560 * 2560) by (nonlinear_arith);
    }
    if dx > 2560 || dx < -2560 || dy > 2560 || dy < -2560 {
        return false;
    }
    dx * dx + dy * dy <= 6_553_600
}

fn corner_level(size: i64, d: i64) -> (r: i64)
    requires
        0 <= size <= 0x100_0000_0000,
        0 <= d <= 0x200_0000_0000,
    ensures
        r == level_for(size as int, d as int),
        0 <= r <= 0x100_0000_0000 * 1_000_000,
{
    if d > 256 {
        proof {
            assert(0 <= size * 1_000_000 <= 0x100_0000_0000 * 1_000_000) by (nonlinear_arith)
                requires
                    0 <= size <= 0x100_0000_0000,
            ;
            let p = size * 1_000_000;
            assert(0 <= p / (2 * d) <= p) by (nonlinear_arith)
                requires
                    0 <= p,
                    d > 0,
            ;
        }
        (size * 1_000_000) / (2 * d)
    } else {
        8_000_000
    }
}

impl VideoEditor {
    /// Where the video lies in the window, below the toolbar.
    pub fn fit(&self, view: Extent) -> (r: Option<Fit>)
        ensures
            r == place(view, self.info.width, self.info.height),
            r matches Some(f) ==> f.wf(),
    {
        fit_picture(
            view.w as i64 - INSPECTOR_W,
            view.h as i64 - TOOLBAR - TIMELINE,
            self.info.width,
            self.info.height,
            None,
        )
    }

    /// The point of the video at a position of the window.
    pub fn to_video_coords(&self, pos: Pos, view: Extent) -> (r: Option<(i64, i64)>)
        ensures
            video_hit(r, pos, view, self.info.width, self.info.height),
            on_picture(r, self.info.width, self.info.height),
    {
        match self.fit(view) {
            Some(f) => {
                let p = f.to_picture(
                    pos.x as i64,
                    pos.y as i64 - TOOLBAR,
                    self.info.width,
                    self.info.height,
                );
                proof {
                    lemma_point_inside(
                        p,
                        f,
                        pos.x as int,
                        pos.y - TOOLBAR,
                        self.info.width as int,
                        self.info.height as int,
                    );
                }
                p
            },
            None => None,
        }
    }

    /// The part of the picture that zoom `ix` shows when it is fully in.
    pub fn peak_crop_rect(&self, ix: usize) -> (r: Option<(i64, i64, i64, i64)>)
        requires
            self@.wf(),
        ensures
            match r {
                Some(q) => ix < self@.state.zooms.len() && (
                    q.0 as int,
                    q.1 as int,
                    q.2 as int,
                    q.3 as int,
                ) == peak_rect(
                    self@.state.zooms[ix as int],
                    self@.video_w(),
                    self@.video_h(),
                ) && 0 <= q.0 && 0 <= q.1 && 0 <= q.2 && 0 <= q.3 && q.0 + q.2 <= self@.video_w()
                    && q.1 + q.3 <= self@.video_h(),
                None => ix >= self@.state.zooms.len(),
            },
    {
        if ix >= self.state.zooms.len() {
            return None;
        }
        let z = self.state.zooms[ix];
        assert(zoom_sound(self@.state.zooms[ix as int]));
        let h = peak_axis(self.info.width as i64 * 256, z.level, z.cx);
        let v = peak_axis(self.info.height as i64 * 256, z.level, z.cy);
        Some((h.0, v.0, h.1, v.1))
    }
}

impl VideoEditor {
    /// The drag that a press on the frame of the selected zoom begins.
    fn crop_rect_down(&self, pos: Pos, view: Extent, p: Option<(i64, i64)>) -> (r: Option<
        PreviewDrag,
    >)
        requires
            self@.wf(),
            on_picture(p, self.info.width, self.info.height),
        ensures
            r == self@.pressed_frame(place(view, self.info.width, self.info.height), pos, p),
            crate::video_editor::model::preview_ok(r),
    {
        let ix: usize = match self.selection {
            Selection::Zoom(i) => i,
            _ => {
                return None;
            },
        };
        let f = match self.fit(view) {
            Some(f) => f,
            None => {
                return None;
            },
        };
        let q = match self.peak_crop_rect(ix) {
            Some(q) => q,
            None => {
                return None;
            },
        };
        let z = self.state.zooms[ix];
        assert(zoom_sound(self@.state.zooms[ix as int]));
        let x0: i128 = f.ox + f.scale(q.0);
        let y0: i128 = f.oy + f.scale(q.1);
        let x1: i128 = f.ox + f.scale(q.0 + q.2);
        let y1: i128 = f.oy + f.scale(q.1 + q.3);
        let x: i128 = pos.x as i128;
        let y: i128 = pos.y as i128 - TOOLBAR as i128;
        let hit: i128 = CORNER_HIT as i128;
        if x < x0 - hit || x > x1 + hit || y < y0 - hit || y > y1 + hit {
            return None;
        }
        if is_close(x, y, x0, y0) || is_close(x, y, x1, y0) || is_close(x, y, x0, y1) || is_close(
            x,
            y,
            x1,
            y1,
        ) {
            return Some(PreviewDrag::ResizeLevel { ix });
        }
        match p {
            Some(p) => Some(
                PreviewDrag::MoveCenter { ix, grab_dx: p.0 - z.cx, grab_dy: p.1 - z.cy },
            ),
            None => None,
        }
    }

    fn draw_at(&mut self, p: Option<(i64, i64)>) -> (r: Vec<Effect>)
        requires
            old(self)@.wf(),
            on_picture(p, old(self).info.width, old(self).info.height),
            first_free(old(self)@.state.annotations) <= u32::MAX,
        ensures
            (final(self)@, r@) == old(self)@.drawn_at(p),
            final(self)@.wf(),
    {
        let ghost start = self@;
        let none: Vec<Effect> = Vec::new();
        assert(none@ =~= Seq::empty());
        match p {
            None => none,
            Some(q) => match self.tool {
                None => {
                    if self.selection != Selection::Nothing {
                        self.selection = Selection::Nothing;
                        one(Effect::Repaint)
                    } else {
                        none
                    }
                },
                Some(Tool::Marker) => {
                    let number: u32 = next_marker_number(&self.state.annotations);
                    let style = make_style(video_color(self.color_ix).0, 1280);
                    push_annotation(
                        &mut self.state.annotations,
                        Annotation::Marker {
                            x: q.0,
                            y: q.1,
                            number: Some(number),
                            size: None,
                            style,
                        },
                    );
                    self.commit();
                    one(Effect::Redraw)
                },
                Some(Tool::Text) => {
                    self.typing = Some(Typing { x: q.0, y: q.1, text: String::new() });
                    assert(self@.typing =~= start.drawn_at(p).0.typing);
                    one(Effect::Redraw)
                },
                Some(_) => {
                    self.drag_start = Some(q);
                    none
                },
            },
        }
    }

    /// A press on the preview.
    pub fn preview_down(&mut self, pos: Pos, view: Extent) -> (r: Vec<Effect>)
        requires
            old(self)@.wf(),
            first_free(old(self)@.state.annotations) <= u32::MAX,
        ensures
            exists|p: Option<(i64, i64)>|
                video_hit(p, pos, view, old(self).info.width, old(self).info.height) && (
                final(self)@,
                r@,
                ) == #[trigger] old(self)@.preview_pressed(
                    place(view, old(self).info.width, old(self).info.height),
                    pos,
                    p,
                ),
            final(self)@.wf(),
    {
        let ghost start = self@;
        let p = self.to_video_coords(pos, view);
        let ghost f = place(view, self.info.width, self.info.height);
        let r = if self.typing.is_some() {
            self.commit_typing()
        } else {
            match self.crop_rect_down(pos, view, p) {
                Some(d) => {
                    self.preview_drag = Some(d);
                    one(Effect::Repaint)
                },
                None => self.draw_at(p),
            }
        };
        assert((self@, r@) == start.preview_pressed(f, pos, p));
        r
    }

    fn centre_zoom(&mut self, ix: usize, x: i64, y: i64)
        requires
            old(self)@.wf(),
        ensures
            final(self)@ == (VideoView {
                state: EditView {
                    zooms: old(self)@.zooms_centred(ix as int, x as int, y as int),
                    ..old(self)@.state
                },
                ..old(self)@
            }),
            final(self)@.wf(),
    {
        let ghost before = self@;
        proof {
            if ix < before.state.zooms.len() {
                let z = before.state.zooms[ix as int];
                assert(zoom_sound(z));
                lemma_peak(before.video_w(), z.level as int);
                lemma_peak(before.video_h(), z.level as int);
                let after = before.zooms_centred(ix as int, x as int, y as int);
                assert(zoom_sound(after[ix as int]));
                lemma_sound_update(before.state.zooms, ix as int, after[ix as int]);
                lemma_same_windows(before.state.zooms, after, ix as int);
            }
        }
        self.state.move_zoom_center(
            ix,
            x,
            y,
            self.info.width as i64 * 256,
            self.info.height as i64 * 256,
        );
    }

    /// Set the level of a zoom.
    pub(crate) fn level_zoom(&mut self, ix: usize, level: u32)
        requires
            old(self)@.wf(),
        ensures
            final(self)@ == (VideoView {
                state: EditView {
                    zooms: if ix < old(self)@.state.zooms.len() {
                        old(self)@.state.zooms.update(
                            ix as int,
                            ZoomPoint {
                                level: clamped(
                                    level as int,
                                    LEVEL_ONE as int,
                                    MAX_LEVEL as int,
                                ) as u32,
                                ..old(self)@.state.zooms[ix as int]
                            },
                        )
                    } else {
                        old(self)@.state.zooms
                    },
                    ..old(self)@.state
                },
                ..old(self)@
            }),
            final(self)@.wf(),
    {
        let ghost before = self@;
        proof {
            if ix < before.state.zooms.len() {
                let z = before.state.zooms[ix as int];
                assert(zoom_sound(z));
                let n = ZoomPoint {
                    level: clamped(level as int, LEVEL_ONE as int, MAX_LEVEL as int) as u32,
                    ..z
                };
                lemma_sound_update(before.state.zooms, ix as int, n);
                lemma_same_windows(
                    before.state.zooms,
                    before.state.zooms.update(ix as int, n),
                    ix as int,
                );
            }
        }
        self.state.set_zoom_level(ix, level);
    }

    fn drag_corner(&mut self, ix: usize, p: (i64, i64))
        requires
            old(self)@.wf(),
            on_picture(Some(p), old(self).info.width, old(self).info.height),
            ix < old(self)@.state.zooms.len(),
        ensures
            final(self)@ == (VideoView {
                state: EditView {
                    zooms: old(self)@.zooms_levelled(ix as int, p),
                    ..old(self)@.state
                },
                ..old(self)@
            }),
            final(self)@.wf(),
    {
        let z = self.state.zooms[ix];
        assert(zoom_sound(self@.state.zooms[ix as int]));
        let dx: i64 = crate::math::abs_i64(p.0 - z.cx);
        let dy: i64 = crate::math::abs_i64(p.1 - z.cy);
        let lx: i64 = corner_level(self.info.width as i64 * 256, dx);
        let ly: i64 = corner_level(self.info.height as i64 * 256, dy);
        let low: i64 = if lx < ly {
            lx
        } else {
            ly
        };
        let level: u32 = if low > 8_000_000 {
            8_000_000
        } else {
            low as u32
        };
        self.level_zoom(ix, level);
    }

    /// A move over the preview.
    pub fn preview_move(&mut self, pos: Pos, view: Extent) -> (r: Vec<Effect>)
        requires
            old(self)@.wf(),
        ensures
            exists|p: Option<(i64, i64)>|
                video_hit(p, pos, view, old(self).info.width, old(self).info.height) && (
                final(self)@,
                r@,
                ) == #[trigger] old(self)@.preview_moved(p),
            final(self)@.wf(),
    {
        let ghost start = self@;
        let p = self.to_video_coords(pos, view);
        let none: Vec<Effect> = Vec::new();
        assert(none@ =~= Seq::empty());
        let r = match self.preview_drag {
            Some(PreviewDrag::MoveCenter { ix, grab_dx, grab_dy }) => match p {
                Some(q) => {
                    self.centre_zoom(ix, q.0 - grab_dx, q.1 - grab_dy);
                    one(Effect::Repaint)
                },
                None => none,
            },
            Some(PreviewDrag::ResizeLevel { ix }) => match p {
                Some(q) => {
                    if ix < self.state.zooms.len() {
                        self.drag_corner(ix, q);
                        one(Effect::Repaint)
                    } else {
                        none
                    }
                },
                None => none,
            },
            None => {
                if self.drag_start.is_some() && p.is_some() {
                    self.drag_current = p;
                    one(Effect::Repaint)
                } else {
                    none
                }
            },
        };
        assert((self@, r@) == start.preview_moved(p));
        r
    }

    /// The release over the preview.
    pub fn preview_up(&mut self, pos: Pos, view: Extent) -> (r: Vec<Effect>)
        requires
            old(self)@.wf(),
        ensures
            exists|p: Option<(i64, i64)>|
                video_hit(p, pos, view, old(self).info.width, old(self).info.height) && (
                final(self)@,
                r@,
                ) == #[trigger] old(self)@.preview_released(p),
            final(self)@.wf(),
    {
        let ghost start = self@;
        let p = self.to_video_coords(pos, view);
        let r = if self.preview_drag.is_some() {
            self.preview_drag = None;
            self.commit();
            one(Effect::Repaint)
        } else {
            match self.drag_start {
                None => {
                    let none: Vec<Effect> = Vec::new();
                    assert(none@ =~= Seq::empty());
                    none
                },
                Some(s) => {
                    let e = match p {
                        Some(q) => q,
                        None => match self.drag_current {
                            Some(c) => c,
                            None => s,
                        },
                    };
                    self.drag_start = None;
                    self.drag_current = None;
                    if drag_is_meant(s, e) {
                        let tool = match self.tool {
                            Some(t) => t,
                            None => Tool::Rect,
                        };
                        let style = make_style(video_color(self.color_ix).0, 1280);
                        push_annotation(
                            &mut self.state.annotations,
                            shape_from_drag(tool, s, e, style, 0),
                        );
                        self.commit();
                    }
                    one(Effect::Redraw)
                },
            }
        };
        assert((self@, r@) == start.preview_released(p));
        r
    }
}

// ---- what is shown ----

/// Where the picture lies in the preview: all of it, or as much larger as the
/// zoom at the playhead makes it, so that what it shows fills the place.
pub open spec fn layout_is(
    r: (i128, i128, i128, i128),
    f: Fit,
    width: int,
    crop: Option<(int, int, int, int)>,
) -> bool {
    match crop {
        None => r.0 == f.ox && r.1 == f.oy && r.2 == f.dw && r.3 == f.dh,
        Some((x0, y0, vw, _)) => if vw <= 0 {
            r.0 == f.ox && r.1 == f.oy && r.2 == f.dw && r.3 == f.dh
        } else {
            &&& r.0 == f.ox - f.scaled(x0) * width / vw
            &&& r.1 == f.oy - f.scaled(y0) * width / vw
            &&& r.2 == f.dw * width / vw
            &&& r.3 == f.dh * width / vw
        },
    }
}

/// A length times `width / view`.
fn enlarge(v: i128, width: i64, view: i64) -> (r: i128)
    requires
        -FIT_LIMIT <= v <= FIT_LIMIT,
        0 <= width <= 0x100_0000_0000,
        0 < view,
    ensures
        r == v * width / view as int,
        -FIT_LIMIT * 0x100_0000_0000 <= r <= FIT_LIMIT * 0x100_0000_0000,
{
    proof {
        let l = FIT_LIMIT as int;
        assert(-l * 0x100_0000_0000 <= v * width <= l * 0x100_0000_0000) by (nonlinear_arith)
            requires
                -l <= v <= l,
                0 <= width <= 0x100_0000_0000,
        ;
        let p = v * width;
        let m = l * 0x100_0000_0000;
        assert(-m <= p / view as int <= m) by (nonlinear_arith)
            requires
                -m <= p <= m,
                view > 0,
        ;
    }
    floor_div(v * width as i128, view as i128)
}

impl VideoEditor {
    /// Where the picture lies in the preview at the playhead.
    pub fn frame_layout(&self, f: &Fit) -> (r: (i128, i128, i128, i128))
        requires
            self@.wf(),
            f.wf(),
        ensures
            layout_is(
                r,
                *f,
                self@.video_w(),
                crop_shown(
                    self.playhead as int,
                    self@.state.zooms,
                    self@.video_w(),
                    self@.video_h(),
                ),
            ),
    {
        let w: i64 = self.info.width as i64 * 256;
        let h: i64 = self.info.height as i64 * 256;
        let whole = (f.ox, f.oy, f.dw, f.dh);
        match crop_rect_for(self.playhead, self.state.zooms.as_slice(), w, h) {
            None => whole,
            Some((x0, y0, vw, vh)) => {
                if vw <= 0 {
                    return whole;
                }
                proof {
                    crate::video_editor::zooms::law_crop_lies_inside(
                        self.playhead as int,
                        self@.state.zooms,
                        w as int,
                        h as int,
                    );
                }
                (
                    f.ox - enlarge(f.scale(x0), w, vw),
                    f.oy - enlarge(f.scale(y0), w, vw),
                    enlarge(f.dw, w, vw),
                    enlarge(f.dh, w, vw),
                )
            },
        }
    }

    /// The frame of the selected zoom on the preview: its place and size.
    pub fn selected_frame(&self, f: &Fit) -> (r: Option<(i128, i128, i128, i128)>)
        requires
            self@.wf(),
            f.wf(),
        ensures
            match self.selection {
                Selection::Zoom(ix) => if ix < self@.state.zooms.len() {
                    let q = peak_rect(
                        self@.state.zooms[ix as int],
                        self@.video_w(),
                        self@.video_h(),
                    );
                    r == Some(
                        (
                            (f.ox + f.scaled(q.0)) as i128,
                            (f.oy + f.scaled(q.1)) as i128,
                            f.scaled(q.2) as i128,
                            f.scaled(q.3) as i128,
                        ),
                    )
                } else {
                    r is None
                },
                _ => r is None,
            },
    {
        match self.selection {
            Selection::Zoom(ix) => match self.peak_crop_rect(ix) {
                Some(q) => Some(
                    (
                        f.ox + f.scale(q.0),
                        f.oy + f.scale(q.1),
                        f.scale(q.2),
                        f.scale(q.3),
                    ),
                ),
                None => None,
            },
            _ => None,
        }
    }

    /// The place of the caption that is shown at the playhead: the first one
    /// whose time it is, while captions are burned in.
    pub fn shown_cue(&self) -> (r: Option<usize>)
        ensures
            match r {
                Some(i) => self@.state.burn_cc && i < self.cues@.len() && cue_at(
                    self.cues@[i as int],
                    self.playhead,
                ) && forall|k: int|
                    0 <= k < i ==> !cue_at(#[trigger] self.cues@[k], self.playhead),
                None => !self@.state.burn_cc || forall|k: int|
                    0 <= k < self.cues@.len() ==> !cue_at(#[trigger] self.cues@[k], self.playhead),
            },
    {
        if !self.state.burn_cc {
            return None;
        }
        let mut i: usize = 0;
        while i < self.cues.len()
            invariant
                self.state.burn_cc,
                i <= self.cues@.len(),
                forall|k: int| 0 <= k < i ==> !cue_at(#[trigger] self.cues@[k], self.playhead),
            decreases self.cues.len() - i,
        {
            let t: i128 = self.playhead as i128;
            if self.cues[i].start <= t && t < self.cues[i].end {
                return Some(i);
            }
            i += 1;
        }
        None
    }
}

impl VideoEditor {
    /// The shape of the drag that is under way, if there is one to show: lines
    /// of two pixels, and arrows of four.
    pub fn drag_preview(&self, f: &Fit) -> (r: Option<Draft>)
        requires
            self@.wf(),
            f.wf(),
        ensures
            match (self.tool, self.drag_start, self.drag_current) {
                (Some(tool), Some(s), Some(c)) => draft_is(r, *f, tool, s, c, 1024, 2),
                _ => r is None,
            },
    {
        match (self.tool, self.drag_start, self.drag_current) {
            (Some(tool), Some(s), Some(c)) => draft_of(f, tool, s, c, 1024, 2),
            _ => None,
        }
    }
}

/// It is the time of a caption.
pub open spec fn cue_at(c: Cue, t: i64) -> bool {
    c.start <= t < c.end
}

/// The size of a new editor window for a video: three quarters of the video,
/// and the panels around it.
pub fn window_size(width: u32, height: u32) -> (r: Extent)
    ensures
        r.w == max_of(281_600, min_of(width * 192 + 74_752, 460_800)),
        r.h == max_of(174_080, min_of(height * 192 + 55_296, 276_480)),
{
    let w: u64 = width as u64 * 192 + 292 * 256;
    let h: u64 = height as u64 * 192 + 216 * 256;
    Extent {
        w: if w > 1800 * 256 {
            1800 * 256
        } else if w < 1100 * 256 {
            1100 * 256
        } else {
            w as i32
        },
        h: if h > 1080 * 256 {
            1080 * 256
        } else if h < 680 * 256 {
            680 * 256
        } else {
            h as i32
        },
    }
}

/// Dragging a frame around keeps the windows of the zooms where they are.
pub proof fn law_framing_keeps_times(v: VideoView, p: Option<(i64, i64)>, i: int)
    requires
        v.preview_drag is Some,
        0 <= i < v.state.zooms.len(),
    ensures
        v.preview_moved(p).0.state.zooms.len() == v.state.zooms.len(),
        v.preview_moved(p).0.state.zooms[i].start() == v.state.zooms[i].start(),
        v.preview_moved(p).0.state.zooms[i].end() == v.state.zooms[i].end(),
{
}

/// A drag over the preview with a tool for shapes draws one between its ends,
/// as in the annotation editor: an arrow from where it began to where it ended.
/// It is an edit that an undo takes back.
pub proof fn law_video_drag_draws_between_its_ends(
    v: VideoView,
    s: (i64, i64),
    m: Option<(i64, i64)>,
    p: (i64, i64),
)
    requires
        v.typing is None,
        v.preview_drag is None,
        v.tool == Some(Tool::Arrow) || v.tool == Some(Tool::Rect) || v.tool == Some(Tool::Ellipse),
        v.history.wf(),
        v.history.current() == v.state,
        p.0 - s.0 > 768 || s.0 - p.0 > 768 || p.1 - s.1 > 768 || s.1 - p.1 > 768,
    ensures
        ({
            let up = v.drawn_at(Some(s)).0.preview_moved(m).0.preview_released(Some(p)).0;
            let last = up.state.annotations.last();
            &&& up.state.annotations.drop_last() == v.state.annotations
            &&& up.drag_start is None && up.drag_current is None
            &&& up.undone().0.state == v.state
            &&& v.tool == Some(Tool::Arrow) ==> (last matches AnnotationView::Arrow {
                from,
                to,
                style,
                ..
            } && from == s && to == p && style.color == Some(
                crate::video_editor::model::video_color_name(v.color_ix as int),
            ) && style.stroke_width == Some(1280i64))
            &&& v.tool == Some(Tool::Rect) ==> (last matches AnnotationView::Rect { x, y, .. } && x
                <= s.0 && x <= p.0 && (x == s.0 || x == p.0) && y <= s.1 && y <= p.1 && (y == s.1
                || y == p.1))
            &&& v.tool == Some(Tool::Ellipse) ==> (last matches AnnotationView::Ellipse { x, y, .. }
                && x <= s.0 && x <= p.0 && (x == s.0 || x == p.0) && y <= s.1 && y <= p.1 && (y
                == s.1 || y == p.1))
        }),
{
    let up = v.drawn_at(Some(s)).0.preview_moved(m).0.preview_released(Some(p)).0;
    assert(up.state.annotations.drop_last() =~= v.state.annotations);
    assert(up.state.annotations.len() != v.state.annotations.len());
    assert(up.history.stack.drop_last() =~= v.history.stack);
}

/// A click with the marker or the text tool marks the clicked point.
pub proof fn law_video_click_marks_the_point(v: VideoView, p: (i64, i64))
    requires
        v.typing is None,
    ensures
        v.tool == Some(Tool::Marker) ==> ({
            let after = v.drawn_at(Some(p)).0.state.annotations;
            &&& after.drop_last() == v.state.annotations
            &&& after.last() matches AnnotationView::Marker { x, y, number, style, .. } && x == p.0
                && y == p.1 && number is Some && style.color == Some(
                crate::video_editor::model::video_color_name(v.color_ix as int),
            )
        }),
        v.tool == Some(Tool::Text) ==> (v.drawn_at(Some(p)).0.typing matches Some(t) && t.x == p.0
            && t.y == p.1 && t.text.len() == 0),
        v.drawn_at(None) == (v, Seq::<Effect>::empty()),
{
    assert(v.tool == Some(Tool::Marker) ==> v.drawn_at(Some(p)).0.state.annotations.drop_last()
        =~= v.state.annotations);
}

/// A frame that is held inside moves as far as the pointer, as far as the
/// picture goes.
pub proof fn law_held_frame_follows_the_pointer(
    v: VideoView,
    ix: usize,
    a: (i64, i64),
    b: (i64, i64),
    dx: i64,
    dy: i64,
)
    requires
        v.wf(),
        ix < v.state.zooms.len(),
        dx == a.0 - v.state.zooms[ix as int].cx,
        dy == a.1 - v.state.zooms[ix as int].cy,
        v.preview_drag == Some(PreviewDrag::MoveCenter { ix, grab_dx: dx, grab_dy: dy }),
    ensures
        ({
            let z = v.state.zooms[ix as int];
            let (w, h) = (v.info.width * 256, v.info.height * 256);
            let (hw, hh) = (half_view(w, z.level as int), half_view(h, z.level as int));
            let next = v.preview_moved(Some(b)).0.state.zooms[ix as int];
            let (x, y) = (z.cx + (b.0 - a.0), z.cy + (b.1 - a.1));
            &&& hw <= x <= w - hw ==> next.cx == x
            &&& hh <= y <= h - hh ==> next.cy == y
            &&& x < hw && 0 <= hw <= w - hw ==> next.cx == hw
            &&& x > w - hw && 0 <= hw <= w - hw ==> next.cx == w - hw
            &&& y < hh && 0 <= hh <= h - hh ==> next.cy == hh
            &&& y > h - hh && 0 <= hh <= h - hh ==> next.cy == h - hh
            &&& next.level == z.level && next.t == z.t && next.duration == z.duration
        }),
{
    let z = v.state.zooms[ix as int];
    assert(crate::video_editor::model::zoom_sound(z));
    crate::video_editor::zooms::law_moved_centre_stays_inside(
        z.cx + (b.0 - a.0),
        v.info.width * 256,
        z.level as int,
    );
    crate::video_editor::zooms::law_moved_centre_stays_inside(
        z.cy + (b.1 - a.1),
        v.info.height * 256,
        z.level as int,
    );
}

/// A corner that is dragged to a point makes the frame reach it: half of the
/// shown part is as wide, or as high, as the point is far from the centre,
/// whichever shows more, between the whole picture and an eighth of it.
pub proof fn law_corner_sets_the_level(v: VideoView, ix: int, p: (i64, i64))
    requires
        0 <= ix < v.state.zooms.len(),
        p.0 - v.state.zooms[ix].cx > 256 || v.state.zooms[ix].cx - p.0 > 256,
        p.1 - v.state.zooms[ix].cy > 256 || v.state.zooms[ix].cy - p.1 > 256,
    ensures
        ({
            let z = v.state.zooms[ix];
            let level = v.zooms_levelled(ix, p)[ix].level;
            let dx = if p.0 > z.cx {
                p.0 - z.cx
            } else {
                z.cx - p.0
            };
            let dy = if p.1 > z.cy {
                p.1 - z.cy
            } else {
                z.cy - p.1
            };
            let (w, h) = (v.info.width * 256, v.info.height * 256);
            &&& 1_000_000 <= level <= 8_000_000
            &&& level > 1_000_000 ==> level * (2 * dx) <= w * 1_000_000 && level * (2 * dy) <= h
                * 1_000_000
            &&& level < 8_000_000 ==> w * 1_000_000 < (level + 1) * (2 * dx) || h * 1_000_000 < (level
                + 1) * (2 * dy)
            &&& v.zooms_levelled(ix, p)[ix].cx == z.cx && v.zooms_levelled(ix, p)[ix].cy == z.cy
        }),
{
    let z = v.state.zooms[ix];
    let (dx, dy) = (abs_of(p.0 - z.cx), abs_of(p.1 - z.cy));
    lemma_corner(v.video_w(), dx);
    lemma_corner(v.video_h(), dy);
    let (a, b) = (level_for(v.video_w(), dx), level_for(v.video_h(), dy));
    let least = min_of(a, b);
    let level = v.zooms_levelled(ix, p)[ix].level as int;
    if level > 1_000_000 {
        assert(level * (2 * dx) <= a * (2 * dx) && level * (2 * dy) <= b * (2 * dy))
            by (nonlinear_arith)
            requires
                level <= a,
                level <= b,
                dx > 0,
                dy > 0,
        ;
    }
    if level < 8_000_000 {
        if least == a {
            assert((a + 1) * (2 * dx) <= (level + 1) * (2 * dx)) by (nonlinear_arith)
                requires
                    a <= level,
                    dx > 0,
            ;
        } else {
            assert((b + 1) * (2 * dy) <= (level + 1) * (2 * dy)) by (nonlinear_arith)
                requires
                    b <= level,
                    dy > 0,
            ;
        }
    }
}

proof fn lemma_corner(size: int, d: int)
    requires
        size >= 0,
        d > 256,
    ensures
        level_for(size, d) * (2 * d) <= size * 1_000_000 < (level_for(size, d) + 1) * (2 * d),
        level_for(size, d) >= 0,
{
    let v = size * 1_000_000;
    let q = v / (2 * d);
    assert(q * (2 * d) <= v < (q + 1) * (2 * d) && q >= 0) by (nonlinear_arith)
        requires
            q == v / (2 * d),
            d > 0,
            v >= 0,
    ;
}

/// The frame of a zoom lies around its centre, as far as the picture goes, and
/// is as much smaller than the picture as its level says.
pub proof fn law_frame_lies_around_the_centre(z: ZoomPoint, w: int, h: int)
    requires
        w >= 0,
        h >= 0,
        z.level >= 1_000_000,
    ensures
        ({
            let (x, y, vw, vh) = peak_rect(z, w, h);
            &&& vw * z.level <= w * 1_000_000 < (vw + 1) * z.level
            &&& vh * z.level <= h * 1_000_000 < (vh + 1) * z.level
            &&& 0 <= z.cx - vw / 2 <= w - vw ==> x == z.cx - vw / 2
            &&& 0 <= z.cy - vh / 2 <= h - vh ==> y == z.cy - vh / 2
            &&& z.cx - vw / 2 < 0 && vw <= w ==> x == 0
            &&& z.cy - vh / 2 < 0 && vh <= h ==> y == 0
            &&& z.cx - vw / 2 > w - vw && vw <= w ==> x == w - vw
            &&& z.cy - vh / 2 > h - vh && vh <= h ==> y == h - vh
        }),
{
    let l = z.level as int;
    let (vw, vh) = (w * LEVEL_ONE / l, h * LEVEL_ONE / l);
    assert(vw * l <= w * 1_000_000 < (vw + 1) * l && vh * l <= h * 1_000_000 < (vh + 1) * l)
        by (nonlinear_arith)
        requires
            vw == w * 1_000_000 / l,
            vh == h * 1_000_000 / l,
            l > 0,
    ;
}

/// A part of the picture that is shown is spread over the whole place of the
/// picture: its corner lies at the corner of the place, and everything is
/// larger by as much as the part is narrower than the picture.
pub proof fn law_shown_part_fills_the_place(
    r: (i128, i128, i128, i128),
    f: Fit,
    width: int,
    crop: (int, int, int, int),
)
    requires
        layout_is(r, f, width, Some(crop)),
        crop.2 > 0,
        width >= 0,
    ensures
        (f.ox - r.0) * crop.2 <= f.scaled(crop.0) * width < (f.ox - r.0 + 1) * crop.2,
        (f.oy - r.1) * crop.2 <= f.scaled(crop.1) * width < (f.oy - r.1 + 1) * crop.2,
        r.2 * crop.2 <= f.dw * width < (r.2 + 1) * crop.2,
        r.3 * crop.2 <= f.dh * width < (r.3 + 1) * crop.2,
{
    lemma_spread(f.scaled(crop.0) * width, crop.2);
    lemma_spread(f.scaled(crop.1) * width, crop.2);
    lemma_spread(f.dw * width, crop.2);
    lemma_spread(f.dh * width, crop.2);
}

proof fn lemma_spread(v: int, d: int)
    requires
        d > 0,
    ensures
        v / d * d <= v < (v / d + 1) * d,
{
    let q = v / d;
    assert(q * d <= v < (q + 1) * d) by (nonlinear_arith)
        requires
            q == v / d,
            d > 0,
    ;
}

/// A caption is shown from its start until just before its end.
pub proof fn law_captions_are_shown_in_their_time(c: Cue, t: i64)
    ensures
        cue_at(c, t) ==> c.start <= t && t < c.end,
        t == c.start && c.start < c.end ==> cue_at(c, t),
        t < c.start || t >= c.end ==> !cue_at(c, t),
        c.start < t < c.end ==> cue_at(c, t),
{
}

/// A click on the preview hits the point of the video that is shown under it,
/// below the toolbar, beside the inspector and above the timeline.
pub proof fn law_preview_click_hits_what_is_shown(
    p: Option<(i64, i64)>,
    pos: Pos,
    view: Extent,
    width: u32,
    height: u32,
)
    requires
        video_hit(p, pos, view, width, height),
        66_560 < view.w,
        13_312 + 33_792 < view.h,
        width > 0,
        height > 0,
    ensures
        fitted(
            view.w - 66_560,
            view.h - 13_312 - 33_792,
            width as int,
            height as int,
            None,
        ) matches Some(f) && {
            &&& p is Some == (0 <= (pos.x - f.ox) * f.den <= width * 256 * f.num && 0 <= (pos.y
                - 13_312 - f.oy) * f.den <= height * 256 * f.num)
            &&& p matches Some(q) ==> {
                &&& f.ox + f.scaled(q.0 as int) <= pos.x <= f.ox + f.scaled(q.0 + 1)
                &&& f.oy + f.scaled(q.1 as int) <= pos.y - 13_312 <= f.oy + f.scaled(q.1 + 1)
            }
        },
{
    let (cw, ch) = (view.w - 66_560, view.h - 13_312 - 33_792);
    crate::geometry::law_fit_is_centred_and_full(cw, ch, width as int, height as int, None);
    crate::geometry::lemma_fit_is_wf(cw, ch, width as int, height as int, None);
    let f = place(view, width, height)->0;
    crate::geometry::law_point_is_shown_where_it_was(
        p,
        f,
        pos.x as int,
        pos.y - 13_312,
        width as int,
        height as int,
    );
}

/// A press on the frame of the selected zoom takes hold of it: at a corner,
/// within ten pixels of it, to change the level, and else to move it by the
/// point that was pressed.
pub proof fn law_frame_is_held_where_pressed(
    v: VideoView,
    ix: usize,
    f: Fit,
    pos: Pos,
    p: (i64, i64),
)
    requires
        v.typing is None,
        v.selection == Selection::Zoom(ix),
        ix < v.state.zooms.len(),
        -0x100_0000_0000 <= p.0 <= 0x100_0000_0000,
        -0x100_0000_0000 <= p.1 <= 0x100_0000_0000,
        0 <= v.state.zooms[ix as int].cx <= 0x100_0000_0000,
        0 <= v.state.zooms[ix as int].cy <= 0x100_0000_0000,
    ensures
        ({
            let z = v.state.zooms[ix as int];
            let r = peak_rect(z, v.info.width * 256, v.info.height * 256);
            let (x, y) = (pos.x as int, pos.y - 13_312);
            let (x0, y0) = (f.ox + f.scaled(r.0), f.oy + f.scaled(r.1));
            let (x1, y1) = (f.ox + f.scaled(r.0 + r.2), f.oy + f.scaled(r.1 + r.3));
            let next = v.preview_pressed(Some(f), pos, Some(p)).0;
            &&& x == x0 && y == y0 && x0 <= x1 && y0 <= y1 ==> next.preview_drag == Some(
                PreviewDrag::ResizeLevel { ix },
            )
            &&& x == x1 && y == y1 && x0 <= x1 && y0 <= y1 ==> next.preview_drag == Some(
                PreviewDrag::ResizeLevel { ix },
            )
            &&& x0 + 2560 < x < x1 - 2560 && y0 <= y <= y1 ==> (next.preview_drag matches Some(
                PreviewDrag::MoveCenter { ix: j, grab_dx, grab_dy },
            ) && j == ix && grab_dx == p.0 - z.cx && grab_dy == p.1 - z.cy)
        }),
{
    let z = v.state.zooms[ix as int];
    let c = frame_corners(f, peak_rect(z, v.video_w(), v.video_h()));
    let (x, y) = (pos.x as int, pos.y - TOOLBAR);
    if c.0 + 2560 < x < c.2 - 2560 && c.1 <= y <= c.3 {
        lemma_far(x - c.0, y - c.1);
        lemma_far(x - c.2, y - c.1);
        lemma_far(x - c.0, y - c.3);
        lemma_far(x - c.2, y - c.3);
    }
    assert((x - x) * (x - x) + (y - y) * (y - y) == 0) by (nonlinear_arith);
}

proof fn lemma_far(a: int, b: int)
    requires
        a > 2560 || a < -2560,
    ensures
        a * a + b * b > 2560 * 2560,
{
    assert(a * a > 2560 * 2560) by (nonlinear_arith)
        requires
            a > 2560 || a < -2560,
    ;
    assert(b * b >= 0) by (nonlinear_arith);
}

/// While a drag over the preview goes on, its end follows the pointer, and
/// letting go beside the picture draws up to where it was last.
pub proof fn law_preview_drag_follows_the_pointer(v: VideoView, s: (i64, i64), m: (i64, i64))
    requires
        v.preview_drag is None,
        v.drag_start == Some(s),
    ensures
        v.preview_moved(Some(m)).0.drag_start == Some(s),
        v.preview_moved(Some(m)).0.drag_current == Some(m),
        v.preview_moved(None).0 == v,
        v.preview_moved(Some(m)).0.preview_released(None).0 == v.preview_moved(
            Some(m),
        ).0.preview_released(Some(m)).0,
{
}

/// Letting go of a frame ends its drag and makes one edit of it.
pub proof fn law_released_frame_is_an_edit(v: VideoView, p: Option<(i64, i64)>)
    requires
        v.preview_drag is Some,
    ensures
        v.preview_released(p).0.preview_drag is None,
        v.preview_released(p).0.state == v.state,
        v.preview_released(p).0.history.current() == v.state,
{
}

} // verus!
