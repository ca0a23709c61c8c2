//! The annotation editor: what its tools, keys and buttons do to the list of
//! annotations.
use vstd::prelude::*;
use crate::draw::{
    drag_is_meant, dragged_shape, is_drag, make_style, pen, shape_from_drag, typed,
    typed_annotation, typing_view, Tool, Typing, TypingStep, TypingView,
};
use crate::error::owned;
use crate::geometry::{fit_picture, fitted, lemma_point_inside, picture_point, Extent, Fit, Pos};
use crate::spec::{
    first_free, next_marker_number, shapes, Annotation, AnnotationView, StyleView,
};
use crate::text;

verus! {

/// The height of the toolbar, in 1/256 pixels.
pub const TOOLBAR: i64 = 13_312;

/// The number of colors.
pub const COLOR_COUNT: usize = 7;

/// The number of stroke widths.
pub const STROKE_COUNT: usize = 3;

/// The size of typed text: 24 pixels.
pub const TEXT_SIZE: i64 = 6144;

pub open spec fn color_name(i: int) -> Seq<char> {
    if i == 0 {
        "red"@
    } else if i == 1 {
        "orange"@
    } else if i == 2 {
        "green"@
    } else if i == 3 {
        "blue"@
    } else if i == 4 {
        "purple"@
    } else if i == 5 {
        "white"@
    } else {
        "black"@
    }
}

pub open spec fn color_value(i: int) -> u32 {
    if i == 0 {
        0xff3b30
    } else if i == 1 {
        0xff9500
    } else if i == 2 {
        0x34c759
    } else if i == 3 {
        0x007aff
    } else if i == 4 {
        0xaf52de
    } else if i == 5 {
        0xffffff
    } else {
        0x000000
    }
}

/// A color of the toolbar: its name, and its value as `0xRRGGBB`.
pub fn color(i: usize) -> (r: (&'static str, u32))
    ensures
        r.0@ == color_name(i as int),
        r.1 == color_value(i as int),
{
    if i == 0 {
        ("red", 0xff3b30)
    } else if i == 1 {
        ("orange", 0xff9500)
    } else if i == 2 {
        ("green", 0x34c759)
    } else if i == 3 {
        ("blue", 0x007aff)
    } else if i == 4 {
        ("purple", 0xaf52de)
    } else if i == 5 {
        ("white", 0xffffff)
    } else {
        ("black", 0x000000)
    }
}

pub open spec fn stroke_width(i: int) -> i64 {
    if i == 0 {
        768
    } else if i == 1 {
        1280
    } else {
        2048
    }
}

pub open spec fn stroke_name(i: int) -> Seq<char> {
    if i == 0 {
        "S"@
    } else if i == 1 {
        "M"@
    } else {
        "L"@
    }
}

/// A stroke of the toolbar: its label, and its width in 1/256 pixels.
pub fn stroke(i: usize) -> (r: (&'static str, i64))
    ensures
        r.0@ == stroke_name(i as int),
        r.1 == stroke_width(i as int),
{
    if i == 0 {
        ("S", 768)
    } else if i == 1 {
        ("M", 1280)
    } else {
        ("L", 2048)
    }
}

/// How the editor stands.
#[derive(Debug)]
pub struct Editor {
    pub width: u32,
    pub height: u32,
    pub annotations: Vec<Annotation<i64>>,
    pub drag_start: Option<(i64, i64)>,
    pub drag_current: Option<(i64, i64)>,
    pub typing: Option<Typing>,
    pub tool: Tool,
    pub color_ix: usize,
    pub stroke_ix: usize,
    pub status: Option<String>,
}

/// What the editor holds.
#[verifier::ext_equal]
pub struct EditorView {
    pub width: u32,
    pub height: u32,
    pub annotations: Seq<AnnotationView<i64>>,
    pub drag_start: Option<(i64, i64)>,
    pub drag_current: Option<(i64, i64)>,
    pub typing: Option<TypingView>,
    pub tool: Tool,
    pub color_ix: usize,
    pub stroke_ix: usize,
    pub status: Option<Seq<char>>,
}

impl View for Editor {
    type V = EditorView;

    open spec fn view(&self) -> EditorView {
        EditorView {
            width: self.width,
            height: self.height,
            annotations: shapes(self.annotations@),
            drag_start: self.drag_start,
            drag_current: self.drag_current,
            typing: typing_view(self.typing),
            tool: self.tool,
            color_ix: self.color_ix,
            stroke_ix: self.stroke_ix,
            status: crate::json::maybe(self.status),
        }
    }
}

/// What is to be done after an event.
#[derive(Clone, Copy, PartialEq, Eq, Structural, Debug)]
pub enum EditorAction {
    Nothing,
    /// Show the new state over the drawn annotations.
    Repaint,
    /// Draw the annotations anew.
    Rerender,
    Save,
    Copy,
    Quit,
}

/// A point of the picture, as drags keep it.
pub open spec fn on_picture(p: Option<(i64, i64)>, width: u32, height: u32) -> bool {
    match p {
        Some((x, y)) => 0 <= x <= width * 256 && 0 <= y <= height * 256,
        None => true,
    }
}

/// Where the picture lies in the window, below the toolbar; it is shown at
/// most twice as large.
pub open spec fn place(view: Extent, width: u32, height: u32) -> Option<Fit> {
    fitted(view.w as int, view.h - TOOLBAR, width as int, height as int, Some(2))
}

/// The point of the picture at a position of the window.
pub open spec fn hit(p: Option<(i64, i64)>, pos: Pos, view: Extent, width: u32, height: u32) -> bool {
    match place(view, width, height) {
        Some(f) => picture_point(
            p,
            f,
            pos.x as int,
            pos.y - TOOLBAR,
            width as int,
            height as int,
        ),
        None => p is None,
    }
}

impl EditorView {
    /// Drags stay on the picture.
    pub open spec fn wf(self) -> bool {
        &&& on_picture(self.drag_start, self.width, self.height)
        &&& on_picture(self.drag_current, self.width, self.height)
    }

    /// The style of what is drawn next.
    pub open spec fn style(self) -> StyleView<i64> {
        pen(color_name(self.color_ix as int), stroke_width(self.stroke_ix as int))
    }

    /// After the typed text was taken: it is drawn unless it is empty.
    pub open spec fn committed(self) -> EditorView {
        match self.typing {
            Some(t) => EditorView {
                typing: None,
                annotations: if t.text.len() == 0 {
                    self.annotations
                } else {
                    self.annotations.push(typed_annotation(t, TEXT_SIZE, self.style()))
                },
                ..self
            },
            None => self,
        }
    }

    /// After a press on point `p` of the picture, if any: a text that is being
    /// typed is taken first.
    pub open spec fn pressed(self, p: Option<(i64, i64)>) -> (EditorView, EditorAction) {
        if self.typing is Some {
            (self.committed(), EditorAction::Rerender)
        } else {
            match p {
                None => (self, EditorAction::Nothing),
                Some(p) => {
                    let quiet = EditorView { status: None, ..self };
                    match self.tool {
                        Tool::Marker => (
                            EditorView {
                                annotations: self.annotations.push(
                                    AnnotationView::Marker {
                                        x: p.0,
                                        y: p.1,
                                        number: Some(first_free(self.annotations) as u32),
                                        size: None,
                                        style: self.style(),
                                    },
                                ),
                                ..quiet
                            },
                            EditorAction::Rerender,
                        ),
                        Tool::Text => (
                            EditorView {
                                typing: Some(
                                    TypingView { x: p.0, y: p.1, text: Seq::empty() },
                                ),
                                ..quiet
                            },
                            EditorAction::Repaint,
                        ),
                        _ => (
                            EditorView { drag_start: Some(p), ..quiet },
                            EditorAction::Nothing,
                        ),
                    }
                },
            }
        }
    }

    /// After a move to point `p` of the picture, if any.
    pub open spec fn moved(self, p: Option<(i64, i64)>) -> (EditorView, EditorAction) {
        if self.drag_start is None || p is None {
            (self, EditorAction::Nothing)
        } else {
            (EditorView { drag_current: p, ..self }, EditorAction::Repaint)
        }
    }

    /// After a release at point `p` of the picture, or else at the last one: a
    /// drag leaves its shape.
    pub open spec fn released(self, p: Option<(i64, i64)>) -> (EditorView, EditorAction) {
        match self.drag_start {
            None => (self, EditorAction::Nothing),
            Some(s) => {
                let e = match p {
                    Some(p) => p,
                    None => match self.drag_current {
                        Some(c) => c,
                        None => s,
                    },
                };
                let done = EditorView { drag_start: None, drag_current: None, ..self };
                if is_drag(s.0 as int, s.1 as int, e.0 as int, e.1 as int) {
                    (
                        EditorView {
                            annotations: self.annotations.push(
                                dragged_shape(self.tool, s, e, self.style(), 256),
                            ),
                            ..done
                        },
                        EditorAction::Rerender,
                    )
                } else {
                    (done, EditorAction::Repaint)
                }
            },
        }
    }

    /// After an undo: a text that is being typed is dropped, else the last
    /// annotation.
    pub open spec fn undone(self) -> EditorView {
        if self.typing is Some {
            EditorView { typing: None, ..self }
        } else if self.annotations.len() > 0 {
            EditorView { annotations: self.annotations.drop_last(), ..self }
        } else {
            self
        }
    }

    /// After a key.
    pub open spec fn keyed(
        self,
        key: Seq<char>,
        ch: Option<Seq<char>>,
        ctrl: bool,
        platform: bool,
    ) -> (EditorView, EditorAction) {
        match self.typing {
            Some(t) => {
                let (s, step) = typed(t.text, key, ch, ctrl || platform);
                let next = EditorView { typing: Some(TypingView { text: s, ..t }), ..self };
                match step {
                    TypingStep::Commit => (self.committed(), EditorAction::Rerender),
                    TypingStep::Cancel => (
                        EditorView { typing: None, ..self },
                        EditorAction::Repaint,
                    ),
                    TypingStep::Changed => (next, EditorAction::Repaint),
                    TypingStep::Ignored => (self, EditorAction::Nothing),
                }
            },
            None => if key == "z"@ && ctrl {
                (self.undone(), EditorAction::Rerender)
            } else if key == "s"@ && ctrl {
                (self, EditorAction::Save)
            } else if key == "c"@ && ctrl {
                (self, EditorAction::Copy)
            } else if key == "escape"@ {
                if self.drag_start is Some {
                    (
                        EditorView { drag_start: None, drag_current: None, ..self },
                        EditorAction::Repaint,
                    )
                } else {
                    (self, EditorAction::Quit)
                }
            } else {
                match tool_key(key) {
                    Some(tool) => (EditorView { tool, ..self }, EditorAction::Repaint),
                    None => (self, EditorAction::Nothing),
                }
            },
        }
    }
}

/// The tool that a key picks.
pub open spec fn tool_key(key: Seq<char>) -> Option<Tool> {
    if key == "r"@ {
        Some(Tool::Rect)
    } else if key == "o"@ {
        Some(Tool::Ellipse)
    } else if key == "a"@ {
        Some(Tool::Arrow)
    } else if key == "m"@ {
        Some(Tool::Marker)
    } else if key == "t"@ {
        Some(Tool::Text)
    } else {
        None
    }
}

pub fn tool_for_key(key: &str) -> (r: Option<Tool>)
    ensures
        r == tool_key(key@),
{
    if text::same_text(key, "r") {
        Some(Tool::Rect)
    } else if text::same_text(key, "o") {
        Some(Tool::Ellipse)
    } else if text::same_text(key, "a") {
        Some(Tool::Arrow)
    } else if text::same_text(key, "m") {
        Some(Tool::Marker)
    } else if text::same_text(key, "t") {
        Some(Tool::Text)
    } else {
        None
    }
}

/// Add an annotation at the end of a list.
pub fn push_annotation(list: &mut Vec<Annotation<i64>>, a: Annotation<i64>)
    ensures
        shapes(final(list)@) == shapes(old(list)@).push(a@),
{
    let ghost before = shapes(list@);
    list.push(a);
    assert(shapes(list@) =~= before.push(a@));
}

impl Editor {
    /// An editor of a picture of that size.
    pub fn new(width: u32, height: u32) -> (r: Editor)
        ensures
            r@ == (EditorView {
                width,
                height,
                annotations: Seq::empty(),
                drag_start: None,
                drag_current: None,
                typing: None,
                tool: Tool::Rect,
                color_ix: 0,
                stroke_ix: 1,
                status: None,
            }),
            r@.wf(),
    {
        Editor {
            width,
            height,
            annotations: Vec::new(),
            drag_start: None,
            drag_current: None,
            typing: None,
            tool: Tool::Rect,
            color_ix: 0,
            stroke_ix: 1,
            status: None,
        }
    }

    /// Where the picture lies in the window.
    pub fn fit(&self, view: Extent) -> (r: Option<Fit>)
        ensures
            r == place(view, self.width, self.height),
            r matches Some(f) ==> f.wf(),
    {
        fit_picture(view.w as i64, view.h as i64 - TOOLBAR, self.width, self.height, Some(2))
    }

    /// The point of the picture at a position of the window.
    pub fn to_image_coords(&self, pos: Pos, view: Extent) -> (r: Option<(i64, i64)>)
        ensures
            hit(r, pos, view, self.width, self.height),
            on_picture(r, self.width, self.height),
    {
        match self.fit(view) {
            Some(f) => {
                let p = f.to_picture(pos.x as i64, pos.y as i64 - TOOLBAR, self.width, self.height);
                proof {
                    lemma_point_inside(
                        p,
                        f,
                        pos.x as int,
                        pos.y - TOOLBAR,
                        self.width as int,
                        self.height as int,
                    );
                }
                p
            },
            None => None,
        }
    }

    /// Take the typed text.
    pub fn commit_typing(&mut self) -> (r: EditorAction)
        ensures
            final(self)@ == old(self)@.committed(),
            r == EditorAction::Rerender,
    {
        let taken = self.typing.take();
        if let Some(t) = taken {
            let chars = text::to_chars(t.text.as_str());
            if chars.len() > 0 {
                let style = make_style(color(self.color_ix).0, stroke(self.stroke_ix).1);
                push_annotation(
                    &mut self.annotations,
                    Annotation::Text { x: t.x, y: t.y, text: t.text, size: Some(TEXT_SIZE), style },
                );
            }
        }
        EditorAction::Rerender
    }

    pub fn mouse_down(&mut self, pos: Pos, view: Extent) -> (r: EditorAction)
        requires
            old(self)@.wf(),
            first_free(old(self)@.annotations) <= u32::MAX,
        ensures
            exists|p: Option<(i64, i64)>|
                hit(p, pos, view, old(self).width, old(self).height) && (final(self)@, r)
                    == #[trigger] old(self)@.pressed(p),
            final(self)@.wf(),
    {
        let p = self.to_image_coords(pos, view);
        let ghost before = self@;
        if self.typing.is_some() {
            let a = self.commit_typing();
            assert((self@, a) == before.pressed(p));
            return a;
        }
        let a = match p {
            None => EditorAction::Nothing,
            Some(q) => {
                self.status = None;
                match self.tool {
                    Tool::Marker => {
                        let number: u32 = next_marker_number(&self.annotations);
                        let style = make_style(color(self.color_ix).0, stroke(self.stroke_ix).1);
                        push_annotation(
                            &mut self.annotations,
                            Annotation::Marker {
                                x: q.0,
                                y: q.1,
                                number: Some(number),
                                size: None,
                                style,
                            },
                        );
                        EditorAction::Rerender
                    },
                    Tool::Text => {
                        self.typing = Some(Typing { x: q.0, y: q.1, text: String::new() });
                        assert(self@.typing =~= before.pressed(p).0.typing);
                        EditorAction::Repaint
                    },
                    _ => {
                        self.drag_start = Some(q);
                        EditorAction::Nothing
                    },
                }
            },
        };
        assert(self@ =~= before.pressed(p).0);
        assert((self@, a) == before.pressed(p));
        a
    }

    pub fn mouse_move(&mut self, pos: Pos, view: Extent) -> (r: EditorAction)
        requires
            old(self)@.wf(),
        ensures
            exists|p: Option<(i64, i64)>|
                hit(p, pos, view, old(self).width, old(self).height) && (final(self)@, r)
                    == #[trigger] old(self)@.moved(p),
            final(self)@.wf(),
    {
        let p = self.to_image_coords(pos, view);
        let ghost before = self@;
        let a = if self.drag_start.is_none() || p.is_none() {
            EditorAction::Nothing
        } else {
            self.drag_current = p;
            EditorAction::Repaint
        };
        assert((self@, a) == before.moved(p));
        a
    }

    pub fn mouse_up(&mut self, pos: Pos, view: Extent) -> (r: EditorAction)
        requires
            old(self)@.wf(),
        ensures
            exists|p: Option<(i64, i64)>|
                hit(p, pos, view, old(self).width, old(self).height) && (final(self)@, r)
                    == #[trigger] old(self)@.released(p),
            final(self)@.wf(),
    {
        let p = self.to_image_coords(pos, view);
        let ghost before = self@;
        let a = match self.drag_start {
            None => EditorAction::Nothing,
            Some(s) => {
                let e = match p {
                    Some(q) => q,
                    None => match self.drag_current {
                        Some(c) => c,
                        None => s,
                    },
                };
                self.drag_start = None;
                self.drag_current = None;
                if drag_is_meant(s, e) {
                    let style = make_style(color(self.color_ix).0, stroke(self.stroke_ix).1);
                    push_annotation(
                        &mut self.annotations,
                        shape_from_drag(self.tool, s, e, style, 256),
                    );
                    EditorAction::Rerender
                } else {
                    EditorAction::Repaint
                }
            },
        };
        assert((self@, a) == before.released(p));
        a
    }

    /// Take back the last thing.
    pub fn undo(&mut self) -> (r: EditorAction)
        ensures
            final(self)@ == old(self)@.undone(),
            r == EditorAction::Rerender,
    {
        let ghost before = self@;
        if self.typing.is_some() {
            self.typing = None;
        } else {
            let ghost list = self.annotations@;
            self.annotations.pop();
            proof {
                if list.len() > 0 {
                    assert(shapes(self.annotations@) =~= shapes(list).drop_last());
                } else {
                    assert(self.annotations@ =~= list);
                }
            }
        }
        EditorAction::Rerender
    }

    pub fn set_tool(&mut self, tool: Tool) -> (r: EditorAction)
        ensures
            final(self)@ == (EditorView { tool, ..old(self)@ }),
            r == EditorAction::Repaint,
    {
        self.tool = tool;
        EditorAction::Repaint
    }

    /// Pick a color of the toolbar.
    pub fn set_color(&mut self, ix: usize) -> (r: EditorAction)
        requires
            ix < COLOR_COUNT,
        ensures
            final(self)@ == (EditorView { color_ix: ix, ..old(self)@ }),
            r == EditorAction::Repaint,
    {
        self.color_ix = ix;
        EditorAction::Repaint
    }

    /// Pick a stroke of the toolbar.
    pub fn set_stroke(&mut self, ix: usize) -> (r: EditorAction)
        requires
            ix < STROKE_COUNT,
        ensures
            final(self)@ == (EditorView { stroke_ix: ix, ..old(self)@ }),
            r == EditorAction::Repaint,
    {
        self.stroke_ix = ix;
        EditorAction::Repaint
    }

    pub fn key_down(&mut self, key: &str, ch: Option<&str>, ctrl: bool, platform: bool) -> (r:
        EditorAction)
        requires
            old(self)@.wf(),
        ensures
            (final(self)@, r) == old(self)@.keyed(
                key@,
                match ch {
                    Some(c) => Some(c@),
                    None => None,
                },
                ctrl,
                platform,
            ),
            final(self)@.wf(),
    {
        let ghost before = self@;
        if self.typing.is_some() {
            let mut taken = self.typing.take();
            let mut step = TypingStep::Ignored;
            if let Some(mut t) = taken {
                step = t.key(key, ch, ctrl || platform);
                self.typing = Some(t);
            }
            return match step {
                TypingStep::Commit => {
                    assert(self@ =~= before);
                    self.commit_typing()
                },
                TypingStep::Cancel => {
                    self.typing = None;
                    EditorAction::Repaint
                },
                TypingStep::Changed => EditorAction::Repaint,
                TypingStep::Ignored => {
                    assert(self@ =~= before);
                    EditorAction::Nothing
                },
            };
        }
        if ctrl && text::same_text(key, "z") {
            self.undo()
        } else if ctrl && text::same_text(key, "s") {
            EditorAction::Save
        } else if ctrl && text::same_text(key, "c") {
            EditorAction::Copy
        } else if text::same_text(key, "escape") {
            if self.drag_start.is_some() {
                self.drag_start = None;
                self.drag_current = None;
                EditorAction::Repaint
            } else {
                EditorAction::Quit
            }
        } else {
            match tool_for_key(key) {
                Some(tool) => self.set_tool(tool),
                None => EditorAction::Nothing,
            }
        }
    }

    /// Show why saving, copying or drawing failed.
    pub fn fail(&mut self, what: &str, why: &str)
        ensures
            final(self)@ == (EditorView {
                status: Some(what@ + ": "@ + why@),
                ..old(self)@
            }),
    {
        let mut m = owned(what);
        m.append(": ");
        m.append(why);
        self.status = Some(m);
    }
}

// ---- what is shown ----

/// The shape of a drag that is under way, in window coordinates.
#[derive(Clone, Copy, PartialEq, Eq, Structural, Debug)]
pub enum Draft {
    /// A box or an ellipse, with a border of so many pixels.
    Frame { ellipse: bool, x: i128, y: i128, w: i128, h: i128, border: u8 },
    Arrow { fx: i128, fy: i128, tx: i128, ty: i128, stroke: i128 },
}

/// The border that is drawn for a stroke: one of four widths.
pub open spec fn border_of(stroke: int) -> u8 {
    let n = (stroke + 128) / 256;
    if n <= 1 {
        1
    } else if n <= 3 {
        2
    } else if n <= 5 {
        4
    } else {
        8
    }
}

/// A stroke as wide as it appears, at least one pixel.
pub open spec fn shown_stroke(f: Fit, stroke: int) -> int {
    crate::math::max_of(f.scaled(stroke), 256)
}

/// Where a point of the picture lies in the window.
pub open spec fn shown_at(f: Fit, p: (i64, i64)) -> (int, int) {
    (f.ox + f.scaled(p.0 as int), f.oy + TOOLBAR + f.scaled(p.1 as int))
}

/// The draft of a drag from `s` to `c`: an arrow with a stroke of `st`, or a box
/// with a border of `line` pixels. Tools that take a click have none.
pub open spec fn draft_is(
    d: Option<Draft>,
    f: Fit,
    tool: Tool,
    s: (i64, i64),
    c: (i64, i64),
    st: int,
    line: u8,
) -> bool {
    match tool {
        Tool::Arrow => match d {
            Some(Draft::Arrow { fx, fy, tx, ty, stroke }) => (fx as int, fy as int) == shown_at(
                f,
                s,
            ) && (tx as int, ty as int) == shown_at(f, c) && stroke == st,
            _ => false,
        },
        Tool::Rect | Tool::Ellipse => {
            let shape = dragged_shape(Tool::Rect, s, c, pen(Seq::empty(), 0), 0);
            match (d, shape) {
                (
                    Some(Draft::Frame { ellipse, x, y, w, h, border }),
                    AnnotationView::Rect { x: px, y: py, w: pw, h: ph, .. },
                ) => ellipse == (tool == Tool::Ellipse) && (x as int, y as int) == shown_at(
                    f,
                    (px, py),
                ) && w == crate::math::max_of(f.scaled(pw as int), 256) && h
                    == crate::math::max_of(f.scaled(ph as int), 256) && border == line,
                _ => false,
            }
        },
        _ => d is None,
    }
}

fn at_least_px(v: i128) -> (r: i128)
    ensures
        r == crate::math::max_of(v as int, 256),
{
    if v < 256 {
        256
    } else {
        v
    }
}

fn border_width(stroke: i128) -> (r: u8)
    requires
        0 <= stroke <= 0x1_0000_0000_0000_0000_0000_0000,
    ensures
        r == border_of(stroke as int),
{
    let n: i128 = (stroke + 128) / 256;
    if n <= 1 {
        1
    } else if n <= 3 {
        2
    } else if n <= 5 {
        4
    } else {
        8
    }
}

/// The draft of a drag from `s` to `c`.
pub fn draft_of(
    f: &Fit,
    tool: Tool,
    s: (i64, i64),
    c: (i64, i64),
    st: i128,
    line: u8,
) -> (r: Option<Draft>)
    requires
        f.wf(),
        crate::draw::tame_point(s),
        crate::draw::tame_point(c),
    ensures
        draft_is(r, *f, tool, s, c, st as int, line),
{
    let left: i128 = f.ox;
    let top: i128 = f.oy + TOOLBAR as i128;
    match tool {
        Tool::Arrow => Some(
            Draft::Arrow {
                fx: left + f.scale(s.0),
                fy: top + f.scale(s.1),
                tx: left + f.scale(c.0),
                ty: top + f.scale(c.1),
                stroke: st,
            },
        ),
        Tool::Rect | Tool::Ellipse => {
            let x: i64 = crate::math::min_i64(s.0, c.0);
            let y: i64 = crate::math::min_i64(s.1, c.1);
            let w: i64 = crate::math::max_i64(crate::math::abs_i64(c.0 - s.0), 0);
            let h: i64 = crate::math::max_i64(crate::math::abs_i64(c.1 - s.1), 0);
            Some(
                Draft::Frame {
                    ellipse: tool == Tool::Ellipse,
                    x: left + f.scale(x),
                    y: top + f.scale(y),
                    w: at_least_px(f.scale(w)),
                    h: at_least_px(f.scale(h)),
                    border: line,
                },
            )
        },
        _ => None,
    }
}

impl Editor {
    /// The shape of the drag that is under way, if there is one to show.
    pub fn drag_preview(&self, f: &Fit) -> (r: Option<Draft>)
        requires
            self@.wf(),
            f.wf(),
        ensures
            match (self.drag_start, self.drag_current) {
                (Some(s), Some(c)) => draft_is(
                    r,
                    *f,
                    self.tool,
                    s,
                    c,
                    shown_stroke(*f, stroke_width(self.stroke_ix as int) as int),
                    border_of(shown_stroke(*f, stroke_width(self.stroke_ix as int) as int)),
                ),
                _ => r is None,
            },
    {
        match (self.drag_start, self.drag_current) {
            (Some(s), Some(c)) => {
                let st: i128 = at_least_px(f.scale(stroke(self.stroke_ix).1));
                draft_of(f, self.tool, s, c, st, border_width(st))
            },
            _ => None,
        }
    }

    /// The text that is being typed, with a caret, and where and how large it
    /// is shown.
    pub fn typing_preview(&self, f: &Fit) -> (r: Option<(i128, i128, i128, String)>)
        requires
            f.wf(),
        ensures
            match (r, self@.typing) {
                (Some((x, y, size, s)), Some(t)) => (x as int, y as int) == shown_at(
                    *f,
                    (t.x, t.y),
                ) && size == f.scaled(TEXT_SIZE as int) && s@ == t.text.push('\u{258e}'),
                (None, None) => true,
                _ => false,
            },
    {
        match &self.typing {
            Some(t) => {
                let mut chars = text::to_chars(t.text.as_str());
                chars.push('\u{258e}');
                Some(
                    (
                        f.ox + f.scale(t.x),
                        f.oy + TOOLBAR as i128 + f.scale(t.y),
                        f.scale(TEXT_SIZE),
                        text::from_chars(chars.as_slice()),
                    ),
                )
            },
            None => None,
        }
    }
}

/// The size of a new editor window for a picture, in pixels.
pub fn window_size(width: u32, height: u32) -> (r: (u32, u32))
    ensures
        r.0 == crate::math::max_of(720, crate::math::min_of(width + 32, 1600)),
        r.1 == crate::math::max_of(440, crate::math::min_of(height + 84, 1000)),
{
    let w: u64 = width as u64 + 32;
    let h: u64 = height as u64 + 84;
    (
        if w > 1600 {
            1600
        } else if w < 720 {
            720
        } else {
            w as u32
        },
        if h > 1000 {
            1000
        } else if h < 440 {
            440
        } else {
            h as u32
        },
    )
}

/// Undoing a drawn shape takes it away.
pub proof fn law_undo_takes_back_drag(e: EditorView, p: Option<(i64, i64)>)
    requires
        e.typing is None,
        e.released(p).1 == EditorAction::Rerender,
    ensures
        e.released(p).0.undone().annotations == e.annotations,
{
    assert(e.released(p).0.annotations.drop_last() =~= e.annotations);
}

/// No key and no pointer takes an annotation away but the undo key: every
/// other event keeps the list or adds one at its end.
pub proof fn law_annotations_only_grow(
    e: EditorView,
    p: Option<(i64, i64)>,
    key: Seq<char>,
    ch: Option<Seq<char>>,
    ctrl: bool,
    platform: bool,
)
    ensures
        grown(e.annotations, e.pressed(p).0.annotations),
        grown(e.annotations, e.moved(p).0.annotations),
        grown(e.annotations, e.released(p).0.annotations),
        !(ctrl && key == "z"@) ==> grown(
            e.annotations,
            e.keyed(key, ch, ctrl, platform).0.annotations,
        ),
{
}

/// The same list, or with one more at its end.
pub open spec fn grown(a: Seq<AnnotationView<i64>>, b: Seq<AnnotationView<i64>>) -> bool {
    a == b || exists|x: AnnotationView<i64>| b == #[trigger] a.push(x)
}

/// A drag of more than three pixels on some axis, with a tool for shapes, adds
/// one shape and nothing else: an arrow from where it began to where it ended,
/// or a box around both points, in the picked color and stroke. A shorter drag
/// adds nothing. Either way the drag is over.
pub proof fn law_drag_draws_between_its_ends(
    e: EditorView,
    s: (i64, i64),
    m: Option<(i64, i64)>,
    p: (i64, i64),
)
    requires
        e.typing is None,
        e.tool == Tool::Arrow || e.tool == Tool::Rect || e.tool == Tool::Ellipse,
        on_picture(Some(s), e.width, e.height),
        on_picture(Some(p), e.width, e.height),
    ensures
        ({
            let up = e.pressed(Some(s)).0.moved(m).0.released(Some(p)).0;
            let far = p.0 - s.0 > 768 || s.0 - p.0 > 768 || p.1 - s.1 > 768 || s.1 - p.1 > 768;
            &&& up.drag_start is None && up.drag_current is None && up.typing is None
            &&& !far ==> up.annotations == e.annotations
            &&& far ==> up.annotations.len() == e.annotations.len() + 1
                && up.annotations.drop_last() == e.annotations
            &&& far && e.tool == Tool::Arrow ==> up.annotations.last() == (AnnotationView::Arrow {
                from: s,
                to: p,
                style: StyleView {
                    color: Some(color_name(e.color_ix as int)),
                    stroke_width: Some(stroke_width(e.stroke_ix as int)),
                    fill_opacity: None,
                },
                label: None,
            })
            &&& far && e.tool != Tool::Arrow ==> (match up.annotations.last() {
                AnnotationView::Rect { x, y, w, h, .. } => e.tool == Tool::Rect && spans(
                    (x, y, w, h),
                    s,
                    p,
                ),
                AnnotationView::Ellipse { x, y, w, h, .. } => e.tool == Tool::Ellipse && spans(
                    (x, y, w, h),
                    s,
                    p,
                ),
                _ => false,
            })
        }),
{
    let up = e.pressed(Some(s)).0.moved(m).0.released(Some(p)).0;
    if up.annotations.len() > e.annotations.len() {
        assert(up.annotations.drop_last() =~= e.annotations);
    }
}

/// A box reaches from one of two points to the other on both axes, at least one
/// pixel.
pub open spec fn spans(b: (i64, i64, i64, i64), s: (i64, i64), p: (i64, i64)) -> bool {
    &&& b.0 <= s.0 && b.0 <= p.0 && (b.0 == s.0 || b.0 == p.0)
    &&& b.1 <= s.1 && b.1 <= p.1 && (b.1 == s.1 || b.1 == p.1)
    &&& b.0 + b.2 >= s.0 && b.0 + b.2 >= p.0 && b.2 >= 256
    &&& b.1 + b.3 >= s.1 && b.1 + b.3 >= p.1 && b.3 >= 256
    &&& b.2 == 256 || b.0 + b.2 == s.0 || b.0 + b.2 == p.0
    &&& b.3 == 256 || b.1 + b.3 == s.1 || b.1 + b.3 == p.1
}

/// The arrow that a drag leaves has its tail and its head where the draft of
/// the drag showed them.
pub proof fn law_draft_shows_the_arrow(
    d: Option<Draft>,
    f: Fit,
    s: (i64, i64),
    c: (i64, i64),
    st: int,
    line: u8,
    style: StyleView<i64>,
)
    requires
        draft_is(d, f, Tool::Arrow, s, c, st, line),
    ensures
        match (d, dragged_shape(Tool::Arrow, s, c, style, 256)) {
            (
                Some(Draft::Arrow { fx, fy, tx, ty, stroke }),
                AnnotationView::Arrow { from, to, .. },
            ) => {
                &&& fx == f.ox + f.scaled(from.0 as int)
                &&& fy == f.oy + 13_312 + f.scaled(from.1 as int)
                &&& tx == f.ox + f.scaled(to.0 as int)
                &&& ty == f.oy + 13_312 + f.scaled(to.1 as int)
                &&& from == s && to == c && stroke == st
            },
            _ => false,
        },
{
}

/// The box that a drag leaves lies where the draft of the drag showed it.
pub proof fn law_draft_shows_the_box(
    d: Option<Draft>,
    f: Fit,
    tool: Tool,
    s: (i64, i64),
    c: (i64, i64),
    st: int,
    line: u8,
)
    requires
        tool == Tool::Rect || tool == Tool::Ellipse,
        crate::draw::tame_point(s),
        crate::draw::tame_point(c),
        draft_is(d, f, tool, s, c, st, line),
    ensures
        d matches Some(Draft::Frame { ellipse, x, y, w, h, border }) && {
            let (x0, x1) = if s.0 < c.0 {
                (s.0, c.0)
            } else {
                (c.0, s.0)
            };
            let (y0, y1) = if s.1 < c.1 {
                (s.1, c.1)
            } else {
                (c.1, s.1)
            };
            &&& ellipse == (tool == Tool::Ellipse)
            &&& x == f.ox + f.scaled(x0 as int)
            &&& y == f.oy + 13_312 + f.scaled(y0 as int)
            &&& w >= 256 && h >= 256 && border == line
            &&& f.scaled(x1 - x0) >= 256 ==> w == f.scaled(x1 - x0)
            &&& f.scaled(y1 - y0) >= 256 ==> h == f.scaled(y1 - y0)
        },
{
}

/// A click with the marker tool puts a marker on the clicked point, with a
/// number that no other marker has.
pub proof fn law_marker_stands_where_clicked(e: EditorView, p: (i64, i64), i: int)
    requires
        e.typing is None,
        e.tool == Tool::Marker,
        first_free(e.annotations) <= u32::MAX,
        0 <= i < e.annotations.len(),
    ensures
        ({
            let next = e.pressed(Some(p)).0;
            &&& next.annotations.drop_last() == e.annotations
            &&& next.annotations.last() matches AnnotationView::Marker { x, y, number, style, .. }
                && x == p.0 && y == p.1 && number is Some && number->0 >= 1 && style.color == Some(
                color_name(e.color_ix as int),
            ) && style.stroke_width == Some(stroke_width(e.stroke_ix as int)) && (
            e.annotations[i] matches AnnotationView::Marker { number: other, .. } ==> other
                != number)
        }),
{
    let next = e.pressed(Some(p)).0;
    assert(next.annotations.drop_last() =~= e.annotations);
    crate::spec::lemma_first_free_is_free(e.annotations, i);
}

/// A text that is typed after a click with the text tool is drawn at the
/// clicked point when it is taken, with the characters that were typed; an
/// empty one leaves nothing.
pub proof fn law_typed_text_is_drawn_where_clicked(
    e: EditorView,
    p: (i64, i64),
    key: Seq<char>,
    c: Seq<char>,
    ctrl: bool,
)
    requires
        e.typing is None,
        e.tool == Tool::Text,
        key != "enter"@ && key != "escape"@ && key != "backspace"@ && key != "space"@,
        c.len() > 0,
    ensures
        ({
            let open = e.pressed(Some(p)).0;
            let one = open.keyed(key, Some(c), false, false).0;
            let done = one.keyed("enter"@, None, ctrl, false).0;
            &&& open.annotations == e.annotations && one.annotations == e.annotations
            &&& open.typing matches Some(t) && t.x == p.0 && t.y == p.1 && t.text.len() == 0
            &&& one.typing matches Some(t) && t.x == p.0 && t.y == p.1 && t.text == c
            &&& done.typing is None
            &&& done.annotations.drop_last() == e.annotations
            &&& done.annotations.last() matches AnnotationView::Text { x, y, text, size, style } && x
                == p.0 && y == p.1 && text == c && size == Some(6144i64) && style.color == Some(
                color_name(e.color_ix as int),
            )
            &&& one.keyed("escape"@, None, ctrl, false).0.annotations == e.annotations
            &&& one.keyed("escape"@, None, ctrl, false).0.typing is None
            &&& open.keyed("enter"@, None, ctrl, false).0.annotations == e.annotations
        }),
{
    reveal_strlit("enter");
    reveal_strlit("escape");
    let open = e.pressed(Some(p)).0;
    let one = open.keyed(key, Some(c), false, false).0;
    let done = one.keyed("enter"@, None, ctrl, false).0;
    assert("enter"@.len() == 5 && "escape"@.len() == 6);
    assert(Seq::<char>::empty() + c =~= c);
    assert(one.typing == Some(TypingView { x: p.0, y: p.1, text: c }));
    assert(open.typing == Some(TypingView { x: p.0, y: p.1, text: Seq::empty() }));
    assert(done.annotations.drop_last() =~= e.annotations);
}

/// What is drawn next has the color and the stroke that are picked, and there
/// are no two colors of one name or value, nor two strokes of one width.
pub proof fn law_colors_differ(i: int, j: int)
    requires
        0 <= i < j < 7,
    ensures
        color_name(i) != color_name(j),
        color_value(i) != color_value(j),
        j < 3 ==> stroke_width(i) < stroke_width(j) && stroke_name(i) != stroke_name(j),
{
    reveal_strlit("red");
    reveal_strlit("orange");
    reveal_strlit("green");
    reveal_strlit("blue");
    reveal_strlit("purple");
    reveal_strlit("white");
    reveal_strlit("black");
    reveal_strlit("S");
    reveal_strlit("M");
    reveal_strlit("L");
    assert(color_name(i).len() != color_name(j).len() || color_name(i)[0] != color_name(j)[0]
        || color_name(i)[2] != color_name(j)[2]);
    assert(j < 3 ==> stroke_name(i)[0] != stroke_name(j)[0]);
}

/// R, O, A, M and T pick the rectangle, the ellipse, the arrow, the marker and
/// the text; with Ctrl, Z undoes, S saves and C copies. Escape gives up a drag,
/// or quits where there is none.
pub proof fn law_keys_of_the_editor(e: EditorView, key: Seq<char>, platform: bool)
    requires
        e.typing is None,
    ensures
        tool_key("r"@) == Some(Tool::Rect),
        tool_key("o"@) == Some(Tool::Ellipse),
        tool_key("a"@) == Some(Tool::Arrow),
        tool_key("m"@) == Some(Tool::Marker),
        tool_key("t"@) == Some(Tool::Text),
        tool_key(key) is Some ==> key == "r"@ || key == "o"@ || key == "a"@ || key == "m"@ || key
            == "t"@,
        tool_key(key) matches Some(t) ==> ({
            let (next, action) = e.keyed(key, None, false, platform);
            next.tool == t && next.annotations == e.annotations && action == EditorAction::Repaint
        }),
        e.keyed("z"@, None, true, platform) == (e.undone(), EditorAction::Rerender),
        e.keyed("s"@, None, true, platform) == (e, EditorAction::Save),
        e.keyed("c"@, None, true, platform) == (e, EditorAction::Copy),
        e.drag_start is None ==> e.keyed("escape"@, None, false, platform) == (
            e,
            EditorAction::Quit,
        ),
        e.drag_start is Some ==> ({
            let (next, action) = e.keyed("escape"@, None, false, platform);
            next.drag_start is None && next.drag_current is None && next.annotations
                == e.annotations && action == EditorAction::Repaint
        }),
{
    reveal_strlit("r");
    reveal_strlit("o");
    reveal_strlit("a");
    reveal_strlit("m");
    reveal_strlit("t");
    reveal_strlit("z");
    reveal_strlit("s");
    reveal_strlit("c");
    reveal_strlit("escape");
    assert("r"@[0] == 'r' && "o"@[0] == 'o' && "a"@[0] == 'a' && "m"@[0] == 'm' && "t"@[0] == 't'
        && "z"@[0] == 'z' && "s"@[0] == 's' && "c"@[0] == 'c');
    assert("escape"@.len() == 6 && "r"@.len() == 1 && "o"@.len() == 1 && "a"@.len() == 1
        && "m"@.len() == 1 && "t"@.len() == 1 && "z"@.len() == 1 && "s"@.len() == 1 && "c"@.len()
        == 1);
}

/// The swatch of a color shows what is drawn in it.
pub proof fn law_swatches_show_their_colors(i: int)
    requires
        0 <= i < 7,
    ensures
        crate::color::color_of(color_name(i)) matches Some(c) && c.a == 255 && c.r * 65536 + c.g * 256
            + c.b == color_value(i),
{
    reveal_strlit("red");
    reveal_strlit("orange");
    reveal_strlit("yellow");
    reveal_strlit("green");
    reveal_strlit("blue");
    reveal_strlit("purple");
    reveal_strlit("pink");
    reveal_strlit("black");
    reveal_strlit("white");
    assert(text::lower(color_name(i)) =~= color_name(i));
    let n = color_name(i);
    assert("red"@.len() == 3 && "orange"@.len() == 6 && "yellow"@.len() == 6 && "green"@.len() == 5
        && "blue"@.len() == 4 && "purple"@.len() == 6 && "pink"@.len() == 4 && "black"@.len() == 5
        && "white"@.len() == 5);
    assert("orange"@[0] == 'o' && "yellow"@[0] == 'y' && "green"@[0] == 'g' && "blue"@[0] == 'b'
        && "purple"@[0] == 'p' && "pink"@[0] == 'p' && "black"@[0] == 'b' && "white"@[0] == 'w');
}

/// A click hits the point of the picture that is shown under it, below the
/// toolbar, and nothing beside the picture. The picture is fitted into what the
/// toolbar leaves of the window and is shown at most twice as large.
pub proof fn law_click_hits_what_is_shown(
    p: Option<(i64, i64)>,
    pos: Pos,
    view: Extent,
    width: u32,
    height: u32,
)
    requires
        hit(p, pos, view, width, height),
        0 < view.w,
        13_312 < view.h,
        width > 0,
        height > 0,
    ensures
        fitted(view.w as int, view.h - 13_312, width as int, height as int, Some(2)) matches Some(f)
            && {
            &&& p is Some == (0 <= (pos.x - f.ox) * f.den <= width * 256 * f.num && 0 <= (pos.y
                - 13_312 - f.oy) * f.den <= height * 256 * f.num)
            &&& p matches Some(q) ==> {
                &&& shown_at(f, q).0 <= pos.x && shown_at(f, q).1 <= pos.y
                &&& pos.x <= f.ox + f.scaled(q.0 + 1)
                &&& pos.y <= f.oy + 13_312 + f.scaled(q.1 + 1)
            }
        },
{
    crate::geometry::law_fit_is_centred_and_full(
        view.w as int,
        view.h - 13_312,
        width as int,
        height as int,
        Some(2),
    );
    let f = place(view, width, height)->0;
    crate::geometry::law_fit_lies_inside(
        view.w as int,
        view.h - 13_312,
        width as int,
        height as int,
        Some(2),
        0,
    );
    crate::geometry::lemma_fit_is_wf(
        view.w as int,
        view.h - 13_312,
        width as int,
        height as int,
        Some(2),
    );
    crate::geometry::law_point_is_shown_where_it_was(
        p,
        f,
        pos.x as int,
        pos.y - 13_312,
        width as int,
        height as int,
    );
}

/// While a drag goes on, its end follows the pointer as long as it is over the
/// picture, and letting go beside the picture draws up to where it was last.
pub proof fn law_drag_follows_the_pointer(
    e: EditorView,
    s: (i64, i64),
    m: (i64, i64),
    p: Option<(i64, i64)>,
)
    requires
        e.typing is None,
        e.tool == Tool::Arrow || e.tool == Tool::Rect || e.tool == Tool::Ellipse,
    ensures
        e.pressed(Some(s)).0.drag_start == Some(s),
        e.pressed(Some(s)).0.moved(Some(m)).0.drag_start == Some(s),
        e.pressed(Some(s)).0.moved(Some(m)).0.drag_current == Some(m),
        e.pressed(Some(s)).0.moved(Some(m)).0.moved(None).0.drag_current == Some(m),
        e.pressed(Some(s)).0.moved(Some(m)).0.released(None).0 == e.pressed(Some(s)).0.moved(
            Some(m),
        ).0.released(Some(m)).0,
        e.pressed(None).0 == e,
        e.drag_start is None ==> e.moved(p).0 == e && e.released(p).0 == e,
{
}

/// A press while a text is typed takes the text, wherever it is, and begins
/// nothing else.
pub proof fn law_press_takes_the_typed_text(e: EditorView, p: Option<(i64, i64)>)
    requires
        e.typing is Some,
    ensures
        e.pressed(p).0.typing is None,
        e.pressed(p).0.drag_start == e.drag_start,
        e.typing->0.text.len() > 0 ==> (e.pressed(p).0.annotations.last() matches
            AnnotationView::Text { x, y, text, .. } && x == e.typing->0.x && y == e.typing->0.y
            && text == e.typing->0.text),
        e.typing->0.text.len() == 0 ==> e.pressed(p).0.annotations == e.annotations,
        e.undone().typing is None && e.undone().annotations == e.annotations,
{
}

} // verus!
