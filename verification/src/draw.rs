//! Drawing by hand: the tools, their colors, and the shape that a drag makes.
//! Coordinates are 1/256 pixels of the picture.
use vstd::prelude::*;
use crate::error::owned;
use crate::math::{abs_i64, abs_of, max_i64, max_of, min_i64, min_of};
use crate::spec::{Annotation, AnnotationView, Style, StyleView};
use crate::text;

verus! {

#[derive(Clone, Copy, PartialEq, Eq, Structural, Debug)]
pub enum Tool {
    Rect,
    Ellipse,
    Arrow,
    Marker,
    Text,
}

impl Tool {
    pub open spec fn glyph(self) -> Seq<char> {
        match self {
            Tool::Rect => "\u{25ad}"@,
            Tool::Ellipse => "\u{25ef}"@,
            Tool::Arrow => "\u{2197}"@,
            Tool::Marker => "\u{2460}"@,
            Tool::Text => "T"@,
        }
    }

    /// The sign on the tool's button.
    pub fn label(&self) -> (r: &'static str)
        ensures
            r@ == self.glyph(),
    {
        match self {
            Tool::Rect => "\u{25ad}",
            Tool::Ellipse => "\u{25ef}",
            Tool::Arrow => "\u{2197}",
            Tool::Marker => "\u{2460}",
            Tool::Text => "T",
        }
    }

    /// All tools, in the order of their buttons.
    pub fn all() -> (r: Vec<Tool>)
        ensures
            r@ == seq![Tool::Rect, Tool::Ellipse, Tool::Arrow, Tool::Marker, Tool::Text],
    {
        let tools: Vec<Tool> = vec![
            Tool::Rect,
            Tool::Ellipse,
            Tool::Arrow,
            Tool::Marker,
            Tool::Text,
        ];
        assert(tools@ =~= seq![Tool::Rect, Tool::Ellipse, Tool::Arrow, Tool::Marker, Tool::Text]);
        tools
    }
}

/// A style of a color name and a stroke width.
pub open spec fn pen(color: Seq<char>, stroke: i64) -> StyleView<i64> {
    StyleView { color: Some(color), stroke_width: Some(stroke), fill_opacity: None }
}

pub fn make_style(color: &str, stroke: i64) -> (r: Style<i64>)
    ensures
        r@ == pen(color@, stroke),
{
    Style { color: Some(owned(color)), stroke_width: Some(stroke), fill_opacity: None }
}

/// A drag of more than three pixels in either direction is meant as one.
pub open spec fn is_drag(sx: int, sy: int, x: int, y: int) -> bool {
    abs_of(x - sx) > 768 || abs_of(y - sy) > 768
}

/// The coordinate can be computed with.
pub open spec fn tame(v: int) -> bool {
    -0x1000_0000_0000_0000 <= v <= 0x1000_0000_0000_0000
}

pub open spec fn tame_point(p: (i64, i64)) -> bool {
    tame(p.0 as int) && tame(p.1 as int)
}

pub fn drag_is_meant(s: (i64, i64), p: (i64, i64)) -> (r: bool)
    requires
        tame_point(s),
        tame_point(p),
    ensures
        r == is_drag(s.0 as int, s.1 as int, p.0 as int, p.1 as int),
{
    abs_i64(p.0 - s.0) > 768 || abs_i64(p.1 - s.1) > 768
}

/// The shape that a drag from `s` to `p` makes with a tool: an arrow, or an
/// ellipse or a rectangle between the two points, at least `least` wide and
/// high.
pub open spec fn dragged_shape(
    tool: Tool,
    s: (i64, i64),
    p: (i64, i64),
    style: StyleView<i64>,
    least: int,
) -> AnnotationView<i64> {
    let x = min_of(s.0 as int, p.0 as int) as i64;
    let y = min_of(s.1 as int, p.1 as int) as i64;
    let w = max_of(abs_of(p.0 - s.0), least) as i64;
    let h = max_of(abs_of(p.1 - s.1), least) as i64;
    match tool {
        Tool::Arrow => AnnotationView::Arrow { from: s, to: p, style, label: None },
        Tool::Ellipse => AnnotationView::Ellipse { x, y, w, h, style, label: None },
        _ => AnnotationView::Rect { x, y, w, h, style, label: None },
    }
}

pub fn shape_from_drag(
    tool: Tool,
    s: (i64, i64),
    p: (i64, i64),
    style: Style<i64>,
    least: i64,
) -> (r: Annotation<i64>)
    requires
        tame_point(s),
        tame_point(p),
    ensures
        r@ == dragged_shape(tool, s, p, style@, least as int),
{
    let x: i64 = min_i64(s.0, p.0);
    let y: i64 = min_i64(s.1, p.1);
    let w: i64 = max_i64(abs_i64(p.0 - s.0), least);
    let h: i64 = max_i64(abs_i64(p.1 - s.1), least);
    match tool {
        Tool::Arrow => Annotation::Arrow { from: s, to: p, style, label: None },
        Tool::Ellipse => Annotation::Ellipse { x, y, w, h, style, label: None },
        _ => Annotation::Rect { x, y, w, h, style, label: None },
    }
}

/// Whichever way it is dragged, a box spans the same rectangle.
pub proof fn law_boxes_ignore_direction(
    s: (i64, i64),
    p: (i64, i64),
    style: StyleView<i64>,
    least: int,
)
    ensures
        dragged_shape(Tool::Rect, s, p, style, least) == dragged_shape(
            Tool::Rect,
            p,
            s,
            style,
            least,
        ),
        dragged_shape(Tool::Ellipse, s, p, style, least) == dragged_shape(
            Tool::Ellipse,
            p,
            s,
            style,
            least,
        ),
{
}

/// An arrow has its tail where the drag began and its head where it ended.
pub proof fn law_arrow_points_at_the_end(
    s: (i64, i64),
    p: (i64, i64),
    style: StyleView<i64>,
    least: int,
)
    ensures
        dragged_shape(Tool::Arrow, s, p, style, least) matches AnnotationView::Arrow {
            from,
            to,
            style: pen,
            label,
        } && from == s && to == p && pen == style && label is None,
{
}

/// A box has the two ends of the drag on its border or, where they are too
/// close to each other, grows to the right and down until it is `least` wide
/// and high. The tool decides between an ellipse and a rectangle.
pub proof fn law_box_spans_the_drag(
    tool: Tool,
    s: (i64, i64),
    p: (i64, i64),
    style: StyleView<i64>,
    least: int,
)
    requires
        tool == Tool::Rect || tool == Tool::Ellipse,
        tame_point(s),
        tame_point(p),
        0 <= least <= i64::MAX,
    ensures
        ({
            let (x, y, w, h) = match dragged_shape(tool, s, p, style, least) {
                AnnotationView::Rect { x, y, w, h, .. } => (x, y, w, h),
                AnnotationView::Ellipse { x, y, w, h, .. } => (x, y, w, h),
                _ => (0i64, 0i64, 0i64, 0i64),
            };
            &&& (tool == Tool::Rect) == (dragged_shape(tool, s, p, style, least) is Rect)
            &&& (tool == Tool::Ellipse) == (dragged_shape(tool, s, p, style, least) is Ellipse)
            &&& x <= s.0 && x <= p.0 && (x == s.0 || x == p.0)
            &&& y <= s.1 && y <= p.1 && (y == s.1 || y == p.1)
            &&& s.0 <= x + w && p.0 <= x + w && w >= least
            &&& s.1 <= y + h && p.1 <= y + h && h >= least
            &&& x + w == s.0 || x + w == p.0 || w == least
            &&& y + h == s.1 || y + h == p.1 || h == least
        }),
        match dragged_shape(tool, s, p, style, least) {
            AnnotationView::Rect { style: pen, label, .. } => pen == style && label is None,
            AnnotationView::Ellipse { style: pen, label, .. } => pen == style && label is None,
            _ => false,
        },
{
}

// ---- typing ----

/// A text that is being typed, and where it will stand.
#[derive(Debug)]
pub struct Typing {
    pub x: i64,
    pub y: i64,
    pub text: String,
}

#[verifier::ext_equal]
pub struct TypingView {
    pub x: i64,
    pub y: i64,
    pub text: Seq<char>,
}

impl View for Typing {
    type V = TypingView;

    open spec fn view(&self) -> TypingView {
        TypingView { x: self.x, y: self.y, text: self.text@ }
    }
}

pub open spec fn typing_view(t: Option<Typing>) -> Option<TypingView> {
    match t {
        Some(t) => Some(t@),
        None => None,
    }
}

/// What a key does to a text that is being typed.
#[derive(Clone, Copy, PartialEq, Eq, Structural, Debug)]
pub enum TypingStep {
    Commit,
    Cancel,
    Changed,
    Ignored,
}

/// The last character taken off, if there is one.
pub open spec fn shortened(s: Seq<char>) -> Seq<char> {
    if s.len() == 0 {
        s
    } else {
        s.drop_last()
    }
}

/// What a key does: Enter commits, Escape cancels, Backspace takes a character
/// off, and other keys add what they type, unless a modifier is held.
pub open spec fn typed(s: Seq<char>, key: Seq<char>, ch: Option<Seq<char>>, modified: bool) -> (
    Seq<char>,
    TypingStep,
) {
    if key == "enter"@ {
        (s, TypingStep::Commit)
    } else if key == "escape"@ {
        (s, TypingStep::Cancel)
    } else if key == "backspace"@ {
        (shortened(s), TypingStep::Changed)
    } else if key == "space"@ {
        (s.push(' '), TypingStep::Changed)
    } else {
        match ch {
            Some(c) => if modified {
                (s, TypingStep::Ignored)
            } else {
                (s + c, TypingStep::Changed)
            },
            None => (s, TypingStep::Ignored),
        }
    }
}

impl Typing {
    /// A key while a text is being typed.
    pub fn key(&mut self, key: &str, ch: Option<&str>, modified: bool) -> (r: TypingStep)
        ensures
            ({
                let (s, step) = typed(
                    old(self)@.text,
                    key@,
                    match ch {
                        Some(c) => Some(c@),
                        None => None,
                    },
                    modified,
                );
                &&& r == step
                &&& final(self)@ == (TypingView { text: s, ..old(self)@ })
            }),
    {
        if text::same_text(key, "enter") {
            TypingStep::Commit
        } else if text::same_text(key, "escape") {
            TypingStep::Cancel
        } else {
            let mut chars = text::to_chars(self.text.as_str());
            let mut step = TypingStep::Changed;
            if text::same_text(key, "backspace") {
                if chars.len() > 0 {
                    chars.pop();
                }
                assert(chars@ =~= shortened(old(self)@.text));
            } else if text::same_text(key, "space") {
                chars.push(' ');
            } else {
                match ch {
                    Some(c) => if modified {
                        step = TypingStep::Ignored;
                    } else {
                        let more = text::to_chars(c);
                        text::append_chars(&mut chars, more.as_slice());
                    },
                    None => {
                        step = TypingStep::Ignored;
                    },
                }
            }
            self.text = text::from_chars(chars.as_slice());
            step
        }
    }
}

/// Backspace takes back what a key has typed, and no key but Enter and Escape
/// ends the typing.
pub proof fn law_backspace_takes_back(s: Seq<char>, key: Seq<char>, c: char)
    requires
        key != "enter"@ && key != "escape"@ && key != "backspace"@ && key != "space"@,
    ensures
        typed(s, key, Some(seq![c]), false) == (s.push(c), TypingStep::Changed),
        typed(s.push(c), "backspace"@, None, false) == (s, TypingStep::Changed),
        typed(s, "space"@, None, false) == (s.push(' '), TypingStep::Changed),
        typed(s, key, Some(seq![c]), true) == (s, TypingStep::Ignored),
        typed(s, key, None, false) == (s, TypingStep::Ignored),
        typed(s, "enter"@, None, false) == (s, TypingStep::Commit),
        typed(s, "escape"@, None, false) == (s, TypingStep::Cancel),
{
    reveal_strlit("enter");
    reveal_strlit("escape");
    reveal_strlit("backspace");
    reveal_strlit("space");
    assert("enter"@.len() == 5 && "escape"@.len() == 6 && "backspace"@.len() == 9 && "space"@.len()
        == 5);
    assert("enter"@[0] == 'e' && "space"@[0] == 's');
    assert(s + seq![c] =~= s.push(c));
    assert(s.push(c).drop_last() =~= s);
}

/// A typed text as an annotation.
pub open spec fn typed_annotation(t: TypingView, size: i64, style: StyleView<i64>) -> AnnotationView<
    i64,
> {
    AnnotationView::Text { x: t.x, y: t.y, text: t.text, size: Some(size), style }
}

} // verus!
