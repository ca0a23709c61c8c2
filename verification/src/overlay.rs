//! Region selection over a frozen picture of the desktop: drag a region, and
//! it is copied and shown as a card with further actions.
use vstd::prelude::*;
use crate::error::Error;
use crate::geometry::{Extent, Pos};
use crate::binary::{
    law_scaled_is_close, law_scaled_one_to_one, lemma_scaled_by, scale_by, scaled_by, SINGLE,
};
use crate::math::{max_of, min_of};
use crate::pixmap::{crop, crop_result, Pixmap, PixmapView};
use crate::text;

verus! {

/// How long the card stays, unless the pointer is on it, in nanoseconds.
pub const DISMISS_AFTER: i64 = 6_000_000_000;

#[derive(Clone, Copy, PartialEq, Eq, Structural, Debug)]
pub enum Phase {
    Idle,
    Dragging,
    Preview,
}

/// A rectangle of the window.
#[derive(Clone, Copy, PartialEq, Eq, Structural, Debug)]
pub struct Area {
    pub x: i64,
    pub y: i64,
    pub w: i64,
    pub h: i64,
}

/// How the overlay stands.
#[derive(Clone, Copy, PartialEq, Eq, Structural, Debug)]
pub struct Overlay {
    pub phase: Phase,
    pub start: Pos,
    pub end: Pos,
    pub hovered: bool,
    /// Counts the cards, so that an old timer does not close a new one.
    pub dismiss_gen: u64,
}

/// What is to be done after an event.
#[derive(Clone, Copy, PartialEq, Eq, Structural, Debug)]
pub enum OverlayAction {
    Nothing,
    /// Show the new state.
    Repaint,
    /// Crop to the area, or take all, and show it as a card.
    Capture(Option<Area>),
    Save,
    Edit,
    Copy,
    Quit,
}

/// A selection is at least this large: three pixels.
pub const MIN_SELECTION: i64 = 768;

/// The area between two corners, if it is large enough.
pub open spec fn area_between(a: Pos, b: Pos) -> Option<Area> {
    let x0 = min_of(a.x as int, b.x as int);
    let y0 = min_of(a.y as int, b.y as int);
    let w = max_of(a.x as int, b.x as int) - x0;
    let h = max_of(a.y as int, b.y as int) - y0;
    if w < MIN_SELECTION || h < MIN_SELECTION {
        None
    } else {
        Some(Area { x: x0 as i64, y: y0 as i64, w: w as i64, h: h as i64 })
    }
}

impl Overlay {
    /// The selected area.
    pub open spec fn selected(self) -> Option<Area> {
        if self.phase == Phase::Idle {
            None
        } else {
            area_between(self.start, self.end)
        }
    }

    /// After a press: a drag begins, unless a card is shown.
    pub open spec fn pressed(self, p: Pos) -> Overlay {
        if self.phase == Phase::Preview {
            self
        } else {
            Overlay { phase: Phase::Dragging, start: p, end: p, ..self }
        }
    }

    /// After a move.
    pub open spec fn moved(self, p: Pos) -> Overlay {
        if self.phase == Phase::Dragging {
            Overlay { end: p, ..self }
        } else {
            self
        }
    }

    /// After a release: a drag that selected nothing is over.
    pub open spec fn released(self, p: Pos) -> Overlay {
        if self.phase != Phase::Dragging {
            self
        } else if area_between(self.start, p) is None {
            Overlay { end: p, phase: Phase::Idle, ..self }
        } else {
            Overlay { end: p, ..self }
        }
    }

    /// After a capture: its card is shown.
    pub open spec fn release_action(self, p: Pos) -> OverlayAction {
        if self.phase != Phase::Dragging {
            OverlayAction::Nothing
        } else {
            match area_between(self.start, p) {
                Some(a) => OverlayAction::Capture(Some(a)),
                None => OverlayAction::Repaint,
            }
        }
    }

    /// Whether the timer of card `gen` closes the overlay.
    pub open spec fn times_out(self, gen: u64) -> bool {
        self.dismiss_gen == gen && self.phase == Phase::Preview && !self.hovered
    }

    pub open spec fn captured(self) -> Overlay {
        Overlay {
            phase: Phase::Preview,
            hovered: false,
            dismiss_gen: (self.dismiss_gen + 1) as u64,
            ..self
        }
    }

    pub fn new() -> (r: Overlay)
        ensures
            r == (Overlay {
                phase: Phase::Idle,
                start: Pos { x: 0, y: 0 },
                end: Pos { x: 0, y: 0 },
                hovered: false,
                dismiss_gen: 0,
            }),
    {
        Overlay {
            phase: Phase::Idle,
            start: Pos { x: 0, y: 0 },
            end: Pos { x: 0, y: 0 },
            hovered: false,
            dismiss_gen: 0,
        }
    }

    /// The selected area, if it is large enough to be meant.
    pub fn selection(&self) -> (r: Option<Area>)
        ensures
            r == self.selected(),
    {
        if self.phase == Phase::Idle {
            return None;
        }
        let (ax, ay, bx, by) = (
            self.start.x as i64,
            self.start.y as i64,
            self.end.x as i64,
            self.end.y as i64,
        );
        let x0: i64 = if ax < bx {
            ax
        } else {
            bx
        };
        let x1: i64 = if ax < bx {
            bx
        } else {
            ax
        };
        let y0: i64 = if ay < by {
            ay
        } else {
            by
        };
        let y1: i64 = if ay < by {
            by
        } else {
            ay
        };
        if x1 - x0 < MIN_SELECTION || y1 - y0 < MIN_SELECTION {
            return None;
        }
        Some(Area { x: x0, y: y0, w: x1 - x0, h: y1 - y0 })
    }

    pub fn mouse_down(&mut self, p: Pos) -> (r: OverlayAction)
        ensures
            *final(self) == old(self).pressed(p),
            r == (if old(self).phase == Phase::Preview {
                OverlayAction::Nothing
            } else {
                OverlayAction::Repaint
            }),
    {
        if self.phase == Phase::Preview {
            return OverlayAction::Nothing;
        }
        self.phase = Phase::Dragging;
        self.start = p;
        self.end = p;
        OverlayAction::Repaint
    }

    pub fn mouse_move(&mut self, p: Pos) -> (r: OverlayAction)
        ensures
            *final(self) == old(self).moved(p),
            r == (if old(self).phase == Phase::Dragging {
                OverlayAction::Repaint
            } else {
                OverlayAction::Nothing
            }),
    {
        if self.phase != Phase::Dragging {
            return OverlayAction::Nothing;
        }
        self.end = p;
        OverlayAction::Repaint
    }

    pub fn mouse_up(&mut self, p: Pos) -> (r: OverlayAction)
        ensures
            *final(self) == old(self).released(p),
            r == old(self).release_action(p),
    {
        if self.phase != Phase::Dragging {
            return OverlayAction::Nothing;
        }
        self.end = p;
        match self.selection() {
            Some(a) => OverlayAction::Capture(Some(a)),
            None => {
                self.phase = Phase::Idle;
                OverlayAction::Repaint
            },
        }
    }

    /// Show the card of a capture.
    pub fn enter_preview(&mut self)
        requires
            old(self).dismiss_gen < u64::MAX,
        ensures
            *final(self) == old(self).captured(),
    {
        self.phase = Phase::Preview;
        self.hovered = false;
        self.dismiss_gen = self.dismiss_gen + 1;
    }

    /// The pointer came onto the card or left it.
    pub fn hover(&mut self, hovered: bool)
        ensures
            *final(self) == (Overlay { hovered, ..*old(self) }),
    {
        self.hovered = hovered;
    }

    /// Whether the timer of card `gen` closes the overlay.
    pub fn timed_out(&self, gen: u64) -> (r: bool)
        ensures
            r == self.times_out(gen),
    {
        self.dismiss_gen == gen && self.phase == Phase::Preview && !self.hovered
    }

    /// What a key does: Escape quits; Enter takes the full screen, and on a
    /// card it saves, as S does, while C copies and E edits.
    pub fn key_down(&self, key: &str) -> (r: OverlayAction)
        ensures
            r == key_action(self.phase, key@),
    {
        if text::same_text(key, "escape") {
            return OverlayAction::Quit;
        }
        match self.phase {
            Phase::Preview => {
                if text::same_text(key, "enter") || text::same_text(key, "s") {
                    OverlayAction::Save
                } else if text::same_text(key, "e") {
                    OverlayAction::Edit
                } else if text::same_text(key, "c") {
                    OverlayAction::Copy
                } else {
                    OverlayAction::Nothing
                }
            },
            Phase::Idle => if text::same_text(key, "enter") {
                OverlayAction::Capture(None)
            } else {
                OverlayAction::Nothing
            },
            Phase::Dragging => OverlayAction::Nothing,
        }
    }
}

/// What a key does in a phase.
pub open spec fn key_action(phase: Phase, key: Seq<char>) -> OverlayAction {
    if key == "escape"@ {
        OverlayAction::Quit
    } else {
        match phase {
            Phase::Preview => if key == "enter"@ || key == "s"@ {
                OverlayAction::Save
            } else if key == "e"@ {
                OverlayAction::Edit
            } else if key == "c"@ {
                OverlayAction::Copy
            } else {
                OverlayAction::Nothing
            },
            Phase::Idle => if key == "enter"@ {
                OverlayAction::Capture(None)
            } else {
                OverlayAction::Nothing
            },
            Phase::Dragging => OverlayAction::Nothing,
        }
    }
}

/// Escape always quits. Enter takes the whole screen before a selection and
/// saves the card after it; S, E and C save, edit and copy the card. Nothing
/// else is a key, and none but Escape while the pointer is dragged.
pub proof fn law_keys_of_the_overlay(phase: Phase, key: Seq<char>)
    ensures
        key_action(phase, "escape"@) == OverlayAction::Quit,
        key_action(Phase::Idle, "enter"@) == OverlayAction::Capture(None),
        key_action(Phase::Preview, "enter"@) == OverlayAction::Save,
        key_action(Phase::Preview, "s"@) == OverlayAction::Save,
        key_action(Phase::Preview, "e"@) == OverlayAction::Edit,
        key_action(Phase::Preview, "c"@) == OverlayAction::Copy,
        key_action(phase, key) != OverlayAction::Nothing && key != "escape"@ ==> phase
            != Phase::Dragging && (key == "enter"@ || phase == Phase::Preview && (key == "s"@ || key
            == "e"@ || key == "c"@)),
{
    reveal_strlit("escape");
    reveal_strlit("enter");
    reveal_strlit("s");
    reveal_strlit("e");
    reveal_strlit("c");
    assert("escape"@.len() == 6 && "enter"@.len() == 5 && "s"@.len() == 1 && "e"@.len() == 1
        && "c"@.len() == 1);
    assert("s"@[0] == 's' && "e"@[0] == 'e' && "c"@[0] == 'c');
}

/// While a card is shown, the pointer changes nothing but the hovering.
pub proof fn law_card_ignores_pointer(o: Overlay, p: Pos)
    requires
        o.phase == Phase::Preview,
    ensures
        o.pressed(p) == o,
        o.moved(p) == o,
        o.released(p) == o,
{
}

/// A drag selects the same area whichever corner it begins at.
pub proof fn law_selection_is_symmetric(a: Pos, b: Pos)
    ensures
        area_between(a, b) == area_between(b, a),
{
}

// ---- cropping ----

/// A position or length of the window in pixels of a picture, of `image`
/// pixels over `window`.
pub open spec fn in_pixels(v: int, image: int, window: int) -> int {
    scaled_by(max_of(v, 0), image, window, 256, SINGLE as int)
}

/// A position or length in pixels, at most `most`. In a window without extent
/// everything but zero is as far as can be.
pub open spec fn on_axis(v: int, image: int, window: int, most: int) -> int {
    if window > 0 {
        min_of(in_pixels(v, image, window), most)
    } else if v > 0 {
        most
    } else {
        min_of(0, most)
    }
}

/// The region of a picture that an area of the window covers: at least one
/// pixel, and no more than the picture has.
pub open spec fn pixel_region(a: Area, view: Extent, iw: int, ih: int) -> (int, int, int, int) {
    let x = on_axis(a.x as int, iw, view.w as int, i32::MAX as int);
    let y = on_axis(a.y as int, ih, view.h as int, i32::MAX as int);
    let w = max_of(1, on_axis(a.w as int, iw, view.w as int, iw - x));
    let h = max_of(1, on_axis(a.h as int, ih, view.h as int, ih - y));
    (x, y, w, h)
}

pub proof fn lemma_pixels(v: int, image: int, window: int)
    requires
        0 <= image <= u32::MAX,
        0 < window,
    ensures
        0 <= in_pixels(v, image, window),
{
    lemma_scaled_by(max_of(v, 0), image, window, 256, SINGLE as int);
}

/// A position or length in pixels of a picture, at most `most`.
pub fn pixels(v: i64, image: u32, window: i32, most: u32) -> (r: u32)
    requires
        v <= 0x2_0000_0000,
        0 < window,
    ensures
        r == min_of(in_pixels(v as int, image as int, window as int), most as int),
{
    proof {
        lemma_pixels(v as int, image as int, window as int);
    }
    let a: u64 = if v < 0 {
        0
    } else {
        v as u64
    };
    let q: u128 = scale_by(a, image as u64, window as u64, 256, SINGLE);
    if q < most as u128 {
        q as u32
    } else {
        most
    }
}

fn axis_pixels(v: i64, image: u32, window: i32, most: u32) -> (r: u32)
    requires
        v <= 0x2_0000_0000,
    ensures
        r == on_axis(v as int, image as int, window as int, most as int),
{
    if window > 0 {
        pixels(v, image, window, most)
    } else if v > 0 {
        most
    } else {
        0
    }
}

/// Whether cropping may return `r`: the whole picture without an area.
pub open spec fn crop_to_result(
    r: Result<Pixmap, Error>,
    base: PixmapView,
    view: Extent,
    selection: Option<Area>,
) -> bool {
    match selection {
        None => r is Ok && r->Ok_0@ == base,
        Some(a) => if view.w < 0 || view.h < 0 {
            r is Err && r->Err_0 == Error::RegionOutOfBounds(0, 0, 0, 0, base.width, base.height)
        } else {
            let (x, y, w, h) = pixel_region(a, view, base.width as int, base.height as int);
            crop_result(r, base, x as i32, y as i32, w as u32, h as u32)
        },
    }
}

/// Crop a picture that fills the window to an area of it.
pub fn crop_to(base: &Pixmap, view: Extent, selection: Option<Area>) -> (r: Result<Pixmap, Error>)
    requires
        base@.wf(),
        selection matches Some(a) ==> a.x <= 0x2_0000_0000 && a.y <= 0x2_0000_0000 && a.w
            <= 0x2_0000_0000 && a.h <= 0x2_0000_0000,
    ensures
        crop_to_result(r, base@, view, selection),
{
    match selection {
        None => Ok(base.duplicate()),
        Some(a) => {
            if view.w < 0 || view.h < 0 {
                return Err(Error::RegionOutOfBounds(0, 0, 0, 0, base.width, base.height));
            }
            let x: u32 = axis_pixels(a.x, base.width, view.w, 0x7fff_ffff);
            let y: u32 = axis_pixels(a.y, base.height, view.h, 0x7fff_ffff);
            let room_w: u32 = if x < base.width {
                base.width - x
            } else {
                0
            };
            let room_h: u32 = if y < base.height {
                base.height - y
            } else {
                0
            };
            let w: u32 = axis_pixels(a.w, base.width, view.w, room_w);
            let h: u32 = axis_pixels(a.h, base.height, view.h, room_h);
            let w: u32 = if w < 1 {
                1
            } else {
                w
            };
            let h: u32 = if h < 1 {
                1
            } else {
                h
            };
            proof {
                if view.w > 0 {
                    lemma_pixels(a.w as int, base.width as int, view.w as int);
                }
                if view.h > 0 {
                    lemma_pixels(a.h as int, base.height as int, view.h as int);
                }
            }
            crop(base, x as i32, y as i32, w, h)
        },
    }
}

/// An area inside of the window and left of its last half pixel crops to
/// something: what was selected can be captured.
pub proof fn law_selection_can_be_cropped(base: PixmapView, view: Extent, a: Area)
    requires
        base.wf(),
        0 < view.w,
        0 < view.h,
        0 <= a.x,
        0 <= a.y,
        in_pixels(a.x as int, base.width as int, view.w as int) < base.width,
        in_pixels(a.y as int, base.height as int, view.h as int) < base.height,
        a.x <= 0x2_0000_0000,
        a.y <= 0x2_0000_0000,
        a.w <= 0x2_0000_0000,
        a.h <= 0x2_0000_0000,
    ensures
        ({
            let (x, y, w, h) = pixel_region(a, view, base.width as int, base.height as int);
            base.has_region(x, y, w, h)
        }),
{
    lemma_pixels(a.x as int, base.width as int, view.w as int);
    lemma_pixels(a.y as int, base.height as int, view.h as int);
    lemma_pixels(a.w as int, base.width as int, view.w as int);
    lemma_pixels(a.h as int, base.height as int, view.h as int);
}

// ---- what is shown ----

/// The parts of the window around an area that are dimmed, and the place of
/// the size label.
#[derive(Clone, Copy, PartialEq, Eq, Structural, Debug)]
pub struct SelectionScene {
    pub above: Area,
    pub below: Area,
    pub left: Area,
    pub right: Area,
    pub border: Area,
    pub label_top: i64,
}

/// The scene around a selected area: four dimmed rectangles that leave it out,
/// and the label below it, or above it near the bottom.
pub open spec fn scene_of(a: Area, view: Extent) -> SelectionScene {
    let right = a.x + a.w;
    let bottom = a.y + a.h;
    SelectionScene {
        above: Area { x: 0, y: 0, w: view.w as i64, h: a.y },
        below: Area { x: 0, y: bottom as i64, w: view.w as i64, h: (view.h - bottom) as i64 },
        left: Area { x: 0, y: a.y, w: a.x, h: a.h },
        right: Area { x: right as i64, y: a.y, w: (view.w - right) as i64, h: a.h },
        border: a,
        label_top: (if bottom + 7680 < view.h {
            bottom + 1536
        } else {
            a.y - 7168
        }) as i64,
    }
}

/// The area lies within reach of the window's positions.
pub open spec fn small_area(a: Area) -> bool {
    &&& -0x1_0000_0000 <= a.x <= 0x1_0000_0000
    &&& -0x1_0000_0000 <= a.y <= 0x1_0000_0000
    &&& 0 <= a.w <= 0x1_0000_0000
    &&& 0 <= a.h <= 0x1_0000_0000
}

/// The scene around a selected area.
pub fn selection_scene(a: Area, view: Extent) -> (r: SelectionScene)
    requires
        small_area(a),
    ensures
        r == scene_of(a, view),
{
    let right: i64 = a.x + a.w;
    let bottom: i64 = a.y + a.h;
    SelectionScene {
        above: Area { x: 0, y: 0, w: view.w as i64, h: a.y },
        below: Area { x: 0, y: bottom, w: view.w as i64, h: view.h as i64 - bottom },
        left: Area { x: 0, y: a.y, w: a.x, h: a.h },
        right: Area { x: right, y: a.y, w: view.w as i64 - right, h: a.h },
        border: a,
        label_top: if bottom + 7680 < view.h as i64 {
            bottom + 1536
        } else {
            a.y - 7168
        },
    }
}

/// Whether a rectangle holds a point.
pub open spec fn holds(a: Area, x: int, y: int) -> bool {
    a.x <= x < a.x + a.w && a.y <= y < a.y + a.h
}

/// Every point of the window is dimmed exactly once, except in the selected
/// area, where none is.
pub proof fn law_scene_dims_the_rest(a: Area, view: Extent, x: int, y: int)
    requires
        small_area(a),
        0 <= a.x,
        0 <= a.y,
        a.x + a.w <= view.w,
        a.y + a.h <= view.h,
        0 <= x < view.w,
        0 <= y < view.h,
    ensures
        ({
            let s = scene_of(a, view);
            let n = |b: bool|
                if b {
                    1int
                } else {
                    0int
                };
            n(holds(s.above, x, y)) + n(holds(s.below, x, y)) + n(holds(s.left, x, y)) + n(
                holds(s.right, x, y),
            ) == n(!holds(a, x, y))
        }),
{
}

/// The text of the size label: the selected size in pixels of the picture.
pub open spec fn size_text(w: int, h: int, image: int, window: int) -> Seq<char> {
    text::decimal(min_of(in_pixels(w, image, window), u32::MAX as int) as nat) + " \u{d7} "@
        + text::decimal(min_of(in_pixels(h, image, window), u32::MAX as int) as nat)
}

/// The text of the size label.
pub fn size_label(a: Area, image_w: u32, window_w: i32) -> (r: String)
    requires
        a.w <= 0x2_0000_0000,
        a.h <= 0x2_0000_0000,
    ensures
        r@ == size_text(
            a.w as int,
            a.h as int,
            image_w as int,
            max_of(window_w as int, 256),
        ),
{
    let window: i32 = if window_w < 256 {
        256
    } else {
        window_w
    };
    proof {
        lemma_pixels(a.w as int, image_w as int, window as int);
        lemma_pixels(a.h as int, image_w as int, window as int);
    }
    let w: u32 = pixels(a.w, image_w, window, 0xffff_ffff);
    let h: u32 = pixels(a.h, image_w, window, 0xffff_ffff);
    let mut out = text::decimal_chars(w as u64);
    let times = text::to_chars(" \u{d7} ");
    text::append_chars(&mut out, times.as_slice());
    let d = text::decimal_chars(h as u64);
    text::append_chars(&mut out, d.as_slice());
    text::from_chars(out.as_slice())
}

/// The size of the card's picture: at most 300 by 180 pixels and no larger
/// than the capture, at least 60 by 40.
pub open spec fn card_dims(iw: int, ih: int) -> (int, int) {
    let s = if 300 * ih <= 180 * iw {
        (300int, iw)
    } else {
        (180int, ih)
    };
    let (num, den) = if s.0 > s.1 {
        (1int, 1int)
    } else {
        s
    };
    (max_of(iw * 256 * num / den, 15360), max_of(ih * 256 * num / den, 10240))
}

/// The size of the card's picture, in 1/256 pixels.
pub fn card_size(iw: u32, ih: u32) -> (r: (i64, i64))
    requires
        iw > 0,
        ih > 0,
    ensures
        (r.0 as int, r.1 as int) == card_dims(iw as int, ih as int),
{
    let (num, den): (i64, i64) = if 300 * ih as i64 <= 180 * iw as i64 {
        (300, iw as i64)
    } else {
        (180, ih as i64)
    };
    let (num, den): (i64, i64) = if num > den {
        (1, 1)
    } else {
        (num, den)
    };
    proof {
        assert(0 <= iw * 256 * num <= 0xffff_ffff * 256 * 300 && 0 <= ih * 256 * num <= 0xffff_ffff
            * 256 * 300) by (nonlinear_arith)
            requires
                0 < iw <= 0xffff_ffff,
                0 < ih <= 0xffff_ffff,
                1 <= num <= 300,
        ;
        let (a, b) = (iw * 256 * num, ih * 256 * num);
        assert(0 <= a / den as int <= a && 0 <= b / den as int <= b) by (nonlinear_arith)
            requires
                0 <= a,
                0 <= b,
                den > 0,
        ;
    }
    let tw: i64 = (iw as i64 * 256 * num) / den;
    let th: i64 = (ih as i64 * 256 * num) / den;
    (
        if tw < 15360 {
            15360
        } else {
            tw
        },
        if th < 10240 {
            10240
        } else {
            th
        },
    )
}

/// A selection reaches from the one corner to the other on both axes. There is
/// none where they are less than three pixels apart on some axis.
pub proof fn law_selection_spans_the_drag(a: Pos, b: Pos)
    ensures
        area_between(a, b) is Some == ((a.x - b.x >= 768 || b.x - a.x >= 768) && (a.y - b.y >= 768
            || b.y - a.y >= 768)),
        area_between(a, b) matches Some(s) ==> {
            &&& s.x <= a.x && s.x <= b.x && (s.x == a.x || s.x == b.x)
            &&& s.y <= a.y && s.y <= b.y && (s.y == a.y || s.y == b.y)
            &&& s.x + s.w >= a.x && s.x + s.w >= b.x && (s.x + s.w == a.x || s.x + s.w == b.x)
            &&& s.y + s.h >= a.y && s.y + s.h >= b.y && (s.y + s.h == a.y || s.y + s.h == b.y)
        },
{
}

/// Pressing at one point and letting go at another selects what lies between
/// the two, wherever the pointer was meanwhile.
pub proof fn law_drag_selects_between_its_ends(o: Overlay, p: Pos, m: Pos, q: Pos)
    requires
        o.phase != Phase::Preview,
    ensures
        o.pressed(p).moved(m).selected() == area_between(p, m),
        o.pressed(p).moved(m).released(q).selected() == area_between(p, q),
        o.pressed(p).moved(m).released(q).captured().selected() == area_between(p, q)
            || area_between(p, q) is None,
        o.pressed(p).moved(m).release_action(q) == (match area_between(p, q) {
            Some(a) => OverlayAction::Capture(Some(a)),
            None => OverlayAction::Repaint,
        }),
        o.phase != Phase::Dragging ==> o.release_action(q) == OverlayAction::Nothing,
        o.pressed(p).moved(m).phase == Phase::Dragging,
        o.captured().phase == Phase::Preview,
{
}

/// A length of the window is the nearest number of pixels that it covers of the
/// picture, up to so many digits of it; where the picture is shown as large as
/// it is, it only is rounded.
pub proof fn law_lengths_become_pixels(v: int, image: int, window: int)
    requires
        0 <= v < 0x100_0000,
        0 < image < 0x100_0000,
        0 < window < 0x100_0000,
        image < 0x8000 * window,
    ensures
        -(0x80_0000 * window + 3 * (v * image)) <= 0x100_0000 * (in_pixels(v, image, window) * window
            - v * image) <= 0x80_0000 * window + 3 * (v * image),
        image * 256 == window ==> 2 * v - 256 < 512 * in_pixels(v, image, window) <= 2 * v + 256,
{
    law_scaled_is_close(v, image, window, 256, SINGLE as int);
    if image * 256 == window {
        law_scaled_one_to_one(v, image, window, 256, SINGLE as int);
    }
}

/// The pixels of a selection begin where it begins and are as many as it
/// covers, on each axis by the picture's size there, and end with the picture.
pub proof fn law_selected_pixels_are_those_covered(a: Area, view: Extent, iw: int, ih: int)
    requires
        0 < iw <= u32::MAX,
        0 < ih <= u32::MAX,
        0 < view.w,
        0 < view.h,
        0 <= a.x,
        0 <= a.y,
        0 <= a.w,
        0 <= a.h,
        in_pixels(a.x as int, iw, view.w as int) < iw,
        in_pixels(a.y as int, ih, view.h as int) < ih,
        iw <= i32::MAX,
        ih <= i32::MAX,
    ensures
        ({
            let (x, y, w, h) = pixel_region(a, view, iw, ih);
            &&& x == in_pixels(a.x as int, iw, view.w as int)
            &&& y == in_pixels(a.y as int, ih, view.h as int)
            &&& 1 <= w && x + w <= iw
            &&& 1 <= h && y + h <= ih
            &&& w < iw - x && w > 1 ==> w == in_pixels(a.w as int, iw, view.w as int)
            &&& h < ih - y && h > 1 ==> h == in_pixels(a.h as int, ih, view.h as int)
            &&& w == 1 ==> in_pixels(a.w as int, iw, view.w as int) <= 1 || x + 1 == iw
            &&& h == 1 ==> in_pixels(a.h as int, ih, view.h as int) <= 1 || y + 1 == ih
            &&& x + w == iw ==> x + in_pixels(a.w as int, iw, view.w as int) >= iw || w == 1
            &&& y + h == ih ==> y + in_pixels(a.h as int, ih, view.h as int) >= ih || h == 1
        }),
{
    lemma_scaled_by(a.x as int, iw, view.w as int, 256, SINGLE as int);
    lemma_scaled_by(a.y as int, ih, view.h as int, 256, SINGLE as int);
    lemma_scaled_by(a.w as int, iw, view.w as int, 256, SINGLE as int);
    lemma_scaled_by(a.h as int, ih, view.h as int, 256, SINGLE as int);
}

/// A picture is shown on its card as large as fits 300 by 180 pixels, never
/// larger than it is, and in its proportions where it is not too narrow.
pub proof fn law_card_keeps_proportions(iw: int, ih: int)
    requires
        iw > 0,
        ih > 0,
    ensures
        ({
            let (w, h) = card_dims(iw, ih);
            &&& 15360 <= w <= 76800
            &&& 10240 <= h <= 46080
            &&& iw <= 300 && ih <= 180 ==> w == max_of(iw * 256, 15360) && h == max_of(
                ih * 256,
                10240,
            )
            &&& (iw > 300 || ih > 180) && 300 * ih <= 180 * iw ==> w == 76800 && (h > 10240 ==> h
                * iw <= 76800 * ih < (h + 1) * iw)
            &&& (iw > 300 || ih > 180) && 300 * ih > 180 * iw ==> h == 46080 && (w > 15360 ==> w
                * ih <= 46080 * iw < (w + 1) * ih)
        }),
{
    assert(iw * 256 * 1 / 1 == iw * 256 && ih * 256 * 1 / 1 == ih * 256) by (nonlinear_arith);
    if 300 * ih <= 180 * iw {
        let b = ih * 256 * 300;
        let q = b / iw;
        assert(q * iw <= b < (q + 1) * iw) by (nonlinear_arith)
            requires
                q == b / iw,
                iw > 0,
        ;
        assert(q <= 46080) by (nonlinear_arith)
            requires
                q * iw <= b,
                b == ih * 256 * 300,
                300 * ih <= 180 * iw,
                iw > 0,
        ;
        assert(iw * 256 * 300 / iw == 76800) by (nonlinear_arith)
            requires
                iw > 0,
        ;
        assert(b == 76800 * ih);
        if iw == 300 {
            assert(ih * 256 * 300 / 300 == ih * 256);
        }
    } else {
        let b = iw * 256 * 180;
        let q = b / ih;
        assert(q * ih <= b < (q + 1) * ih) by (nonlinear_arith)
            requires
                q == b / ih,
                ih > 0,
        ;
        assert(q <= 76800) by (nonlinear_arith)
            requires
                q * ih <= b,
                b == iw * 256 * 180,
                300 * ih > 180 * iw,
                ih > 0,
        ;
        assert(ih * 256 * 180 / ih == 46080) by (nonlinear_arith)
            requires
                ih > 0,
        ;
        assert(b == 46080 * iw);
        if ih == 180 {
            assert(iw * 256 * 180 / 180 == iw * 256);
        }
    }
}

/// A card closes by itself with its own timer, unless the pointer is over it.
pub proof fn law_card_closes_by_itself(o: Overlay)
    requires
        o.dismiss_gen < u64::MAX,
    ensures
        o.captured().times_out(o.captured().dismiss_gen),
        !o.captured().times_out(o.dismiss_gen),
        !(Overlay { hovered: true, ..o.captured() }).times_out(o.captured().dismiss_gen),
        o.phase != Phase::Preview ==> !o.times_out(o.dismiss_gen),
{
}

} // verus!
