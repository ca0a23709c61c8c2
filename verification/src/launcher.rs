//! The pill toolbar: what is captured and how, the crop session over a still
//! of the screen, and the check of the microphone before a recording.
use vstd::prelude::*;
use crate::error::owned;
use crate::geometry::{Extent, Pos};
use crate::math::{fixed_chars, fixed_text, max_of, min_of};
use crate::micmon::FLOOR_DB;
use crate::overlay::{area_between, in_pixels, lemma_pixels, pixels, Area, MIN_SELECTION};
use crate::record::{
    pair_views, preset_height, preset_label, resolution, RecordOptions, RESOLUTION_COUNT,
};
use crate::text;

verus! {

#[derive(Clone, Copy, PartialEq, Eq, Structural, Debug)]
pub enum Mode {
    Screenshot,
    Record,
}

#[derive(Clone, Copy, PartialEq, Eq, Structural, Debug)]
pub enum Scope {
    Full,
    Crop,
}

/// The pill's selections, carried from one window to the next.
#[derive(Clone, Copy, PartialEq, Eq, Debug)]
pub struct LauncherState {
    pub mode: Mode,
    pub scope: Scope,
    /// The resolution; one past the presets is the screen's own.
    pub res_ix: usize,
    pub mic_ix: usize,
    pub system_audio: bool,
    /// The framed region, where a crop session is opened again over a fresh
    /// still.
    pub sel: Option<(Pos, Pos)>,
}

impl Default for LauncherState {
    fn default() -> (r: LauncherState)
        ensures
            r == (LauncherState {
                mode: Mode::Screenshot,
                scope: Scope::Full,
                res_ix: RESOLUTION_COUNT,
                mic_ix: 0,
                system_audio: false,
                sel: None,
            }),
    {
        LauncherState {
            mode: Mode::Screenshot,
            scope: Scope::Full,
            res_ix: RESOLUTION_COUNT,
            mic_ix: 0,
            system_audio: false,
            sel: None,
        }
    }
}

/// What the pointer is over, and so what a press there would start.
#[derive(Clone, Copy, PartialEq, Eq, Structural, Debug)]
pub enum Grab {
    New,
    Move,
    Resize { left: bool, right: bool, top: bool, bottom: bool },
}

/// What a drag is doing.
#[derive(Clone, Copy, PartialEq, Eq, Structural, Debug)]
pub enum Drag {
    Idle,
    /// Drawing a fresh region, from its anchor.
    New,
    /// Moving the region: where it was grabbed, and the corners it had then.
    Move { grab: Pos, a: Pos, b: Pos },
    /// Moving an edge or a corner: the first corner stays, the other one
    /// follows the pointer on the free axes.
    Resize { free_x: bool, free_y: bool },
}

#[derive(Clone, Copy, PartialEq, Eq, Structural, Debug)]
pub enum Cursor {
    Crosshair,
    OpenHand,
    ClosedHand,
    UpLeftDownRight,
    UpRightDownLeft,
    LeftRight,
    UpDown,
}

/// How the launcher stands.
#[derive(Clone, Copy, PartialEq, Eq, Debug)]
pub struct Launcher {
    pub mode: Mode,
    pub scope: Scope,
    pub res_ix: usize,
    /// How many microphones can be chosen; the first choice is none of them.
    pub mic_count: usize,
    pub mic_ix: usize,
    pub mic_open: bool,
    pub system_audio: bool,
    /// The size of the still in a crop session.
    pub frame: Option<(u32, u32)>,
    pub sel_start: Option<Pos>,
    pub sel_end: Option<Pos>,
    pub drag: Drag,
    /// Where the pointer was last.
    pub hover: Option<Pos>,
    /// Whether the check of the microphone runs.
    pub mic_test: bool,
    pub mic_hear: bool,
    pub mic_dsp_on: bool,
    /// The latest mean and peak level, in billionths of a decibel.
    pub mic_level: (i64, i64),
    /// Counts the checks, so that an old one no longer reports.
    pub mic_test_gen: u64,
}

/// What is to be done after an event. All but the first three close the
/// window.
#[derive(Clone, Copy, PartialEq, Eq, Debug)]
pub enum LauncherAction {
    Nothing,
    Repaint,
    /// Start the check of the chosen microphone.
    StartMicTest { mic_ix: usize, dsp: bool, hear: bool },
    /// Take a still of the screen and open a crop session over it.
    Freeze(LauncherState),
    /// Open the plain pill.
    OpenPill(LauncherState),
    /// Cut the region out of the still and show its card.
    PreviewRegion((u32, u32, u32, u32)),
    /// Capture the screen and show its card.
    PreviewFull,
    Record {
        crop: Option<(u32, u32, u32, u32)>,
        height: Option<u32>,
        mic_ix: usize,
        system_audio: bool,
    },
    Quit,
}

/// How near to an edge of the region counts as grabbing it: nine pixels.
pub const GRIP: i64 = 2304;

pub open spec fn near(a: int, b: int) -> bool {
    -GRIP <= a - b <= GRIP
}

/// What a press at `p` grabs of a region. Edges come before the inside, so
/// that a thin region can still be resized.
pub open spec fn grabbed(region: Option<Area>, p: Pos) -> Grab {
    match region {
        None => Grab::New,
        Some(s) => {
            let (x1, y1) = (s.x + s.w, s.y + s.h);
            if p.x < s.x - GRIP || p.x > x1 + GRIP || p.y < s.y - GRIP || p.y > y1 + GRIP {
                Grab::New
            } else {
                let (l, r) = (near(p.x as int, s.x as int), near(p.x as int, x1));
                let (t, b) = (near(p.y as int, s.y as int), near(p.y as int, y1));
                if l || r || t || b {
                    Grab::Resize { left: l && !r, right: r, top: t && !b, bottom: b }
                } else {
                    Grab::Move
                }
            }
        },
    }
}

/// The cursor that tells what can be grabbed.
pub open spec fn grab_cursor(g: Grab) -> Cursor {
    match g {
        Grab::New => Cursor::Crosshair,
        Grab::Move => Cursor::OpenHand,
        Grab::Resize { left, right, top, bottom } => if (left || right) && (top || bottom) {
            if left == top {
                Cursor::UpLeftDownRight
            } else {
                Cursor::UpRightDownLeft
            }
        } else if left || right {
            Cursor::LeftRight
        } else if top || bottom {
            Cursor::UpDown
        } else {
            Cursor::Crosshair
        },
    }
}

/// The corner that stays and the corner that moves, along one axis, where the
/// low edge, the high edge or none of them was grabbed.
pub open spec fn pinned(lo: int, hi: int, low: bool) -> (int, int) {
    if low {
        (hi, lo)
    } else {
        (lo, hi)
    }
}

/// How far a stretch from `a` to `b` moves for a wish of `d`: not out of
/// `0..size`, but at the low end where it does not fit.
pub open spec fn shift(a: int, b: int, d: int, size: int) -> int {
    let lo = -min_of(a, b);
    let hi = max_of(size - max_of(a, b), lo);
    min_of(max_of(d, lo), hi)
}

/// A coordinate, within the range of positions.
pub open spec fn coordinate(v: int) -> i32 {
    min_of(v, i32::MAX as int) as i32
}

/// The region `(a, b)`, moved by `d` as far as the window allows.
pub open spec fn moved_corners(a: Pos, b: Pos, dx: int, dy: int, view: Extent) -> (Pos, Pos) {
    let x = shift(a.x as int, b.x as int, dx, view.w as int);
    let y = shift(a.y as int, b.y as int, dy, view.h as int);
    (
        Pos { x: coordinate(a.x + x), y: coordinate(a.y + y) },
        Pos { x: coordinate(b.x + x), y: coordinate(b.y + y) },
    )
}

/// The region of the still that an area of the window covers: inside of the
/// still, and at least one pixel.
pub open spec fn still_region(s: Area, view: Extent, fw: int, fh: int) -> (int, int, int, int) {
    let (vw, vh) = (max_of(view.w as int, 256), max_of(view.h as int, 256));
    let x = min_of(in_pixels(s.x as int, fw, vw), fw - 1);
    let y = min_of(in_pixels(s.y as int, fh, vh), fh - 1);
    let w = min_of(max_of(in_pixels(s.w as int, fw, vw), 1), fw - x);
    let h = min_of(max_of(in_pixels(s.h as int, fh, vh), 1), fh - y);
    (x, y, w, h)
}

impl Launcher {
    /// A microphone that exists is chosen, and a still has pixels.
    pub open spec fn wf(self) -> bool {
        &&& self.mic_ix < self.mic_count
        &&& self.frame matches Some((w, h)) ==> w > 0 && h > 0
    }

    /// Whether the window shows a still to frame a region in.
    pub open spec fn session(self) -> bool {
        self.frame is Some
    }

    /// The framed region, if it is large enough.
    pub open spec fn region(self) -> Option<Area> {
        match (self.sel_start, self.sel_end) {
            (Some(a), Some(b)) => area_between(a, b),
            _ => None,
        }
    }

    /// The framed region in pixels of the still.
    pub open spec fn region_pixels(self, view: Extent) -> Option<(u32, u32, u32, u32)> {
        match (self.region(), self.frame) {
            (Some(s), Some((fw, fh))) => {
                let (x, y, w, h) = still_region(s, view, fw as int, fh as int);
                Some((x as u32, y as u32, w as u32, h as u32))
            },
            _ => None,
        }
    }

    /// The framed region, at least three pixels each way.
    pub fn sel_rect(&self) -> (r: Option<Area>)
        ensures
            r == self.region(),
            r matches Some(s) ==> small(s),
    {
        match (self.sel_start, self.sel_end) {
            (Some(a), Some(b)) => {
                let (ax, ay, bx, by) = (a.x as i64, a.y as i64, b.x as i64, b.y as i64);
                let (x0, x1): (i64, i64) = if ax < bx {
                    (ax, bx)
                } else {
                    (bx, ax)
                };
                let (y0, y1): (i64, i64) = if ay < by {
                    (ay, by)
                } else {
                    (by, ay)
                };
                if x1 - x0 < MIN_SELECTION || y1 - y0 < MIN_SELECTION {
                    None
                } else {
                    Some(Area { x: x0, y: y0, w: x1 - x0, h: y1 - y0 })
                }
            },
            _ => None,
        }
    }

    /// The framed region in pixels of the still: what is cut out of it, or
    /// recorded of the screen.
    pub fn sel_to_pixels(&self, view: Extent) -> (r: Option<(u32, u32, u32, u32)>)
        requires
            self.wf(),
        ensures
            r == self.region_pixels(view),
    {
        let s = match self.sel_rect() {
            Some(s) => s,
            None => {
                return None;
            },
        };
        let (fw, fh): (u32, u32) = match self.frame {
            Some(size) => size,
            None => {
                return None;
            },
        };
        let vw: i32 = if view.w < 256 {
            256
        } else {
            view.w
        };
        let vh: i32 = if view.h < 256 {
            256
        } else {
            view.h
        };
        let x: u32 = pixels(s.x, fw, vw, fw - 1);
        let y: u32 = pixels(s.y, fh, vh, fh - 1);
        let w: u32 = pixels(s.w, fw, vw, fw - x);
        let h: u32 = pixels(s.h, fh, vh, fh - y);
        proof {
            lemma_pixels(s.x as int, fw as int, vw as int);
            lemma_pixels(s.y as int, fh as int, vh as int);
            lemma_pixels(s.w as int, fw as int, vw as int);
            lemma_pixels(s.h as int, fh as int, vh as int);
        }
        let w: u32 = if w < 1 {
            1
        } else {
            w
        };
        let h: u32 = if h < 1 {
            1
        } else {
            h
        };
        Some((x, y, w, h))
    }

    pub open spec fn dragging(self) -> bool {
        self.drag != Drag::Idle
    }

    pub fn is_dragging(&self) -> (r: bool)
        ensures
            r == self.dragging(),
    {
        match self.drag {
            Drag::Idle => false,
            _ => true,
        }
    }

    /// What a press at `p` would grab.
    pub fn grab_at(&self, p: Pos) -> (r: Grab)
        ensures
            r == grabbed(self.region(), p),
    {
        let s = match self.sel_rect() {
            Some(s) => s,
            None => {
                return Grab::New;
            },
        };
        let (x, y): (i64, i64) = (p.x as i64, p.y as i64);
        let (x1, y1): (i64, i64) = (s.x + s.w, s.y + s.h);
        if x < s.x - GRIP || x > x1 + GRIP || y < s.y - GRIP || y > y1 + GRIP {
            return Grab::New;
        }
        let l = -GRIP <= x - s.x && x - s.x <= GRIP;
        let r = -GRIP <= x - x1 && x - x1 <= GRIP;
        let t = -GRIP <= y - s.y && y - s.y <= GRIP;
        let b = -GRIP <= y - y1 && y - y1 <= GRIP;
        if l || r || t || b {
            Grab::Resize { left: l && !r, right: r, top: t && !b, bottom: b }
        } else {
            Grab::Move
        }
    }

    /// The cursor of the drag, or of what is under the pointer.
    pub open spec fn cursor(self) -> Cursor {
        match self.drag {
            Drag::Move { .. } => Cursor::ClosedHand,
            Drag::New => Cursor::Crosshair,
            Drag::Resize { .. } => Cursor::Crosshair,
            Drag::Idle => match self.hover {
                Some(p) => grab_cursor(grabbed(self.region(), p)),
                None => Cursor::Crosshair,
            },
        }
    }

    pub fn crop_cursor(&self) -> (r: Cursor)
        ensures
            r == self.cursor(),
    {
        match self.drag {
            Drag::Move { .. } => Cursor::ClosedHand,
            Drag::New => Cursor::Crosshair,
            Drag::Resize { .. } => Cursor::Crosshair,
            Drag::Idle => match self.hover {
                Some(p) => match self.grab_at(p) {
                    Grab::New => Cursor::Crosshair,
                    Grab::Move => Cursor::OpenHand,
                    Grab::Resize { left, right, top, bottom } => {
                        if (left || right) && (top || bottom) {
                            if left == top {
                                Cursor::UpLeftDownRight
                            } else {
                                Cursor::UpRightDownLeft
                            }
                        } else if left || right {
                            Cursor::LeftRight
                        } else if top || bottom {
                            Cursor::UpDown
                        } else {
                            Cursor::Crosshair
                        }
                    },
                },
                None => Cursor::Crosshair,
            },
        }
    }

    /// After a press at `p`.
    pub open spec fn drag_started(self, p: Pos) -> Launcher {
        match grabbed(self.region(), p) {
            Grab::New => Launcher {
                sel_start: Some(p),
                sel_end: Some(p),
                drag: Drag::New,
                ..self
            },
            Grab::Move => Launcher {
                drag: Drag::Move { grab: p, a: self.sel_start->0, b: self.sel_end->0 },
                ..self
            },
            Grab::Resize { left, right, top, bottom } => {
                let s = self.region()->0;
                let (fx, mx) = pinned(s.x as int, s.x + s.w, left);
                let (fy, my) = pinned(s.y as int, s.y + s.h, top);
                Launcher {
                    sel_start: Some(Pos { x: fx as i32, y: fy as i32 }),
                    sel_end: Some(Pos { x: mx as i32, y: my as i32 }),
                    drag: Drag::Resize { free_x: left || right, free_y: top || bottom },
                    ..self
                }
            },
        }
    }

    pub fn drag_start(&mut self, p: Pos)
        ensures
            *final(self) == old(self).drag_started(p),
    {
        match self.grab_at(p) {
            Grab::New => {
                self.sel_start = Some(p);
                self.sel_end = Some(p);
                self.drag = Drag::New;
            },
            Grab::Move => {
                if let Some(a) = self.sel_start {
                    if let Some(b) = self.sel_end {
                        self.drag = Drag::Move { grab: p, a, b };
                    }
                }
            },
            Grab::Resize { left, right, top, bottom } => {
                if let Some(s) = self.sel_rect() {
                    let (x0, x1): (i32, i32) = (s.x as i32, (s.x + s.w) as i32);
                    let (y0, y1): (i32, i32) = (s.y as i32, (s.y + s.h) as i32);
                    let (fx, mx): (i32, i32) = if left {
                        (x1, x0)
                    } else {
                        (x0, x1)
                    };
                    let (fy, my): (i32, i32) = if top {
                        (y1, y0)
                    } else {
                        (y0, y1)
                    };
                    self.sel_start = Some(Pos { x: fx, y: fy });
                    self.sel_end = Some(Pos { x: mx, y: my });
                    self.drag = Drag::Resize { free_x: left || right, free_y: top || bottom };
                }
            },
        }
    }

    /// After the pointer was dragged to `p`.
    pub open spec fn dragged(self, p: Pos, view: Extent) -> Launcher {
        match self.drag {
            Drag::Idle => self,
            Drag::New => Launcher { sel_end: Some(p), ..self },
            Drag::Resize { free_x, free_y } => match self.sel_end {
                Some(e) => Launcher {
                    sel_end: Some(
                        Pos {
                            x: if free_x {
                                p.x
                            } else {
                                e.x
                            },
                            y: if free_y {
                                p.y
                            } else {
                                e.y
                            },
                        },
                    ),
                    ..self
                },
                None => self,
            },
            Drag::Move { grab, a, b } => {
                let (c, d) = moved_corners(a, b, p.x - grab.x, p.y - grab.y, view);
                Launcher { sel_start: Some(c), sel_end: Some(d), ..self }
            },
        }
    }

    pub fn drag_to(&mut self, p: Pos, view: Extent)
        ensures
            *final(self) == old(self).dragged(p, view),
    {
        match self.drag {
            Drag::Idle => {},
            Drag::New => {
                self.sel_end = Some(p);
            },
            Drag::Resize { free_x, free_y } => {
                if let Some(e) = self.sel_end {
                    let x: i32 = if free_x {
                        p.x
                    } else {
                        e.x
                    };
                    let y: i32 = if free_y {
                        p.y
                    } else {
                        e.y
                    };
                    self.sel_end = Some(Pos { x, y });
                }
            },
            Drag::Move { grab, a, b } => {
                let dx: i64 = allowed_shift(a.x, b.x, p.x as i64 - grab.x as i64, view.w);
                let dy: i64 = allowed_shift(a.y, b.y, p.y as i64 - grab.y as i64, view.h);
                self.sel_start = Some(
                    Pos { x: capped(a.x as i64 + dx), y: capped(a.y as i64 + dy) },
                );
                self.sel_end = Some(
                    Pos { x: capped(b.x as i64 + dx), y: capped(b.y as i64 + dy) },
                );
            },
        }
    }
}

/// The area is one between two positions.
pub open spec fn small(s: Area) -> bool {
    &&& i32::MIN <= s.x <= i32::MAX
    &&& i32::MIN <= s.y <= i32::MAX
    &&& s.x + s.w <= i32::MAX
    &&& s.y + s.h <= i32::MAX
    &&& MIN_SELECTION <= s.w <= u32::MAX
    &&& MIN_SELECTION <= s.h <= u32::MAX
}

fn allowed_shift(a: i32, b: i32, d: i64, size: i32) -> (r: i64)
    requires
        -0x1_0000_0000 <= d <= 0x1_0000_0000,
    ensures
        r == shift(a as int, b as int, d as int, size as int),
        0 <= a + r <= 0x2_0000_0000,
        0 <= b + r <= 0x2_0000_0000,
{
    let (low, high): (i64, i64) = if a < b {
        (a as i64, b as i64)
    } else {
        (b as i64, a as i64)
    };
    let lo: i64 = 0 - low;
    let room: i64 = size as i64 - high;
    let hi: i64 = if room < lo {
        lo
    } else {
        room
    };
    let d: i64 = if d < lo {
        lo
    } else {
        d
    };
    if d > hi {
        hi
    } else {
        d
    }
}

fn capped(v: i64) -> (r: i32)
    requires
        0 <= v,
    ensures
        r == coordinate(v as int),
{
    if v > 0x7fff_ffff {
        0x7fff_ffff
    } else {
        v as i32
    }
}

// ---- the laws of framing ----

/// Where an edge of the region is pressed, the region is resized, however thin
/// it is; further inside it is moved, and elsewhere a new one is drawn.
pub proof fn law_edges_come_first(s: Area, p: Pos)
    requires
        small(s),
    ensures
        s.x <= p.x <= s.x + s.w && (p.y == s.y || p.y == s.y + s.h) ==> grabbed(
            Some(s),
            p,
        ) is Resize,
        s.y <= p.y <= s.y + s.h && (p.x == s.x || p.x == s.x + s.w) ==> grabbed(
            Some(s),
            p,
        ) is Resize,
        grabbed(Some(s), p) == Grab::Move <==> s.x + GRIP < p.x < s.x + s.w - GRIP && s.y + GRIP
            < p.y < s.y + s.h - GRIP,
        grabbed(None, p) == Grab::New,
{
}

/// A press on the region does not change it; only the drag does.
pub proof fn law_press_keeps_region(l: Launcher, p: Pos)
    requires
        grabbed(l.region(), p) != Grab::New,
    ensures
        l.drag_started(p).region() == l.region(),
{
}

/// A region that fits into the window keeps its size while it is moved, and
/// stays in the window.
pub proof fn law_moving_keeps_size(a: Pos, b: Pos, dx: int, dy: int, view: Extent)
    requires
        max_of(a.x as int, b.x as int) - min_of(a.x as int, b.x as int) <= view.w,
        max_of(a.y as int, b.y as int) - min_of(a.y as int, b.y as int) <= view.h,
    ensures
        ({
            let (c, d) = moved_corners(a, b, dx, dy, view);
            &&& d.x - c.x == b.x - a.x
            &&& d.y - c.y == b.y - a.y
            &&& 0 <= c.x <= view.w && 0 <= d.x <= view.w
            &&& 0 <= c.y <= view.h && 0 <= d.y <= view.h
        }),
{
}

/// A region inside of the window that is dragged anywhere and back again is
/// where it was.
pub proof fn law_moving_back_restores(
    l: Launcher,
    grab: Pos,
    a: Pos,
    b: Pos,
    p: Pos,
    view: Extent,
)
    requires
        l.drag == (Drag::Move { grab, a, b }),
        0 <= a.x <= view.w,
        0 <= b.x <= view.w,
        0 <= a.y <= view.h,
        0 <= b.y <= view.h,
    ensures
        l.dragged(p, view).dragged(grab, view).corners() == Some((a, b)),
{
}

/// What is framed is a region of the still, of at least one pixel.
pub proof fn law_framed_region_fits(l: Launcher, view: Extent)
    requires
        l.wf(),
    ensures
        l.region_pixels(view) is Some <==> l.region() is Some && l.session(),
        l.region_pixels(view) matches Some((x, y, w, h)) ==> 1 <= w && 1 <= h && x + w
            <= (l.frame->0).0 && y + h <= (l.frame->0).1,
{
    if let (Some(s), Some((fw, fh))) = (l.region(), l.frame) {
        let (vw, vh) = (max_of(view.w as int, 256), max_of(view.h as int, 256));
        lemma_pixels(s.x as int, fw as int, vw);
        lemma_pixels(s.y as int, fh as int, vh);
        lemma_pixels(s.w as int, fw as int, vw);
        lemma_pixels(s.h as int, fh as int, vh);
    }
}

// ---- windows ----

/// How a scripted run begins.
#[derive(Clone, Copy, PartialEq, Eq, Structural, Debug)]
pub enum Opening {
    /// With a recording of the full screen, 1080 pixels high.
    Recording,
    /// With a crop session.
    Session,
    /// With the plain pill.
    Pill,
}

pub open spec fn session_script(script: Seq<char>) -> bool {
    script == "crop-session"@ || script == "crop-fire"@ || script == "crop-refresh"@
}

/// How the program begins, for the script that it was given, if any.
pub fn opening(script: &str) -> (r: Opening)
    ensures
        r == (if script@ == "record-start"@ {
            Opening::Recording
        } else if session_script(script@) || script@ == "crop-empty"@ {
            Opening::Session
        } else {
            Opening::Pill
        }),
{
    if text::same_text(script, "record-start") {
        Opening::Recording
    } else if text::same_text(script, "crop-session") || text::same_text(script, "crop-fire")
        || text::same_text(script, "crop-refresh") || text::same_text(script, "crop-empty") {
        Opening::Session
    } else {
        Opening::Pill
    }
}

/// What a scripted run does once its window has been open for a second.
#[derive(Clone, Copy, PartialEq, Eq, Structural, Debug)]
pub enum Scripted {
    Nothing,
    Fire,
    Refresh,
}

/// What a scripted run does by itself. The still is taken again only once: the
/// session that is then opened brings a region with it.
pub fn scripted(script: &str, carried: bool) -> (r: Scripted)
    ensures
        r == (if script@ == "auto-full"@ || script@ == "crop-fire"@ {
            Scripted::Fire
        } else if script@ == "crop-refresh"@ && !carried {
            Scripted::Refresh
        } else {
            Scripted::Nothing
        }),
{
    if text::same_text(script, "auto-full") || text::same_text(script, "crop-fire") {
        Scripted::Fire
    } else if text::same_text(script, "crop-refresh") && !carried {
        Scripted::Refresh
    } else {
        Scripted::Nothing
    }
}

/// The region of a scripted session.
pub open spec fn script_region() -> (Pos, Pos) {
    (Pos { x: 81_920, y: 56_320 }, Pos { x: 302_080, y: 194_560 })
}

impl Launcher {
    /// The region that a new window begins with: only a session has one.
    pub open spec fn first_region(
        state: LauncherState,
        frame: Option<(u32, u32)>,
        script: Seq<char>,
    ) -> Option<(Pos, Pos)> {
        if frame is None {
            None
        } else if session_script(script) {
            Some(script_region())
        } else {
            state.sel
        }
    }

    pub open spec fn opened(
        state: LauncherState,
        frame: Option<(u32, u32)>,
        mic_count: usize,
        script: Seq<char>,
    ) -> Launcher {
        let sel = Launcher::first_region(state, frame, script);
        let mic_open = script == "record-mics"@;
        Launcher {
            mode: if text::starts_with(script, "record"@) {
                Mode::Record
            } else {
                state.mode
            },
            scope: state.scope,
            res_ix: state.res_ix,
            mic_count,
            mic_ix: (if mic_open {
                mic_count - 2
            } else {
                min_of(state.mic_ix as int, mic_count - 1)
            }) as usize,
            mic_open,
            system_audio: state.system_audio,
            frame,
            sel_start: match sel {
                Some((a, _)) => Some(a),
                None => None,
            },
            sel_end: match sel {
                Some((_, b)) => Some(b),
                None => None,
            },
            drag: Drag::Idle,
            hover: None,
            mic_test: false,
            mic_hear: false,
            mic_dsp_on: true,
            mic_level: (FLOOR_DB, FLOOR_DB),
            mic_test_gen: 0,
        }
    }

    /// A new window, over a still in a crop session.
    pub fn new(
        state: LauncherState,
        frame: Option<(u32, u32)>,
        mic_count: usize,
        script: &str,
    ) -> (r: Launcher)
        requires
            mic_count >= 2,
            frame matches Some((w, h)) ==> w > 0 && h > 0,
        ensures
            r == Launcher::opened(state, frame, mic_count, script@),
            r.wf(),
    {
        let chars = text::to_chars(script);
        let record = text::to_chars("record");
        let mode = if text::has_prefix(chars.as_slice(), record.as_slice()) {
            Mode::Record
        } else {
            state.mode
        };
        let preset = text::same_text(script, "crop-session") || text::same_text(script, "crop-fire")
            || text::same_text(script, "crop-refresh");
        let sel: Option<(Pos, Pos)> = if frame.is_none() {
            None
        } else if preset {
            Some((Pos { x: 81_920, y: 56_320 }, Pos { x: 302_080, y: 194_560 }))
        } else {
            state.sel
        };
        let mic_open = text::same_text(script, "record-mics");
        let mic_ix: usize = if mic_open {
            mic_count - 2
        } else if state.mic_ix < mic_count - 1 {
            state.mic_ix
        } else {
            mic_count - 1
        };
        let (sel_start, sel_end) = match sel {
            Some((a, b)) => (Some(a), Some(b)),
            None => (None, None),
        };
        Launcher {
            mode,
            scope: state.scope,
            res_ix: state.res_ix,
            mic_count,
            mic_ix,
            mic_open,
            system_audio: state.system_audio,
            frame,
            sel_start,
            sel_end,
            drag: Drag::Idle,
            hover: None,
            mic_test: false,
            mic_hear: false,
            mic_dsp_on: true,
            mic_level: (FLOOR_DB, FLOOR_DB),
            mic_test_gen: 0,
        }
    }

    /// The selections for the next window.
    pub open spec fn carried(self, scope: Scope, sel: Option<(Pos, Pos)>) -> LauncherState {
        LauncherState {
            mode: self.mode,
            scope,
            res_ix: self.res_ix,
            mic_ix: self.mic_ix,
            system_audio: self.system_audio,
            sel,
        }
    }

    fn snapshot(&self, scope: Scope, sel: Option<(Pos, Pos)>) -> (r: LauncherState)
        ensures
            r == self.carried(scope, sel),
    {
        LauncherState {
            mode: self.mode,
            scope,
            res_ix: self.res_ix,
            mic_ix: self.mic_ix,
            system_audio: self.system_audio,
            sel,
        }
    }

    /// With no check of the microphone running.
    pub open spec fn quiet(self) -> Launcher {
        Launcher { mic_test: false, ..self }
    }

    /// Both corners, where there are both.
    pub open spec fn corners(self) -> Option<(Pos, Pos)> {
        match (self.sel_start, self.sel_end) {
            (Some(a), Some(b)) => Some((a, b)),
            _ => None,
        }
    }

    /// After a click on Crop.
    pub open spec fn crop_entered(self) -> (Launcher, LauncherAction) {
        if self.session() {
            (Launcher { sel_start: None, sel_end: None, ..self }, LauncherAction::Repaint)
        } else {
            (self.quiet(), LauncherAction::Freeze(self.carried(Scope::Crop, None)))
        }
    }

    /// Enter a crop session; in one, clear the region to draw another.
    pub fn enter_crop(&mut self) -> (r: LauncherAction)
        ensures
            (*final(self), r) == old(self).crop_entered(),
    {
        if self.frame.is_some() {
            self.sel_start = None;
            self.sel_end = None;
            return LauncherAction::Repaint;
        }
        let state = self.snapshot(Scope::Crop, None);
        self.mic_test = false;
        LauncherAction::Freeze(state)
    }

    /// Take the still again, and keep the framed region.
    pub fn refresh_frame(&mut self) -> (r: LauncherAction)
        ensures
            *final(self) == old(self).quiet(),
            r == LauncherAction::Freeze(old(self).carried(Scope::Crop, old(self).corners())),
    {
        let sel = match (self.sel_start, self.sel_end) {
            (Some(a), Some(b)) => Some((a, b)),
            _ => None,
        };
        let state = self.snapshot(Scope::Crop, sel);
        self.mic_test = false;
        LauncherAction::Freeze(state)
    }

    /// Leave the crop session for the plain pill.
    pub fn leave_crop(&self, scope: Scope) -> (r: LauncherAction)
        ensures
            r == LauncherAction::OpenPill(self.carried(scope, None)),
    {
        LauncherAction::OpenPill(self.snapshot(scope, None))
    }

    /// The height of the chosen resolution; none for the screen's own.
    pub open spec fn height(self) -> Option<u32> {
        if self.res_ix < RESOLUTION_COUNT {
            Some(preset_height(self.res_ix as int) as u32)
        } else {
            None
        }
    }

    /// The capture or recording, of a crop or of the full screen.
    pub open spec fn shot(self, crop: Option<(u32, u32, u32, u32)>) -> LauncherAction {
        match self.mode {
            Mode::Screenshot => match crop {
                Some(rect) => LauncherAction::PreviewRegion(rect),
                None => LauncherAction::PreviewFull,
            },
            Mode::Record => LauncherAction::Record {
                crop,
                height: self.height(),
                mic_ix: self.mic_ix,
                system_audio: self.system_audio,
            },
        }
    }

    /// After the red button. In a session it needs a region, and a crop
    /// without a session enters one.
    pub open spec fn fired(self, view: Extent) -> (Launcher, LauncherAction) {
        if self.session() {
            match self.region_pixels(view) {
                Some(rect) => (self.quiet(), self.shot(Some(rect))),
                None => (self, LauncherAction::Nothing),
            }
        } else if self.scope == Scope::Crop {
            self.crop_entered()
        } else {
            (self.quiet(), self.shot(None))
        }
    }

    /// The red button.
    pub fn fire(&mut self, view: Extent) -> (r: LauncherAction)
        requires
            old(self).wf(),
        ensures
            (*final(self), r) == old(self).fired(view),
    {
        let crop: Option<(u32, u32, u32, u32)> = if self.frame.is_some() {
            match self.sel_to_pixels(view) {
                Some(c) => Some(c),
                None => {
                    return LauncherAction::Nothing;
                },
            }
        } else if self.scope == Scope::Crop {
            return self.enter_crop();
        } else {
            None
        };
        let height: Option<u32> = if self.res_ix < RESOLUTION_COUNT {
            Some(resolution(self.res_ix).1)
        } else {
            None
        };
        self.mic_test = false;
        match self.mode {
            Mode::Screenshot => match crop {
                Some(rect) => LauncherAction::PreviewRegion(rect),
                None => LauncherAction::PreviewFull,
            },
            Mode::Record => LauncherAction::Record {
                crop,
                height,
                mic_ix: self.mic_ix,
                system_audio: self.system_audio,
            },
        }
    }

    /// After a key: Escape leaves the session or quits, R takes the still
    /// again, and Enter is the red button.
    pub open spec fn keyed(self, key: Seq<char>, modified: bool, view: Extent) -> (
        Launcher,
        LauncherAction,
    ) {
        if key == "escape"@ {
            if self.session() {
                (self, LauncherAction::OpenPill(self.carried(Scope::Full, None)))
            } else {
                (self.quiet(), LauncherAction::Quit)
            }
        } else if key == "r"@ && self.session() && !modified {
            (self.quiet(), LauncherAction::Freeze(self.carried(Scope::Crop, self.corners())))
        } else if key == "enter"@ {
            self.fired(view)
        } else {
            (self, LauncherAction::Nothing)
        }
    }

    pub fn key_down(&mut self, key: &str, modified: bool, view: Extent) -> (r: LauncherAction)
        requires
            old(self).wf(),
        ensures
            (*final(self), r) == old(self).keyed(key@, modified, view),
    {
        proof {
            reveal_strlit("escape");
            reveal_strlit("r");
            reveal_strlit("enter");
            assert("escape"@.len() == 6 && "r"@.len() == 1 && "enter"@.len() == 5);
        }
        if text::same_text(key, "escape") {
            if self.frame.is_some() {
                self.leave_crop(Scope::Full)
            } else {
                self.mic_test = false;
                LauncherAction::Quit
            }
        } else if text::same_text(key, "r") {
            if self.frame.is_some() && !modified {
                self.refresh_frame()
            } else {
                LauncherAction::Nothing
            }
        } else if text::same_text(key, "enter") {
            self.fire(view)
        } else {
            LauncherAction::Nothing
        }
    }

    /// After the pointer moved: whether the window has to be shown anew.
    pub open spec fn pointed(self, p: Pos, view: Extent) -> (Launcher, bool) {
        let l = Launcher { hover: Some(p), ..self };
        if self.dragging() {
            (l.dragged(p, view), true)
        } else {
            (l, l.cursor() != self.cursor())
        }
    }

    pub fn mouse_move(&mut self, p: Pos, view: Extent) -> (r: bool)
        ensures
            (*final(self), r) == old(self).pointed(p, view),
    {
        let before = self.crop_cursor();
        self.hover = Some(p);
        if self.is_dragging() {
            self.drag_to(p, view);
            true
        } else {
            self.crop_cursor() != before
        }
    }

    /// After the pointer was let go.
    pub open spec fn let_go(self, p: Pos, view: Extent) -> Launcher {
        Launcher { drag: Drag::Idle, ..self.dragged(p, view) }
    }

    /// The end of a drag: whether there was one.
    pub fn mouse_up(&mut self, p: Pos, view: Extent) -> (r: bool)
        ensures
            r == old(self).dragging(),
            *final(self) == old(self).let_go(p, view),
    {
        if self.is_dragging() {
            self.drag_to(p, view);
            self.drag = Drag::Idle;
            true
        } else {
            false
        }
    }

    /// After a mode was picked. A screenshot needs no microphone.
    pub open spec fn in_mode(self, mode: Mode) -> Launcher {
        match mode {
            Mode::Screenshot => Launcher { mode, mic_open: false, ..self.quiet() },
            Mode::Record => Launcher { mode, ..self },
        }
    }

    /// A click on Screenshot or Record.
    pub fn set_mode(&mut self, mode: Mode)
        ensures
            *final(self) == old(self).in_mode(mode),
    {
        self.mode = mode;
        if mode == Mode::Screenshot {
            self.mic_open = false;
            self.mic_test = false;
        }
    }

    /// A click on Full.
    pub fn choose_full(&mut self) -> (r: LauncherAction)
        ensures
            (*final(self), r) == (if old(self).session() {
                (*old(self), LauncherAction::OpenPill(old(self).carried(Scope::Full, None)))
            } else {
                (Launcher { scope: Scope::Full, ..*old(self) }, LauncherAction::Repaint)
            }),
    {
        if self.frame.is_some() {
            self.leave_crop(Scope::Full)
        } else {
            self.scope = Scope::Full;
            LauncherAction::Repaint
        }
    }

    pub fn set_resolution(&mut self, ix: usize)
        ensures
            *final(self) == (Launcher { res_ix: ix, ..*old(self) }),
    {
        self.res_ix = ix;
    }

    pub fn toggle_mic_menu(&mut self)
        ensures
            *final(self) == (Launcher { mic_open: !old(self).mic_open, ..*old(self) }),
    {
        self.mic_open = !self.mic_open;
    }

    pub fn toggle_system_audio(&mut self)
        ensures
            *final(self) == (Launcher { system_audio: !old(self).system_audio, ..*old(self) }),
    {
        self.system_audio = !self.system_audio;
    }
}

/// A region survives the taking of a new still, and nothing else: entering a
/// session or leaving it starts without one.
pub proof fn law_region_survives_only_refresh(l: Launcher, frame: (u32, u32), mic_count: usize)
    ensures
        ({
            let again = l.carried(Scope::Crop, l.corners());
            Launcher::opened(again, Some(frame), mic_count, ""@).region() == l.region()
        }),
        Launcher::opened(l.carried(Scope::Crop, None), Some(frame), mic_count, ""@).region()
            is None,
        Launcher::opened(l.carried(Scope::Full, None), None, mic_count, ""@).region() is None,
{
    reveal_strlit("");
    reveal_strlit("crop-session");
    reveal_strlit("crop-fire");
    reveal_strlit("crop-refresh");
    assert(""@.len() == 0);
    assert("crop-session"@.len() == 12);
    assert("crop-fire"@.len() == 9);
    assert("crop-refresh"@.len() == 12);
}

/// What was chosen in the pill is kept from one window to the next.
pub proof fn law_choices_are_carried(
    l: Launcher,
    scope: Scope,
    sel: Option<(Pos, Pos)>,
    frame: Option<(u32, u32)>,
)
    requires
        l.wf(),
    ensures
        ({
            let m = Launcher::opened(l.carried(scope, sel), frame, l.mic_count, ""@);
            &&& m.mode == l.mode
            &&& m.res_ix == l.res_ix
            &&& m.mic_ix == l.mic_ix
            &&& m.system_audio == l.system_audio
            &&& m.scope == scope
        }),
{
    reveal_strlit("");
    reveal_strlit("record");
    reveal_strlit("record-mics");
    assert(""@.len() == 0);
    assert("record"@.len() == 6);
    assert("record-mics"@.len() == 11);
}

/// In a session nothing is captured until a region is framed, and then what
/// is captured is that region.
pub proof fn law_session_fires_what_is_framed(l: Launcher, view: Extent)
    requires
        l.wf(),
        l.session(),
    ensures
        l.region() is None ==> l.fired(view) == (l, LauncherAction::Nothing),
        l.region() is Some && l.mode == Mode::Screenshot ==> l.fired(view).1
            == LauncherAction::PreviewRegion(l.region_pixels(view)->0),
        l.region() is Some && l.mode == Mode::Record ==> (l.fired(view).1 matches
            LauncherAction::Record { crop, .. } && crop == l.region_pixels(view)),
{
}

// ---- the check of the microphone ----

impl Launcher {
    /// What starts the check of the chosen microphone, if one is chosen.
    pub open spec fn mic_request(self) -> LauncherAction {
        if self.mic_ix == 0 {
            LauncherAction::Repaint
        } else {
            LauncherAction::StartMicTest {
                mic_ix: self.mic_ix,
                dsp: self.mic_dsp_on,
                hear: self.mic_hear,
            }
        }
    }

    fn request(&self) -> (r: LauncherAction)
        ensures
            r == self.mic_request(),
    {
        if self.mic_ix == 0 {
            LauncherAction::Repaint
        } else {
            LauncherAction::StartMicTest {
                mic_ix: self.mic_ix,
                dsp: self.mic_dsp_on,
                hear: self.mic_hear,
            }
        }
    }

    /// A running check is stopped and started again.
    pub open spec fn mic_restarted(self) -> (Launcher, LauncherAction) {
        if self.mic_test {
            (self.quiet(), self.mic_request())
        } else {
            (self, LauncherAction::Repaint)
        }
    }

    fn restart_mic_test(&mut self) -> (r: LauncherAction)
        ensures
            (*final(self), r) == old(self).mic_restarted(),
    {
        if self.mic_test {
            self.mic_test = false;
            self.request()
        } else {
            LauncherAction::Repaint
        }
    }

    /// A click on Test: it stops the check, or starts it.
    pub fn toggle_mic_test(&mut self) -> (r: LauncherAction)
        ensures
            (*final(self), r) == (if old(self).mic_test {
                (old(self).quiet(), LauncherAction::Repaint)
            } else {
                (*old(self), old(self).mic_request())
            }),
    {
        if self.mic_test {
            self.mic_test = false;
            LauncherAction::Repaint
        } else {
            self.request()
        }
    }

    /// A click on Hear myself.
    pub fn toggle_hear(&mut self) -> (r: LauncherAction)
        ensures
            (*final(self), r) == (Launcher {
                mic_hear: !old(self).mic_hear,
                ..*old(self)
            }).mic_restarted(),
    {
        self.mic_hear = !self.mic_hear;
        self.restart_mic_test()
    }

    /// A click on Processing.
    pub fn toggle_dsp(&mut self) -> (r: LauncherAction)
        ensures
            (*final(self), r) == (Launcher {
                mic_dsp_on: !old(self).mic_dsp_on,
                ..*old(self)
            }).mic_restarted(),
    {
        self.mic_dsp_on = !self.mic_dsp_on;
        self.restart_mic_test()
    }

    /// After a choice in the list of microphones.
    pub open spec fn mic_picked(self, ix: usize) -> (Launcher, LauncherAction) {
        let l = Launcher { mic_ix: ix, mic_open: false, ..self };
        if ix == 0 {
            (l.quiet(), LauncherAction::Repaint)
        } else {
            l.mic_restarted()
        }
    }

    /// A choice in the list of microphones.
    pub fn pick_mic(&mut self, ix: usize) -> (r: LauncherAction)
        requires
            ix < old(self).mic_count,
            old(self).wf(),
        ensures
            (*final(self), r) == old(self).mic_picked(ix),
            final(self).wf(),
    {
        self.mic_ix = ix;
        self.mic_open = false;
        if ix == 0 {
            self.mic_test = false;
            LauncherAction::Repaint
        } else {
            self.restart_mic_test()
        }
    }

    /// With a check that has just begun.
    pub open spec fn mic_testing(self) -> Launcher {
        Launcher {
            mic_test: true,
            mic_level: (FLOOR_DB, FLOOR_DB),
            mic_test_gen: (self.mic_test_gen + 1) as u64,
            ..self
        }
    }

    /// The check has begun, or could not: its number.
    pub fn mic_test_started(&mut self, started: bool) -> (r: Option<u64>)
        requires
            old(self).mic_test_gen < u64::MAX,
        ensures
            *final(self) == (if started {
                old(self).mic_testing()
            } else {
                *old(self)
            }),
            r == (if started {
                Some(final(self).mic_test_gen)
            } else {
                None
            }),
    {
        if !started {
            return None;
        }
        self.mic_test = true;
        self.mic_level = (FLOOR_DB, FLOOR_DB);
        self.mic_test_gen = self.mic_test_gen + 1;
        Some(self.mic_test_gen)
    }

    /// After a report of check number `gen`, and whether it goes on.
    pub open spec fn mic_reported(self, gen: u64, level: (i64, i64)) -> (Launcher, bool) {
        if self.mic_test_gen == gen && self.mic_test {
            (Launcher { mic_level: level, ..self }, true)
        } else {
            (self, false)
        }
    }

    /// A report of check number `gen`: whether it goes on.
    pub fn mic_test_tick(&mut self, gen: u64, level: (i64, i64)) -> (r: bool)
        ensures
            (*final(self), r) == old(self).mic_reported(gen, level),
    {
        if self.mic_test_gen == gen && self.mic_test {
            self.mic_level = level;
            true
        } else {
            false
        }
    }
}

/// A check that was stopped or started again reports no more.
pub proof fn law_old_check_is_silent(l: Launcher, level: (i64, i64))
    requires
        l.mic_test_gen < u64::MAX,
    ensures
        l.quiet().mic_reported(l.mic_test_gen, level) == (l.quiet(), false),
        l.mic_testing().mic_reported(l.mic_test_gen, level) == (l.mic_testing(), false),
        l.mic_testing().mic_reported(l.mic_testing().mic_test_gen, level).1,
{
}

/// The microphone is free before a recording opens it.
pub proof fn law_microphone_is_released(l: Launcher, view: Extent)
    requires
        l.wf(),
        l.fired(view).1 is Record,
    ensures
        !l.fired(view).0.mic_test,
{
}

// ---- what is shown ----

/// A text, cut to at most `max` characters.
pub open spec fn truncated(s: Seq<char>, max: nat) -> Seq<char> {
    if s.len() <= max {
        s
    } else {
        s.take(max_of(max - 1, 0)).push('\u{2026}')
    }
}

/// A text, cut to at most `max` characters, where the last one then is an
/// ellipsis.
pub fn truncate(s: &str, max: usize) -> (r: String)
    ensures
        r@ == truncated(s@, max as nat),
{
    let chars = text::to_chars(s);
    if chars.len() <= max {
        return owned(s);
    }
    let keep: usize = if max > 0 {
        max - 1
    } else {
        0
    };
    let mut cut = text::copy_range(chars.as_slice(), 0, keep);
    cut.push('\u{2026}');
    assert(cut@ =~= truncated(s@, max as nat));
    text::from_chars(cut.as_slice())
}

/// A choice in the list of microphones: its device, if any, and its label.
pub type MicChoice = (Option<String>, String);

pub open spec fn choice_view(c: MicChoice) -> (Option<Seq<char>>, Seq<char>) {
    (
        match c.0 {
            Some(d) => Some(d@),
            None => None,
        },
        c.1@,
    )
}

pub open spec fn choice_views(list: Seq<MicChoice>) -> Seq<(Option<Seq<char>>, Seq<char>)> {
    list.map_values(|c: MicChoice| choice_view(c))
}

/// The list of microphones: none, the default one, and those that were found.
pub open spec fn choices_of(found: Seq<(Seq<char>, Seq<char>)>) -> Seq<
    (Option<Seq<char>>, Seq<char>),
> {
    seq![(None, "Don't record mic"@), (Some("default"@), "Default microphone"@)]
        + found.map_values(
        |m: (Seq<char>, Seq<char>)| (Some(m.0), truncated(m.1, 42)),
    )
}

/// The list of microphones to choose from.
pub fn mic_choices(found: &Vec<(String, String)>) -> (r: Vec<MicChoice>)
    ensures
        choice_views(r@) == choices_of(pair_views(found@)),
        r@.len() == found@.len() + 2,
{
    let mut out: Vec<MicChoice> = Vec::new();
    out.push((None, owned("Don't record mic")));
    out.push((Some(owned("default")), owned("Default microphone")));
    let ghost all = choices_of(pair_views(found@));
    let mut i: usize = 0;
    assert(choice_views(out@) =~= all.take(2));
    while i < found.len()
        invariant
            i <= found@.len(),
            out@.len() == i + 2,
            all == choices_of(pair_views(found@)),
            choice_views(out@) =~= all.take(i + 2),
        decreases found.len() - i,
    {
        let (name, label) = &found[i];
        out.push((Some(owned(name.as_str())), truncate(label.as_str(), 42)));
        assert(choice_views(out@).last() == all[i + 2]);
        assert(choice_views(out@).drop_last() =~= all.take(i + 2));
        i += 1;
    }
    assert(all.take(found@.len() + 2int) =~= all);
    out
}

/// The button of the microphone, of the choice at `ix`.
pub open spec fn mic_text(list: Seq<(Option<Seq<char>>, Seq<char>)>, ix: int) -> Seq<char> {
    if ix == 0 {
        "\u{1f3a4} Off"@
    } else if ix == 1 {
        "\u{1f3a4} Default"@
    } else {
        "\u{1f3a4} "@ + truncated(list[ix].1, 12)
    }
}

pub fn mic_label(list: &Vec<MicChoice>, ix: usize) -> (r: String)
    requires
        ix < list@.len(),
    ensures
        r@ == mic_text(choice_views(list@), ix as int),
{
    if ix == 0 {
        owned("\u{1f3a4} Off")
    } else if ix == 1 {
        owned("\u{1f3a4} Default")
    } else {
        let mut out = owned("\u{1f3a4} ");
        out.append(truncate(list[ix].1.as_str(), 12).as_str());
        out
    }
}

/// The options of a recording that the launcher starts.
pub fn recording_options(
    crop: Option<(u32, u32, u32, u32)>,
    height: Option<u32>,
    list: &Vec<MicChoice>,
    mic_ix: usize,
    system_audio: bool,
) -> (r: RecordOptions)
    requires
        mic_ix < list@.len(),
    ensures
        options_are(r, crop, height, choice_views(list@), mic_ix as int, system_audio),
{
    let mic = match &list[mic_ix].0 {
        Some(d) => Some(owned(d.as_str())),
        None => None,
    };
    RecordOptions { output: None, height, crop, mic, system_audio }
}

/// The button of a resolution.
pub fn resolution_label(ix: usize) -> (r: &'static str)
    ensures
        r@ == (if ix == 2 {
            "2K"@
        } else if ix < RESOLUTION_COUNT {
            preset_label(ix as int)
        } else {
            "Native"@
        }),
{
    if ix == 2 {
        "2K"
    } else if ix < RESOLUTION_COUNT {
        resolution(ix).0
    } else {
        "Native"
    }
}

/// The size of a region, with a sign in between.
pub open spec fn size_of(region: (u32, u32, u32, u32), times: Seq<char>) -> Seq<char> {
    text::decimal(region.2 as nat) + times + text::decimal(region.3 as nat)
}

fn size_chars(region: (u32, u32, u32, u32), times: &str) -> (r: Vec<char>)
    ensures
        r@ == size_of(region, times@),
{
    let mut out = text::decimal_chars(region.2 as u64);
    let t = text::to_chars(times);
    text::append_chars(&mut out, t.as_slice());
    let h = text::decimal_chars(region.3 as u64);
    text::append_chars(&mut out, h.as_slice());
    out
}

impl Launcher {
    /// The button of the crop: in a session, with the size of the region.
    pub open spec fn crop_text(self, view: Extent) -> Seq<char> {
        if !self.session() {
            "Crop"@
        } else {
            match self.region_pixels(view) {
                Some(region) => "Crop "@ + size_of(region, "\u{d7}"@),
                None => "Crop\u{2026}"@,
            }
        }
    }

    pub fn crop_label(&self, view: Extent) -> (r: String)
        requires
            self.wf(),
        ensures
            r@ == self.crop_text(view),
    {
        if self.frame.is_none() {
            return owned("Crop");
        }
        match self.sel_to_pixels(view) {
            Some(region) => {
                let mut out = owned("Crop ");
                let size = size_chars(region, "\u{d7}");
                out.append(text::from_chars(size.as_slice()).as_str());
                out
            },
            None => owned("Crop\u{2026}"),
        }
    }

    /// The text beside the framed region: its size in pixels of the still.
    pub fn size_chip(&self, view: Extent) -> (r: Option<String>)
        requires
            self.wf(),
        ensures
            match r {
                Some(t) => self.region_pixels(view) matches Some(region) && t@ == size_of(
                    region,
                    " \u{d7} "@,
                ),
                None => self.region_pixels(view) is None,
            },
    {
        match self.sel_to_pixels(view) {
            Some(region) => {
                let size = size_chars(region, " \u{d7} ");
                Some(text::from_chars(size.as_slice()))
            },
            None => None,
        }
    }

    /// Whether the red button does anything.
    pub fn armed(&self) -> (r: bool)
        ensures
            r == (!self.session() || self.region() is Some),
    {
        self.frame.is_none() || self.sel_rect().is_some()
    }

    /// Whether Full is shown as chosen.
    pub fn full_is_active(&self) -> (r: bool)
        ensures
            r == (self.scope == Scope::Full && !self.session()),
    {
        self.scope == Scope::Full && self.frame.is_none()
    }

    /// Whether Crop is shown as chosen.
    pub fn crop_is_active(&self) -> (r: bool)
        ensures
            r == (self.scope == Scope::Crop || self.session()),
    {
        self.scope == Scope::Crop || self.frame.is_some()
    }

    /// Whether the list of microphones is shown.
    pub fn shows_mic_menu(&self) -> (r: bool)
        ensures
            r == (self.mic_open && self.mode == Mode::Record),
    {
        self.mic_open && self.mode == Mode::Record
    }

    /// Whether the meter of the microphone is shown.
    pub fn shows_mic_panel(&self) -> (r: bool)
        ensures
            r == (self.mic_test && self.mode == Mode::Record),
    {
        self.mic_test && self.mode == Mode::Record
    }

    /// Whether the pill floats at the top of a session; it goes to the bottom
    /// where the region reaches up there.
    pub fn pill_on_top(&self) -> (r: bool)
        ensures
            r == (match self.region() {
                Some(s) => s.y > 38_400,
                None => true,
            }),
    {
        match self.sel_rect() {
            Some(s) => s.y > 38_400,
            None => true,
        }
    }

    /// The hint of a session.
    pub fn hint(&self) -> (r: &'static str)
        ensures
            r@ == (if self.region() is Some {
                "Drag inside to move, edges to resize \u{b7} \u{25cf} captures \u{b7} R re-shoot \u{b7} Esc back"@
            } else {
                "Drag to frame the area \u{b7} R re-shoot the screen \u{b7} Esc back"@
            }),
    {
        if self.sel_rect().is_some() {
            "Drag inside to move, edges to resize \u{b7} \u{25cf} captures \u{b7} R re-shoot \u{b7} Esc back"
        } else {
            "Drag to frame the area \u{b7} R re-shoot the screen \u{b7} Esc back"
        }
    }
}

/// The middles of the grips: the corners and the middles of the edges.
pub open spec fn grip_points(s: Area) -> Seq<(i64, i64)> {
    let (x, y) = (s.x, s.y);
    let (mx, my) = ((s.x + s.w / 2) as i64, (s.y + s.h / 2) as i64);
    let (rx, by) = ((s.x + s.w) as i64, (s.y + s.h) as i64);
    seq![(x, y), (mx, y), (rx, y), (x, my), (rx, my), (x, by), (mx, by), (rx, by)]
}

/// The middles of the grips of a region.
pub fn grips(s: Area) -> (r: Vec<(i64, i64)>)
    requires
        small(s),
    ensures
        r@ == grip_points(s),
{
    let (x, y): (i64, i64) = (s.x, s.y);
    let (mx, my): (i64, i64) = (s.x + s.w / 2, s.y + s.h / 2);
    let (rx, by): (i64, i64) = (s.x + s.w, s.y + s.h);
    let r: Vec<(i64, i64)> = vec![
        (x, y),
        (mx, y),
        (rx, y),
        (x, my),
        (rx, my),
        (x, by),
        (mx, by),
        (rx, by),
    ];
    assert(r@ =~= grip_points(s));
    r
}

/// A press on a grip resizes the region.
pub proof fn law_grips_resize(s: Area, i: int)
    requires
        small(s),
        0 <= i < 8,
    ensures
        ({
            let g = grip_points(s)[i];
            grabbed(Some(s), Pos { x: g.0 as i32, y: g.1 as i32 }) is Resize
        }),
{
    assert(s.w / 2 <= s.w && s.h / 2 <= s.h);
}

/// Where the text beside a region begins: below it, or above it near the
/// bottom of the window.
pub fn chip_top(s: Area, view: Extent) -> (r: i64)
    requires
        small(s),
    ensures
        r == (if s.y + s.h + 8704 < view.h {
            s.y + s.h + 2560
        } else {
            s.y - 7168
        }),
{
    let bottom: i64 = s.y + s.h;
    if bottom + 8704 < view.h as i64 {
        bottom + 2560
    } else {
        s.y - 7168
    }
}

/// The width of the meter: 240 pixels.
pub const METER_WIDTH: i64 = 61_440;

/// How far the meter reaches for a level: from the floor to full scale.
pub open spec fn meter_of(db: int) -> int {
    min_of(max_of(db - FLOOR_DB, 0), -FLOOR_DB) * METER_WIDTH / (-FLOOR_DB)
}

/// What colour the meter has: that of the peak.
#[derive(Clone, Copy, PartialEq, Eq, Structural, Debug)]
pub enum MeterColor {
    Red,
    Yellow,
    Green,
}

/// The meter of the microphone.
#[derive(Debug)]
pub struct Meter {
    /// How wide the bar of the mean level is.
    pub fill: i64,
    /// Where the tick of the peak begins.
    pub tick: i64,
    pub color: MeterColor,
    pub label: String,
}

fn meter_width(db: i64) -> (r: i64)
    ensures
        r == meter_of(db as int),
        0 <= r <= METER_WIDTH,
{
    let above: i64 = if db <= FLOOR_DB {
        0
    } else if db >= 0 {
        60_000_000_000
    } else {
        db + 60_000_000_000
    };
    (above * 61_440) / 60_000_000_000
}

/// The color of a meter with that peak.
pub open spec fn meter_color(db: int) -> MeterColor {
    if db > -6_000_000_000 {
        MeterColor::Red
    } else if db > -12_000_000_000 {
        MeterColor::Yellow
    } else {
        MeterColor::Green
    }
}

/// The meter is red within 6 dB of full scale, yellow within 12 dB, and green
/// below.
pub proof fn law_meter_warns_near_full_scale(db: int)
    ensures
        meter_color(db) == MeterColor::Red <==> db + 6_000_000_000 > 0,
        meter_color(db) == MeterColor::Green <==> db + 12_000_000_000 <= 0,
{
}

/// The meter of a mean and a peak level.
pub fn meter(level: (i64, i64)) -> (r: Meter)
    ensures
        r.fill == meter_of(level.0 as int),
        r.tick == max_of(meter_of(level.1 as int) - 256, 0),
        r.color == meter_color(level.1 as int),
        r.label@ == fixed_text(max_of(level.1 as int, FLOOR_DB as int), 1_000_000_000, 1, 0)
            + " dB"@,
{
    let (rms, peak): (i64, i64) = level;
    let fill: i64 = meter_width(rms);
    let reach: i64 = meter_width(peak);
    let tick: i64 = if reach > 256 {
        reach - 256
    } else {
        0
    };
    let color = if peak > -6_000_000_000 {
        MeterColor::Red
    } else if peak > -12_000_000_000 {
        MeterColor::Yellow
    } else {
        MeterColor::Green
    };
    let shown: i64 = if peak < FLOOR_DB {
        FLOOR_DB
    } else {
        peak
    };
    let mut label = fixed_chars(shown, 1_000_000_000, 1, 0);
    let unit = text::to_chars(" dB");
    text::append_chars(&mut label, unit.as_slice());
    Meter { fill, tick, color, label: text::from_chars(label.as_slice()) }
}

/// A louder sound reaches further, from nothing at the floor to all at full
/// scale.
pub proof fn law_meter_rises(a: int, b: int)
    requires
        a <= b,
    ensures
        0 <= meter_of(a) <= meter_of(b) <= METER_WIDTH,
        meter_of(FLOOR_DB as int) == 0,
        meter_of(0) == METER_WIDTH,
{
}

/// A new region reaches from the press to the pointer.
pub proof fn law_new_region_follows_the_pointer(l: Launcher, p: Pos, q: Pos, view: Extent)
    requires
        grabbed(l.region(), p) == Grab::New,
    ensures
        l.drag_started(p).dragged(q, view).corners() == Some((p, q)),
        l.drag_started(p).dragged(q, view).region() == area_between(p, q),
{
}

/// A grabbed edge follows the pointer, and the sides that were not grabbed stay
/// where they are. A side is grabbed within nine pixels of it; of two that are
/// that close to each other, the right one and the lower one.
pub proof fn law_grabbed_edges_follow_the_pointer(
    l: Launcher,
    s: Area,
    p: Pos,
    q: Pos,
    view: Extent,
)
    requires
        l.region() == Some(s),
        small(s),
        grabbed(l.region(), p) is Resize,
    ensures
        ({
            let (c, d) = l.drag_started(p).dragged(q, view).corners()->0;
            let right = -2304 <= p.x - (s.x + s.w) <= 2304;
            let left = -2304 <= p.x - s.x <= 2304 && !right;
            let bottom = -2304 <= p.y - (s.y + s.h) <= 2304;
            let top = -2304 <= p.y - s.y <= 2304 && !bottom;
            &&& l.drag_started(p).dragged(q, view).corners() is Some
            &&& right ==> c.x == s.x && d.x == q.x
            &&& left ==> c.x == s.x + s.w && d.x == q.x
            &&& !left && !right ==> c.x == s.x && d.x == s.x + s.w
            &&& bottom ==> c.y == s.y && d.y == q.y
            &&& top ==> c.y == s.y + s.h && d.y == q.y
            &&& !top && !bottom ==> c.y == s.y && d.y == s.y + s.h
        }),
{
}

/// A region that is moved goes as far as the pointer, as long as it stays in
/// the window.
pub proof fn law_moved_region_follows_the_pointer(a: Pos, b: Pos, dx: int, dy: int, view: Extent)
    requires
        0 <= a.x + dx <= view.w,
        0 <= b.x + dx <= view.w,
        0 <= a.y + dy <= view.h,
        0 <= b.y + dy <= view.h,
    ensures
        ({
            let (c, d) = moved_corners(a, b, dx, dy, view);
            &&& c.x == a.x + dx && c.y == a.y + dy
            &&& d.x == b.x + dx && d.y == b.y + dy
        }),
{
}

/// Firing without a region takes the whole screen, or asks for a region if one
/// is to be framed. A recording has the microphone, the sound and the
/// resolution that were picked: the three presets, or the native one.
pub proof fn law_firing_does_what_was_picked(l: Launcher, view: Extent)
    requires
        l.wf(),
    ensures
        !l.session() && l.scope == Scope::Crop ==> (l.fired(view).1 matches LauncherAction::Freeze(s)
            && s.scope == Scope::Crop && s.sel is None && s.mode == l.mode && s.mic_ix == l.mic_ix
            && s.res_ix == l.res_ix && s.system_audio == l.system_audio),
        !l.session() && l.scope == Scope::Full && l.mode == Mode::Screenshot ==> l.fired(view).1
            == LauncherAction::PreviewFull,
        !l.session() && l.scope == Scope::Full && l.mode == Mode::Record ==> (l.fired(
            view,
        ).1 matches LauncherAction::Record { crop, .. } && crop is None),
        l.fired(view).1 matches LauncherAction::Record { height, mic_ix, system_audio, .. } ==> {
            &&& mic_ix == l.mic_ix && system_audio == l.system_audio && l.mode == Mode::Record
            &&& height == (if l.res_ix == 0 {
                Some(720u32)
            } else if l.res_ix == 1 {
                Some(1080u32)
            } else if l.res_ix == 2 {
                Some(1440u32)
            } else {
                None
            })
        },
{
}

/// The pixels of a framed region begin where it begins on the frozen picture
/// and are as many as it covers, at least one, and end with the picture.
pub proof fn law_framed_pixels_are_those_covered(s: Area, view: Extent, fw: int, fh: int)
    requires
        fw > 0,
        fh > 0,
        view.w >= 256,
        view.h >= 256,
    ensures
        ({
            let (x, y, w, h) = still_region(s, view, fw, fh);
            let (px, py) = (
                in_pixels(s.x as int, fw, view.w as int),
                in_pixels(s.y as int, fh, view.h as int),
            );
            let (pw, ph) = (
                in_pixels(s.w as int, fw, view.w as int),
                in_pixels(s.h as int, fh, view.h as int),
            );
            &&& px < fw ==> x == px
            &&& py < fh ==> y == py
            &&& 1 <= pw <= fw - x ==> w == pw
            &&& 1 <= ph <= fh - y ==> h == ph
            &&& pw > fw - x ==> x + w == fw
            &&& ph > fh - y ==> y + h == fh
        }),
{
}

/// The first choice records no microphone, the second the default one, and
/// each of the others the microphone of that place in the list, under its name.
pub proof fn law_choices_name_their_microphones(found: Seq<(Seq<char>, Seq<char>)>, i: int)
    requires
        0 <= i < found.len(),
    ensures
        choices_of(found).len() == found.len() + 2,
        choices_of(found)[0].0 is None,
        choices_of(found)[1].0 == Some("default"@),
        choices_of(found)[i + 2].0 == Some(found[i].0),
        found[i].1.len() <= 42 ==> choices_of(found)[i + 2].1 == found[i].1,
        found[i].1.len() > 42 ==> choices_of(found)[i + 2].1.len() == 42 && choices_of(found)[i
            + 2].1.take(41) == found[i].1.take(41),
{
    if found[i].1.len() > 42 {
        assert(choices_of(found)[i + 2].1.take(41) =~= found[i].1.take(41));
    }
}

/// The meter is filled in proportion to the level between -60 dB and 0 dB.
pub proof fn law_meter_is_proportional(db: int)
    requires
        -60_000_000_000 <= db <= 0,
    ensures
        meter_of(db) * 60_000_000_000 <= (db + 60_000_000_000) * 61_440 < (meter_of(db) + 1)
            * 60_000_000_000,
        db <= -60_000_000_000 ==> meter_of(db) == 0,
{
}

/// Escape leaves a session for the pill and the pill for good; Enter fires, and
/// R takes the picture of the screen anew with the region as it is. Other keys
/// do nothing.
pub proof fn law_keys_of_the_launcher(l: Launcher, key: Seq<char>, modified: bool, view: Extent)
    ensures
        l.session() ==> (l.keyed("escape"@, modified, view).1 matches LauncherAction::OpenPill(s)
            && s.scope == Scope::Full && s.sel is None && s.mode == l.mode),
        !l.session() ==> l.keyed("escape"@, modified, view).1 == LauncherAction::Quit && !l.keyed(
            "escape"@,
            modified,
            view,
        ).0.mic_test,
        l.keyed("enter"@, modified, view) == l.fired(view),
        l.session() ==> (l.keyed("r"@, false, view).1 matches LauncherAction::Freeze(s) && s.sel
            == l.corners() && s.scope == Scope::Crop && s.mode == l.mode),
        key != "escape"@ && key != "enter"@ && (key != "r"@ || modified || !l.session()) ==> l.keyed(
            key,
            modified,
            view,
        ) == (l, LauncherAction::Nothing),
{
    reveal_strlit("escape");
    reveal_strlit("enter");
    reveal_strlit("r");
    assert("escape"@.len() == 6 && "enter"@.len() == 5 && "r"@.len() == 1);
}

/// Letting go ends the drag and leaves the region as it was shown last.
pub proof fn law_region_stays_when_let_go(l: Launcher, p: Pos, q: Pos, view: Extent)
    ensures
        !l.let_go(p, view).dragging(),
        l.let_go(p, view).region() == l.dragged(p, view).region(),
        l.let_go(p, view).dragged(q, view).region() == l.let_go(p, view).region(),
{
}

/// Picking a mode changes to it; for a screenshot the microphone is let go.
pub proof fn law_modes_are_picked(l: Launcher, mode: Mode)
    ensures
        l.in_mode(mode).mode == mode,
        mode == Mode::Screenshot ==> !l.in_mode(mode).mic_test && !l.in_mode(mode).mic_open,
        mode == Mode::Record ==> l.in_mode(mode).mic_test == l.mic_test,
        l.in_mode(mode).region() == l.region(),
        l.in_mode(mode).scope == l.scope,
{
}

/// The microphone is checked if there is one, with what was picked. Picking
/// another one while it is checked starts anew with that one.
pub proof fn law_picked_microphone_is_checked(l: Launcher, ix: usize)
    ensures
        l.mic_picked(ix).0.mic_ix == ix,
        !l.mic_picked(ix).0.mic_open,
        ix == 0 ==> !l.mic_picked(ix).0.mic_test && l.mic_picked(ix).1 == LauncherAction::Repaint,
        ix != 0 && l.mic_test ==> l.mic_picked(ix).1 == (LauncherAction::StartMicTest {
            mic_ix: ix,
            dsp: l.mic_dsp_on,
            hear: l.mic_hear,
        }),
        !l.mic_test ==> l.mic_picked(ix).1 == LauncherAction::Repaint,
        l.mic_ix != 0 ==> l.mic_request() == (LauncherAction::StartMicTest {
            mic_ix: l.mic_ix,
            dsp: l.mic_dsp_on,
            hear: l.mic_hear,
        }),
{
}

/// Whether a recording has the options that were picked.
pub open spec fn options_are(
    r: RecordOptions,
    crop: Option<(u32, u32, u32, u32)>,
    height: Option<u32>,
    list: Seq<(Option<Seq<char>>, Seq<char>)>,
    mic_ix: int,
    system_audio: bool,
) -> bool {
    &&& r.output is None
    &&& r.height == height
    &&& r.crop == crop
    &&& match r.mic {
        Some(m) => list[mic_ix].0 == Some(m@),
        None => list[mic_ix].0 is None,
    }
    &&& r.system_audio == system_audio
}

/// What is recorded is what was framed and picked: the region, the height, what
/// the machine plays, and of the microphones none for the first choice, the
/// default one for the second, and else the one of that place in the list.
pub proof fn law_recording_is_what_was_picked(
    r: RecordOptions,
    crop: Option<(u32, u32, u32, u32)>,
    height: Option<u32>,
    found: Seq<(Seq<char>, Seq<char>)>,
    mic_ix: int,
    system_audio: bool,
)
    requires
        options_are(r, crop, height, choices_of(found), mic_ix, system_audio),
        0 <= mic_ix < found.len() + 2,
    ensures
        r.crop == crop && r.height == height && r.system_audio == system_audio,
        mic_ix == 0 ==> r.mic is None,
        mic_ix == 1 ==> (r.mic matches Some(m) && m@ == "default"@),
        mic_ix >= 2 ==> (r.mic matches Some(m) && m@ == found[mic_ix - 2].0),
{
    if mic_ix >= 2 {
        law_choices_name_their_microphones(found, mic_ix - 2);
    }
}

} // verus!
