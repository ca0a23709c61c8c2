//! Monitors and captures: where each monitor lies in a picture of the whole
//! desktop, and what a capture is cropped to.
use vstd::prelude::*;
use crate::binary::{law_scaled_by_whole, law_scaled_is_close, lemma_scaled_by, scale_by, scaled_by, DOUBLE};
use crate::error::{owned, Error};
use crate::math::{abs_i64, abs_of};
use crate::pixmap::{crop, crop_result, law_crop_keeps_pixels, Pixmap, PixmapView};
use crate::text;

verus! {

/// What the compositor has told of an output so far.
#[derive(Debug)]
pub struct OutputData {
    pub name: Option<String>,
    pub logical_pos: Option<(i32, i32)>,
    pub logical_size: Option<(i32, i32)>,
    pub mode: Option<(i32, i32)>,
    pub scale: i32,
}

impl Default for OutputData {
    fn default() -> (r: OutputData)
        ensures
            r.name is None,
            r.logical_pos is None,
            r.logical_size is None,
            r.mode is None,
            r.scale == 0,
    {
        OutputData { name: None, logical_pos: None, logical_size: None, mode: None, scale: 0 }
    }
}

/// What the compositor tells of an output.
#[derive(Debug)]
pub enum OutputEvent {
    /// A mode, and whether it is the current one.
    Mode { current: bool, width: i32, height: i32 },
    Scale(i32),
    Name(String),
    LogicalPosition(i32, i32),
    LogicalSize(i32, i32),
    /// Anything else.
    Other,
}

impl OutputData {
    /// After an event.
    pub open spec fn told(self, event: OutputEvent) -> OutputData {
        match event {
            OutputEvent::Mode { current, width, height } => if current {
                OutputData { mode: Some((width, height)), ..self }
            } else {
                self
            },
            OutputEvent::Scale(factor) => OutputData { scale: factor, ..self },
            OutputEvent::Name(name) => OutputData { name: Some(name), ..self },
            OutputEvent::LogicalPosition(x, y) => OutputData { logical_pos: Some((x, y)), ..self },
            OutputEvent::LogicalSize(w, h) => OutputData { logical_size: Some((w, h)), ..self },
            OutputEvent::Other => self,
        }
    }

    /// Take in what the compositor tells. Of the modes only the current one
    /// counts.
    pub fn event(&mut self, event: OutputEvent)
        ensures
            *final(self) == old(self).told(event),
    {
        match event {
            OutputEvent::Mode { current, width, height } => {
                if current {
                    self.mode = Some((width, height));
                }
            },
            OutputEvent::Scale(factor) => {
                self.scale = factor;
            },
            OutputEvent::Name(name) => {
                self.name = Some(name);
            },
            OutputEvent::LogicalPosition(x, y) => {
                self.logical_pos = Some((x, y));
            },
            OutputEvent::LogicalSize(w, h) => {
                self.logical_size = Some((w, h));
            },
            OutputEvent::Other => {},
        }
    }
}

/// A monitor: its position and size in the compositor's layout, and its mode
/// in pixels.
#[derive(Debug)]
pub struct Monitor {
    pub index: usize,
    pub name: String,
    pub logical_x: i32,
    pub logical_y: i32,
    pub logical_w: i32,
    pub logical_h: i32,
    pub pixel_w: i32,
    pub pixel_h: i32,
    pub scale: i32,
}

/// What a monitor holds.
#[verifier::ext_equal]
pub struct MonitorView {
    pub index: int,
    pub name: Seq<char>,
    pub logical_x: int,
    pub logical_y: int,
    pub logical_w: int,
    pub logical_h: int,
    pub pixel_w: int,
    pub pixel_h: int,
    pub scale: int,
}

impl View for Monitor {
    type V = MonitorView;

    open spec fn view(&self) -> MonitorView {
        MonitorView {
            index: self.index as int,
            name: self.name@,
            logical_x: self.logical_x as int,
            logical_y: self.logical_y as int,
            logical_w: self.logical_w as int,
            logical_h: self.logical_h as int,
            pixel_w: self.pixel_w as int,
            pixel_h: self.pixel_h as int,
            scale: self.scale as int,
        }
    }
}

pub open spec fn monitor_views(list: Seq<Monitor>) -> Seq<MonitorView> {
    list.map_values(|m: Monitor| m@)
}

/// The monitor of output `i`: one whose position and size are known. A missing
/// name is made up, a missing mode is the logical size.
pub open spec fn monitor_of(o: OutputData, i: int) -> Option<MonitorView> {
    match (o.logical_pos, o.logical_size) {
        (Some((x, y)), Some((w, h))) => Some(
            MonitorView {
                index: i,
                name: match o.name {
                    Some(n) => n@,
                    None => "output-"@ + text::decimal(i as nat),
                },
                logical_x: x as int,
                logical_y: y as int,
                logical_w: w as int,
                logical_h: h as int,
                pixel_w: match o.mode {
                    Some(m) => m.0 as int,
                    None => w as int,
                },
                pixel_h: match o.mode {
                    Some(m) => m.1 as int,
                    None => h as int,
                },
                scale: if o.scale < 1 {
                    1
                } else {
                    o.scale as int
                },
            },
        ),
        _ => None,
    }
}

/// The monitors of the outputs, in order.
pub open spec fn monitors_of(outputs: Seq<OutputData>) -> Seq<MonitorView>
    decreases outputs.len(),
{
    if outputs.len() == 0 {
        Seq::empty()
    } else {
        let rest = monitors_of(outputs.drop_last());
        match monitor_of(outputs.last(), outputs.len() - 1) {
            Some(m) => rest.push(m),
            None => rest,
        }
    }
}

/// A monitor is as the compositor told: at its last position, with its last
/// size and scale, and of its current mode. Without a position or a size there
/// is none.
pub proof fn law_monitor_is_as_told(
    o: OutputData,
    i: int,
    pos: (i32, i32),
    size: (i32, i32),
    mode: (i32, i32),
    other: (i32, i32),
    scale: i32,
)
    requires
        scale >= 1,
    ensures
        ({
            let t = o.told(OutputEvent::LogicalPosition(pos.0, pos.1)).told(
                OutputEvent::LogicalSize(size.0, size.1),
            ).told(OutputEvent::Mode { current: true, width: mode.0, height: mode.1 }).told(
                OutputEvent::Mode { current: false, width: other.0, height: other.1 },
            ).told(OutputEvent::Scale(scale)).told(OutputEvent::Other);
            monitor_of(t, i) matches Some(m) && m.index == i && m.logical_x == pos.0 && m.logical_y
                == pos.1 && m.logical_w == size.0 && m.logical_h == size.1 && m.pixel_w == mode.0
                && m.pixel_h == mode.1 && m.scale == scale && (o.name matches Some(n) ==> m.name
                == n@)
        }),
        monitor_of(o, i) is Some == (o.logical_pos is Some && o.logical_size is Some),
        o.mode is None ==> (monitor_of(o, i) matches Some(m) ==> m.pixel_w == m.logical_w && m.pixel_h
            == m.logical_h),
        o.scale < 1 ==> (monitor_of(o, i) matches Some(m) ==> m.scale == 1),
{
}

/// Every output with a position and a size is a monitor, under its place among
/// the outputs, and nothing else is.
pub proof fn law_monitors_are_the_known_outputs(outputs: Seq<OutputData>, i: int, k: int)
    ensures
        0 <= i < outputs.len() && outputs[i].logical_pos is Some && outputs[i].logical_size is Some
            ==> exists|j: int|
            0 <= j < monitors_of(outputs).len() && monitor_of(outputs[i], i) == Some(
                #[trigger] monitors_of(outputs)[j],
            ),
        0 <= k < monitors_of(outputs).len() ==> 0 <= monitors_of(outputs)[k].index < outputs.len()
            && monitor_of(
            outputs[monitors_of(outputs)[k].index],
            monitors_of(outputs)[k].index,
        ) == Some(monitors_of(outputs)[k]),
        0 <= k && k + 1 < monitors_of(outputs).len() ==> monitors_of(outputs)[k].index
            < monitors_of(outputs)[k + 1].index,
    decreases outputs.len(),
{
    lemma_indices_rise(outputs);
    if outputs.len() > 0 {
        let rest = outputs.drop_last();
        let n = outputs.len() - 1;
        law_monitors_are_the_known_outputs(rest, i, k);
        let (before, after) = (monitors_of(rest), monitors_of(outputs));
        assert(outputs[n] == outputs.last());
        if 0 <= i < n {
            assert(rest[i] == outputs[i]);
            if rest[i].logical_pos is Some && rest[i].logical_size is Some {
                let j = choose|j: int|
                    0 <= j < before.len() && monitor_of(rest[i], i) == Some(#[trigger] before[j]);
                assert(after[j] == before[j]);
            }
        } else if i == n && monitor_of(outputs[n], n) is Some {
            assert(after[before.len() as int] == monitor_of(outputs[n], n)->0);
        }
        if 0 <= k < before.len() {
            assert(after[k] == before[k]);
            assert(rest[before[k].index] == outputs[before[k].index]);
        }
    }
}

fn make_monitor(o: &OutputData, i: usize) -> (r: Option<Monitor>)
    ensures
        match r {
            Some(m) => monitor_of(*o, i as int) == Some(m@),
            None => monitor_of(*o, i as int) is None,
        },
{
    match (o.logical_pos, o.logical_size) {
        (Some((x, y)), Some((w, h))) => {
            let name = match &o.name {
                Some(n) => n.clone(),
                None => {
                    let mut s = owned("output-");
                    let d = text::decimal_chars(i as u64);
                    s.append(text::from_chars(d.as_slice()).as_str());
                    s
                },
            };
            let (pw, ph) = match o.mode {
                Some(m) => m,
                None => (w, h),
            };
            Some(
                Monitor {
                    index: i,
                    name,
                    logical_x: x,
                    logical_y: y,
                    logical_w: w,
                    logical_h: h,
                    pixel_w: pw,
                    pixel_h: ph,
                    scale: if o.scale < 1 {
                        1
                    } else {
                        o.scale
                    },
                },
            )
        },
        _ => None,
    }
}

/// The monitors of the outputs that the compositor reported. It is an error if
/// none can be used.
pub fn monitors(outputs: &[OutputData]) -> (r: Result<Vec<Monitor>, Error>)
    ensures
        match r {
            Ok(list) => monitor_views(list@) == monitors_of(outputs@) && list@.len() > 0,
            Err(Error::WaylandUnavailable(m)) => monitors_of(outputs@).len() == 0 && m@
                == "no usable outputs reported by the compositor"@,
            Err(_) => false,
        },
{
    let mut out: Vec<Monitor> = Vec::new();
    let mut i: usize = 0;
    while i < outputs.len()
        invariant
            i <= outputs@.len(),
            monitor_views(out@) == monitors_of(outputs@.take(i as int)),
        decreases outputs.len() - i,
    {
        let ghost before = monitor_views(out@);
        assert(outputs@.take(i + 1).drop_last() =~= outputs@.take(i as int));
        if let Some(m) = make_monitor(&outputs[i], i) {
            let ghost view = m@;
            out.push(m);
            assert(monitor_views(out@) =~= before.push(view));
        }
        i += 1;
    }
    assert(outputs@.take(i as int) =~= outputs@);
    assert(monitor_views(out@).len() == out@.len());
    if out.len() == 0 {
        return Err(
            Error::WaylandUnavailable(owned("no usable outputs reported by the compositor")),
        );
    }
    Ok(out)
}

// ---- the layout ----

pub open spec fn lesser(a: int, b: int) -> int {
    if a < b {
        a
    } else {
        b
    }
}

pub open spec fn greater(a: int, b: int) -> int {
    if a < b {
        b
    } else {
        a
    }
}

/// The corners `(left, top, right, bottom)` of the smallest rectangle around
/// all monitors.
pub open spec fn corners(list: Seq<Monitor>) -> (int, int, int, int)
    decreases list.len(),
{
    if list.len() == 0 {
        (0, 0, 0, 0)
    } else {
        let m = list.last()@;
        if list.len() == 1 {
            (m.logical_x, m.logical_y, m.logical_x + m.logical_w, m.logical_y + m.logical_h)
        } else {
            let (l, t, r, b) = corners(list.drop_last());
            (
                lesser(l, m.logical_x),
                lesser(t, m.logical_y),
                greater(r, m.logical_x + m.logical_w),
                greater(b, m.logical_y + m.logical_h),
            )
        }
    }
}

/// The position and size of that rectangle.
pub open spec fn bbox(list: Seq<Monitor>) -> (int, int, int, int) {
    let (l, t, r, b) = corners(list);
    (l, t, r - l, b - t)
}

pub fn layout_bbox(monitors: &[Monitor]) -> (r: (i64, i64, i64, i64))
    ensures
        (r.0 as int, r.1 as int, r.2 as int, r.3 as int) == bbox(monitors@),
        -0x1_0000_0000 <= r.2 <= 0x2_0000_0000,
        i32::MIN <= r.0 <= i32::MAX,
        i32::MIN <= r.1 <= i32::MAX,
{
    let mut l: i64 = 0;
    let mut t: i64 = 0;
    let mut r: i64 = 0;
    let mut b: i64 = 0;
    let mut i: usize = 0;
    while i < monitors.len()
        invariant
            i <= monitors@.len(),
            (l as int, t as int, r as int, b as int) == corners(monitors@.take(i as int)),
            i32::MIN <= l <= i32::MAX,
            i32::MIN <= t <= i32::MAX,
            -0x1_0000_0000 <= r <= 0xffff_ffff,
            -0x1_0000_0000 <= b <= 0xffff_ffff,
            i == 0 ==> l == 0 && r == 0,
            i > 0 ==> r >= l - 0x8000_0000,
        decreases monitors.len() - i,
    {
        let m = &monitors[i];
        assert(monitors@.take(i + 1).drop_last() =~= monitors@.take(i as int));
        assert(monitors@.take(i + 1).last() == *m);
        let right: i64 = m.logical_x as i64 + m.logical_w as i64;
        let bottom: i64 = m.logical_y as i64 + m.logical_h as i64;
        if i == 0 {
            l = m.logical_x as i64;
            t = m.logical_y as i64;
            r = right;
            b = bottom;
        } else {
            if (m.logical_x as i64) < l {
                l = m.logical_x as i64;
            }
            if (m.logical_y as i64) < t {
                t = m.logical_y as i64;
            }
            if r < right {
                r = right;
            }
            if b < bottom {
                b = bottom;
            }
        }
        i += 1;
    }
    assert(monitors@.take(i as int) =~= monitors@);
    (l, t, r - l, b - t)
}

/// The rectangle around all monitors holds each of them.
pub proof fn law_bbox_holds_monitors(list: Seq<Monitor>, i: int)
    requires
        0 <= i < list.len(),
    ensures
        ({
            let (x, y, w, h) = bbox(list);
            let m = list[i]@;
            x <= m.logical_x && m.logical_x + m.logical_w <= x + w && y <= m.logical_y
                && m.logical_y + m.logical_h <= y + h
        }),
    decreases list.len(),
{
    if list.len() > 1 && i < list.len() - 1 {
        assert(list.drop_last()[i] == list[i]);
        law_bbox_holds_monitors(list.drop_last(), i);
    }
}

// ---- captures ----

/// A capture: the ratio of captured pixels to the layout as a fraction, and
/// the region of the desktop picture that it was cropped to, if any.
#[derive(Debug)]
pub struct Captured {
    pub pixmap: Pixmap,
    pub scale_num: u32,
    pub scale_den: i64,
    pub region: Option<(i32, i32, u32, u32)>,
}

/// What a capture holds.
#[verifier::ext_equal]
pub struct CapturedView {
    pub pixmap: PixmapView,
    pub scale_num: int,
    pub scale_den: int,
    pub region: Option<(i32, i32, u32, u32)>,
}

impl View for Captured {
    type V = CapturedView;

    open spec fn view(&self) -> CapturedView {
        CapturedView {
            pixmap: self.pixmap@,
            scale_num: self.scale_num as int,
            scale_den: self.scale_den as int,
            region: self.region,
        }
    }
}

/// The scale of a picture of the whole desktop: its width by that of the
/// layout, or one where the layout is unknown or empty.
pub open spec fn layout_scale(width: u32, list: Option<Seq<Monitor>>) -> (int, int) {
    match list {
        Some(list) => if bbox(list).2 <= 0 {
            (1, 1)
        } else {
            (width as int, bbox(list).2)
        },
        None => (1, 1),
    }
}

/// A capture of the full desktop.
pub fn capture_full(pixmap: Pixmap, monitors: Option<&Vec<Monitor>>) -> (r: Captured)
    ensures
        ({
            let s = layout_scale(
                pixmap.width,
                match monitors {
                    Some(m) => Some(m@),
                    None => None,
                },
            );
            r@ == (CapturedView { pixmap: pixmap@, scale_num: s.0, scale_den: s.1, region: None })
        }),
{
    let mut num: u32 = 1;
    let mut den: i64 = 1;
    if let Some(m) = monitors {
        let b = layout_bbox(m.as_slice());
        if b.2 > 0 {
            num = pixmap.width;
            den = b.2;
        }
    }
    Captured { pixmap, scale_num: num, scale_den: den, region: None }
}

/// A capture cropped to a region in image pixels.
pub fn capture_region(full: &Captured, x: i32, y: i32, w: u32, h: u32) -> (r: Result<
    Captured,
    Error,
>)
    requires
        full@.pixmap.wf(),
    ensures
        match r {
            Ok(c) => crop_result(Ok(c.pixmap), full@.pixmap, x, y, w, h) && c@ == (CapturedView {
                pixmap: full@.pixmap.region(x as int, y as int, w, h),
                region: Some((x, y, w, h)),
                ..full@
            }),
            Err(e) => crop_result(Err(e), full@.pixmap, x, y, w, h),
        },
{
    match crop(&full.pixmap, x, y, w, h) {
        Ok(pixmap) => Ok(
            Captured {
                pixmap,
                scale_num: full.scale_num,
                scale_den: full.scale_den,
                region: Some((x, y, w, h)),
            },
        ),
        Err(e) => Err(e),
    }
}

/// `a * (width / layout)`, rounded to a whole number after each step was kept
/// to so many digits. Halves are rounded away from zero.
pub open spec fn signed_scaled(a: int, width: int, layout: int) -> int {
    let q = scaled_by(abs_of(a), width, abs_of(layout), 1, DOUBLE as int);
    if (a < 0) == (layout < 0) {
        q
    } else {
        -q
    }
}

/// A number cut to `[min, max]`.
pub open spec fn within(a: int, min: int, max: int) -> int {
    if a < min {
        min
    } else if a > max {
        max
    } else {
        a
    }
}

/// A length of a layout of width `layout` in pixels of a picture of that
/// width, cut to `[min, max]`. In a layout without width every length but zero
/// is beyond bounds.
pub open spec fn scaled(a: int, width: int, layout: int, min: int, max: int) -> int {
    if layout != 0 {
        within(signed_scaled(a, width, layout), min, max)
    } else if a > 0 {
        max
    } else if a < 0 {
        min
    } else {
        0
    }
}

/// Where monitor `m` lies in a picture of `width` by `height` of a layout in
/// `b`. Layouts of several scales are approximated by a single one.
pub open spec fn region_of(m: MonitorView, b: (int, int, int, int), width: int, height: int) -> (
    int,
    int,
    int,
    int,
) {
    let x = scaled(m.logical_x - b.0, width, b.2, i32::MIN as int, i32::MAX as int);
    let y = scaled(m.logical_y - b.1, width, b.2, i32::MIN as int, i32::MAX as int);
    let w = scaled(m.logical_w, width, b.2, 0, u32::MAX as int);
    let h = scaled(m.logical_h, width, b.2, 0, u32::MAX as int);
    (
        x,
        y,
        lesser(w, greater(width - greater(x, 0), 0)),
        lesser(h, greater(height - greater(y, 0), 0)),
    )
}

fn scale_length(a: i64, width: u32, layout: i64, min: i64, max: i64) -> (r: i64)
    requires
        -0x2_0000_0000 <= a <= 0x2_0000_0000,
        -0x2_0000_0000 <= layout <= 0x2_0000_0000,
        -0x1_0000_0000 <= min <= 0 <= max <= 0x1_0000_0000,
    ensures
        r == scaled(a as int, width as int, layout as int, min as int, max as int),
        min <= r <= max,
{
    if layout == 0 {
        return if a > 0 {
            max
        } else if a < 0 {
            min
        } else {
            0
        };
    }
    let q: u128 = scale_by(abs_i64(a) as u64, width as u64, abs_i64(layout) as u64, 1, DOUBLE);
    let top: i128 = if q > 0x1_0000_0000 {
        0x1_0000_0000
    } else {
        q as i128
    };
    let v: i128 = if (a < 0) == (layout < 0) {
        top
    } else {
        0 - top
    };
    if v < min as i128 {
        min
    } else if v > max as i128 {
        max
    } else {
        v as i64
    }
}

/// The place in the list of the first monitor with that index.
pub open spec fn place_of(list: Seq<Monitor>, index: int) -> Option<int>
    decreases list.len(),
{
    if list.len() == 0 {
        None
    } else {
        match place_of(list.drop_last(), index) {
            Some(i) => Some(i),
            None => if list.last().index == index {
                Some(list.len() - 1)
            } else {
                None
            },
        }
    }
}

proof fn lemma_place_of(list: Seq<Monitor>, index: int)
    ensures
        match place_of(list, index) {
            Some(i) => 0 <= i < list.len() && list[i].index == index,
            None => forall|i: int| 0 <= i < list.len() ==> (#[trigger] list[i]).index != index,
        },
    decreases list.len(),
{
    if list.len() > 0 {
        lemma_place_of(list.drop_last(), index);
        if place_of(list, index) is None {
            assert forall|i: int| 0 <= i < list.len() implies (#[trigger] list[i]).index != index by {
                if i < list.len() - 1 {
                    assert(list.drop_last()[i] == list[i]);
                }
            }
        }
    }
}

/// The place in the list of the monitor with that index.
pub fn find_monitor(monitors: &Vec<Monitor>, index: usize) -> (r: Result<usize, Error>)
    ensures
        match r {
            Ok(i) => i < monitors@.len() && place_of(monitors@, index as int) == Some(i as int),
            Err(e) => place_of(monitors@, index as int) is None && e == Error::MonitorNotFound(
                index,
                monitors@.len() as usize,
            ),
        },
{
    let ghost all = monitors@;
    let mut i: usize = 0;
    while i < monitors.len()
        invariant
            all == monitors@,
            i <= all.len(),
            place_of(all.take(i as int), index as int) is None,
        decreases monitors.len() - i,
    {
        assert(all.take(i + 1).drop_last() =~= all.take(i as int));
        if monitors[i].index == index {
            proof {
                lemma_place_prefix(all, i + 1, index as int);
            }
            return Ok(i);
        }
        i += 1;
    }
    assert(all.take(i as int) =~= all);
    Err(Error::MonitorNotFound(index, monitors.len()))
}

proof fn lemma_place_prefix(list: Seq<Monitor>, n: int, index: int)
    requires
        0 <= n <= list.len(),
        place_of(list.take(n), index) is Some,
    ensures
        place_of(list, index) == place_of(list.take(n), index),
    decreases list.len(),
{
    if n < list.len() {
        assert(list.drop_last().take(n) =~= list.take(n));
        lemma_place_prefix(list.drop_last(), n, index);
    } else {
        assert(list.take(n) =~= list);
    }
}

/// Whether capturing the monitor with that index out of a picture of the
/// desktop may return `r`.
pub open spec fn monitor_capture(
    r: Result<Captured, Error>,
    full: PixmapView,
    list: Seq<Monitor>,
    index: int,
) -> bool {
    let b = bbox(list);
    match place_of(list, index) {
        None => r is Err && r->Err_0 == Error::MonitorNotFound(
            index as usize,
            list.len() as usize,
        ),
        Some(i) => {
            let (x, y, w, h) = region_of(list[i]@, b, full.width as int, full.height as int);
            match r {
                Ok(c) => crop_result(Ok(c.pixmap), full, x as i32, y as i32, w as u32, h as u32)
                    && c@ == (CapturedView {
                    pixmap: full.region(x, y, w as u32, h as u32),
                    scale_num: full.width as int,
                    scale_den: b.2,
                    region: Some((x as i32, y as i32, w as u32, h as u32)),
                }),
                Err(e) => crop_result(Err(e), full, x as i32, y as i32, w as u32, h as u32),
            }
        },
    }
}

/// A capture of one monitor, cropped out of a picture of the full desktop. The
/// index is the one that the monitor carries.
pub fn capture_monitor(full: &Pixmap, monitors: &Vec<Monitor>, index: usize) -> (r: Result<
    Captured,
    Error,
>)
    requires
        full@.wf(),
    ensures
        monitor_capture(r, full@, monitors@, index as int),
{
    let i: usize = match find_monitor(monitors, index) {
        Ok(i) => i,
        Err(e) => {
            return Err(e);
        },
    };
    let b = layout_bbox(monitors.as_slice());
    let m = &monitors[i];
    let (lo, hi): (i64, i64) = (i32::MIN as i64, i32::MAX as i64);
    let x: i64 = scale_length(m.logical_x as i64 - b.0, full.width, b.2, lo, hi);
    let y: i64 = scale_length(m.logical_y as i64 - b.1, full.width, b.2, lo, hi);
    let w: i64 = scale_length(m.logical_w as i64, full.width, b.2, 0, u32::MAX as i64);
    let h: i64 = scale_length(m.logical_h as i64, full.width, b.2, 0, u32::MAX as i64);
    let w: i64 = cut(w, full.width, x);
    let h: i64 = cut(h, full.height, y);
    match crop(full, x as i32, y as i32, w as u32, h as u32) {
        Ok(pixmap) => Ok(
            Captured {
                pixmap,
                scale_num: full.width,
                scale_den: b.2,
                region: Some((x as i32, y as i32, w as u32, h as u32)),
            },
        ),
        Err(e) => Err(e),
    }
}

/// A length cut to what is left of `size` behind `from`.
fn cut(length: i64, size: u32, from: i64) -> (r: i64)
    requires
        0 <= length <= u32::MAX,
        i32::MIN <= from <= i32::MAX,
    ensures
        r == lesser(length as int, greater(size - greater(from as int, 0), 0)),
        0 <= r <= u32::MAX,
{
    let start: i64 = if from < 0 {
        0
    } else {
        from
    };
    let room: i64 = if size as i64 > start {
        size as i64 - start
    } else {
        0
    };
    if length < room {
        length
    } else {
        room
    }
}

proof fn lemma_scaled(a: int, width: int, layout: int, min: int, max: int)
    requires
        0 <= a,
        0 <= width,
        0 < layout,
        min <= 0 <= max,
    ensures
        0 <= scaled(a, width, layout, min, max) <= max,
{
    lemma_scaled_by(a, width, layout, 1, DOUBLE as int);
}

/// A monitor's region never reaches out of the picture: capturing it fails
/// only where nothing of it is left.
pub proof fn law_monitor_region_fits(list: Seq<Monitor>, i: int, width: int, height: int)
    requires
        0 <= i < list.len(),
        0 < bbox(list).2,
        0 < width <= u32::MAX,
        0 < height <= u32::MAX,
    ensures
        ({
            let (x, y, w, h) = region_of(list[i]@, bbox(list), width, height);
            0 <= x && 0 <= y && 0 <= w && 0 <= h && (w > 0 ==> x + w <= width) && (h > 0 ==> y + h
                <= height)
        }),
{
    let m = list[i]@;
    let b = bbox(list);
    law_bbox_holds_monitors(list, i);
    lemma_scaled(m.logical_x - b.0, width, b.2, i32::MIN as int, i32::MAX as int);
    lemma_scaled(m.logical_y - b.1, width, b.2, i32::MIN as int, i32::MAX as int);
}

/// The rectangle around all monitors is no larger than it has to be: on each
/// side some monitor touches it.
pub proof fn law_bbox_is_tight(list: Seq<Monitor>)
    requires
        list.len() > 0,
    ensures
        exists|i: int| 0 <= i < list.len() && bbox(list).0 == (#[trigger] list[i]).logical_x,
        exists|i: int| 0 <= i < list.len() && bbox(list).1 == (#[trigger] list[i]).logical_y,
        exists|i: int|
            0 <= i < list.len() && bbox(list).0 + bbox(list).2 == (#[trigger] list[i]).logical_x
                + list[i].logical_w,
        exists|i: int|
            0 <= i < list.len() && bbox(list).1 + bbox(list).3 == (#[trigger] list[i]).logical_y
                + list[i].logical_h,
    decreases list.len(),
{
    let n = list.len() - 1;
    let last = list[n];
    assert(last == list.last());
    if n > 0 {
        let rest = list.drop_last();
        law_bbox_is_tight(rest);
        let (x, y, w, h) = bbox(rest);
        let l = choose|i: int| 0 <= i < rest.len() && x == (#[trigger] rest[i]).logical_x;
        let t = choose|i: int| 0 <= i < rest.len() && y == (#[trigger] rest[i]).logical_y;
        let r = choose|i: int|
            0 <= i < rest.len() && x + w == (#[trigger] rest[i]).logical_x + rest[i].logical_w;
        let b = choose|i: int|
            0 <= i < rest.len() && y + h == (#[trigger] rest[i]).logical_y + rest[i].logical_h;
        assert(rest[l] == list[l] && rest[t] == list[t] && rest[r] == list[r] && rest[b] == list[b]);
    }
}

/// `v` is the nearest whole number to `a * width / layout`, up to fifty binary
/// digits of it.
pub open spec fn lies_at(v: int, a: int, width: int, layout: int) -> bool {
    -(0x10_0000_0000_0000 * layout + 3 * (a * width)) <= 0x20_0000_0000_0000 * (v * layout - a
        * width) <= 0x10_0000_0000_0000 * layout + 3 * (a * width)
}

proof fn lemma_lies_at(a: int, width: int, layout: int, min: int, max: int)
    requires
        0 <= a <= 0x2_0000_0000,
        0 <= width <= u32::MAX,
        0 < layout <= 0x2_0000_0000,
        min <= 0 <= max,
    ensures
        0 <= scaled(a, width, layout, min, max) <= max,
        scaled(a, width, layout, min, max) < max ==> lies_at(
            scaled(a, width, layout, min, max),
            a,
            width,
            layout,
        ),
        width == layout ==> scaled(a, width, layout, min, max) == (if a < max {
            a
        } else {
            max
        }),
{
    lemma_scaled_by(a, width, layout, 1, DOUBLE as int);
    law_scaled_is_close(a, width, layout, 1, DOUBLE as int);
    if width == layout {
        law_scaled_by_whole(a, width, layout, DOUBLE as int, 1);
    }
}

/// A monitor's region begins where the monitor lies relative to the corner of
/// the layout and is as large as the monitor, both scaled by the width of the
/// picture to that of the layout, and cut off where the picture ends.
pub proof fn law_region_is_where_the_monitor_lies(
    list: Seq<Monitor>,
    i: int,
    width: int,
    height: int,
)
    requires
        0 <= i < list.len(),
        list[i].logical_w >= 0,
        list[i].logical_h >= 0,
        0 < bbox(list).2,
        0 < width <= u32::MAX,
        0 < height <= u32::MAX,
    ensures
        ({
            let (left, top, layout, _) = bbox(list);
            let m = list[i];
            let (x, y, w, h) = region_of(m@, bbox(list), width, height);
            &&& x < i32::MAX ==> lies_at(x, m.logical_x - left, width, layout)
            &&& y < i32::MAX ==> lies_at(y, m.logical_y - top, width, layout)
            &&& w < width - x && w < u32::MAX ==> lies_at(w, m.logical_w as int, width, layout)
            &&& h < height - y && h < u32::MAX ==> lies_at(h, m.logical_h as int, width, layout)
        }),
{
    let b = bbox(list);
    let m = list[i];
    law_bbox_holds_monitors(list, i);
    lemma_bbox_bounds(list);
    lemma_lies_at(m.logical_x - b.0, width, b.2, i32::MIN as int, i32::MAX as int);
    lemma_lies_at(m.logical_y - b.1, width, b.2, i32::MIN as int, i32::MAX as int);
    lemma_lies_at(m.logical_w as int, width, b.2, 0, u32::MAX as int);
    lemma_lies_at(m.logical_h as int, width, b.2, 0, u32::MAX as int);
}

proof fn lemma_bbox_bounds(list: Seq<Monitor>)
    requires
        list.len() > 0,
    ensures
        i32::MIN <= bbox(list).0 <= i32::MAX,
        i32::MIN <= bbox(list).1 <= i32::MAX,
        bbox(list).2 <= 0x2_0000_0000,
{
    law_bbox_is_tight(list);
}

/// In a picture with a pixel for each unit of the layout, a monitor's region is
/// the monitor itself, moved by the corner of the layout.
pub proof fn law_one_to_one_region(list: Seq<Monitor>, i: int, width: int, height: int)
    requires
        0 <= i < list.len(),
        list[i].logical_w >= 0,
        list[i].logical_h >= 0,
        width == bbox(list).2,
        height == bbox(list).3,
        0 < width <= i32::MAX,
        0 < height <= i32::MAX,
    ensures
        region_of(list[i]@, bbox(list), width, height) == (
            list[i].logical_x - bbox(list).0,
            list[i].logical_y - bbox(list).1,
            list[i].logical_w as int,
            list[i].logical_h as int,
        ),
{
    let b = bbox(list);
    let m = list[i];
    law_bbox_holds_monitors(list, i);
    lemma_bbox_bounds(list);
    lemma_lies_at(m.logical_x - b.0, width, b.2, i32::MIN as int, i32::MAX as int);
    lemma_lies_at(m.logical_y - b.1, width, b.2, i32::MIN as int, i32::MAX as int);
    lemma_lies_at(m.logical_w as int, width, b.2, 0, u32::MAX as int);
    lemma_lies_at(m.logical_h as int, width, b.2, 0, u32::MAX as int);
}

/// Capturing a monitor with pixels, out of a picture with a pixel for each unit
/// of the layout, gives the pixels of the picture that lie on the monitor.
pub proof fn law_monitor_capture_shows_the_monitor(
    r: Result<Captured, Error>,
    full: PixmapView,
    list: Seq<Monitor>,
    i: int,
    px: int,
    py: int,
    c: int,
)
    requires
        0 <= i < list.len(),
        forall|j: int| 0 <= j < i ==> (#[trigger] list[j]).index != list[i].index,
        monitor_capture(r, full, list, list[i].index as int),
        full.width == bbox(list).2,
        full.height == bbox(list).3,
        full.width <= i32::MAX,
        full.height <= i32::MAX,
        0 <= px < list[i].logical_w,
        0 <= py < list[i].logical_h,
        0 <= c < 4,
    ensures
        r is Ok,
        r->Ok_0.pixmap.width == list[i].logical_w,
        r->Ok_0.pixmap.height == list[i].logical_h,
        r->Ok_0.pixmap.data@[(py * list[i].logical_w + px) * 4 + c] == full.data[((list[i].logical_y
            - bbox(list).1 + py) * full.width + (list[i].logical_x - bbox(list).0 + px)) * 4 + c],
        r->Ok_0.scale_num == full.width && r->Ok_0.scale_den == bbox(list).2,
        r->Ok_0.region matches Some((x, y, w, h)) && x == list[i].logical_x - bbox(list).0 && y
            == list[i].logical_y - bbox(list).1 && w == list[i].logical_w && h == list[i].logical_h,
{
    let m = list[i];
    lemma_first_place(list, i);
    law_bbox_holds_monitors(list, i);
    law_one_to_one_region(list, i, full.width as int, full.height as int);
    let (x, y, w, h) = region_of(m@, bbox(list), full.width as int, full.height as int);
    assert(full.has_region(x, y, w, h));
    law_crop_keeps_pixels(full, x, y, w as u32, h as u32, px, py, c);
}

proof fn lemma_first_place(list: Seq<Monitor>, i: int)
    requires
        0 <= i < list.len(),
        forall|j: int| 0 <= j < i ==> (#[trigger] list[j]).index != list[i].index,
    ensures
        place_of(list, list[i].index as int) == Some(i),
{
    let head = list.take(i + 1);
    let index = list[i].index as int;
    assert(head.drop_last() =~= list.take(i));
    lemma_place_of(list.take(i), index);
    if place_of(list.take(i), index) is Some {
        let j = place_of(list.take(i), index)->0;
        assert(list.take(i)[j] == list[j]);
    }
    assert(head.last() == list[i]);
    lemma_place_prefix(list, i + 1, index);
}

/// The index that a reported monitor carries finds that monitor.
pub proof fn law_reported_monitor_is_found(outputs: Seq<OutputData>, list: Seq<Monitor>, i: int)
    requires
        monitor_views(list) == monitors_of(outputs),
        0 <= i < list.len(),
    ensures
        place_of(list, list[i].index as int) == Some(i),
{
    lemma_indices_rise(outputs);
    assert forall|a: int, b: int| 0 <= a < b < list.len() implies (#[trigger] list[a]).index
        < (#[trigger] list[b]).index by {
        assert(monitor_views(list)[a] == list[a]@);
        assert(monitor_views(list)[b] == list[b]@);
    }
    lemma_place_of(list, list[i].index as int);
    if place_of(list, list[i].index as int) is None {
        assert(list[i].index != list[i].index as int);
    }
}

proof fn lemma_indices_rise(outputs: Seq<OutputData>)
    ensures
        ({
            let list = monitors_of(outputs);
            &&& forall|i: int| 0 <= i < list.len() ==> (#[trigger] list[i]).index < outputs.len()
            &&& forall|a: int, b: int|
                0 <= a < b < list.len() ==> (#[trigger] list[a]).index < (#[trigger] list[b]).index
        }),
    decreases outputs.len(),
{
    if outputs.len() > 0 {
        lemma_indices_rise(outputs.drop_last());
        let rest = monitors_of(outputs.drop_last());
        let list = monitors_of(outputs);
        assert forall|i: int| 0 <= i < list.len() implies (#[trigger] list[i]).index
            < outputs.len() && (i < rest.len() ==> list[i] == rest[i]) && (i >= rest.len()
            ==> list[i].index == outputs.len() - 1) by {
            if i < rest.len() {
                assert(list[i] == rest[i]);
            }
        }
        assert forall|a: int, b: int| 0 <= a < b < list.len() implies (#[trigger] list[a]).index
            < (#[trigger] list[b]).index by {
            if b < rest.len() {
                assert(rest[a].index < rest[b].index);
            } else {
                assert(rest[a].index < outputs.len() - 1);
            }
        }
    }
}

// ---- the portal ----

/// Why the portal gave no picture.
pub fn capture_error(refused: bool, message: &str) -> (r: Error)
    ensures
        match r {
            Error::PortalDenied => refused,
            Error::PortalUnavailable(m) => !refused && m@ == message@,
            _ => false,
        },
{
    if refused {
        Error::PortalDenied
    } else {
        Error::PortalUnavailable(owned(message))
    }
}

/// Whether the place that the portal put a picture at may give `r`.
pub open spec fn portal_place(
    r: Result<String, Error>,
    scheme: Seq<char>,
    uri: Seq<char>,
    path: Option<String>,
) -> bool {
    match r {
        Ok(p) => scheme == "file"@ && path is Some && p@ == path->0@,
        Err(Error::PortalUnavailable(m)) => if scheme != "file"@ {
            m@ == "portal returned non-file URI: "@ + uri
        } else {
            path is None && m@ == "unusable portal URI: "@ + uri
        },
        Err(_) => false,
    }
}

/// The file that the portal put a picture into. Only local files can be read.
pub fn portal_file(scheme: &str, uri: &str, path: Option<String>) -> (r: Result<String, Error>)
    ensures
        portal_place(r, scheme@, uri@, path),
{
    if !text::same_text(scheme, "file") {
        let mut m = owned("portal returned non-file URI: ");
        m.append(uri);
        return Err(Error::PortalUnavailable(m));
    }
    match path {
        Some(p) => Ok(p),
        None => {
            let mut m = owned("unusable portal URI: ");
            m.append(uri);
            Err(Error::PortalUnavailable(m))
        },
    }
}

/// A picture has as many pixels for each unit of the layout as it is wider than
/// the layout, and one where no layout is known.
pub proof fn law_scale_is_pixels_per_unit(width: u32, list: Seq<Monitor>)
    ensures
        layout_scale(width, None) == (1int, 1int),
        bbox(list).2 > 0 ==> layout_scale(width, Some(list)).0 == width && layout_scale(
            width,
            Some(list),
        ).1 == bbox(list).2,
        bbox(list).2 <= 0 ==> layout_scale(width, Some(list)) == (1int, 1int),
{
}

} // verus!
