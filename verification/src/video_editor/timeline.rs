//! The timeline: ruler, video lane, zoom lane, waveform and captions. All
//! lanes share one mapping between positions and times. Positions and lengths
//! are 1/256 pixels, times are nanoseconds.
use vstd::prelude::*;
use crate::math::{abs_of, fixed_chars, fixed_text, floor_div, max_of, min_of, nearest};
use crate::srt::{Cue, CUE_LIMIT};
use crate::text;
use crate::video::ZoomPoint;
use crate::video_editor::state::{Selection, VideoSegment};

verus! {

/// One pixel.
pub const PX: i64 = 256;

pub const RULER_H: i64 = 20;

pub const VIDEO_LANE_H: i64 = 40;

pub const ZOOM_LANE_H: i64 = 22;

pub const AUDIO_LANE_H: i64 = 28;

pub const CAPTION_LANE_H: i64 = 18;

pub const LANE_GAP: i64 = 1;

/// The height of the timeline in pixels: all lanes and the gaps between them.
pub const TIMELINE_H: i64 = 132;

/// How close to an edge a press must be to drag it, in 1/256 pixels.
pub const EDGE_HIT: i64 = 1536;

/// The shortest duration that is laid out.
pub const MIN_DURATION: i64 = 10_000_000;

/// Where the timeline lies in the window.
#[derive(Clone, Copy, PartialEq, Eq, Structural, Debug)]
pub struct TimelineRect {
    pub left: i32,
    pub width: i32,
}

/// The duration that is laid out.
pub open spec fn laid_out(duration: int) -> int {
    max_of(duration, MIN_DURATION as int)
}

impl TimelineRect {
    /// The position of a time.
    pub open spec fn x_of(self, t: int, duration: int) -> int {
        self.left + t * self.width / laid_out(duration)
    }

    /// The width that positions are measured by: at least one pixel.
    pub open spec fn span(self) -> int {
        max_of(self.width as int, PX as int)
    }

    /// The time at a position; positions beside the timeline are its ends.
    pub open spec fn time_of(self, x: int, duration: int) -> int {
        let at = max_of(0, min_of(x - self.left, self.span()));
        at * duration / self.span()
    }

    /// The position of a time.
    pub fn time_to_x(&self, t: i64, duration: i64) -> (r: i128)
        ensures
            r == self.x_of(t as int, duration as int),
            -0x1_0000_0000_0000_0000_0000_0000_0000 <= r <= 0x1_0000_0000_0000_0000_0000_0000_0000,
    {
        let d: i128 = if duration < MIN_DURATION {
            MIN_DURATION as i128
        } else {
            duration as i128
        };
        proof {
            let (a, b) = (t as int, self.width as int);
            assert(-0x8000_0000_0000_0000 * 0x8000_0000 <= a * b <= 0x8000_0000_0000_0000
                * 0x8000_0000) by (nonlinear_arith)
                requires
                    -0x8000_0000_0000_0000 <= a <= 0x8000_0000_0000_0000,
                    -0x8000_0000 <= b <= 0x8000_0000,
            ;
            let p = a * b;
            assert(-0x8000_0000_0000_0000 * 0x8000_0000 <= p / (d as int) <= 0x8000_0000_0000_0000
                * 0x8000_0000) by (nonlinear_arith)
                requires
                    -0x8000_0000_0000_0000 * 0x8000_0000 <= p <= 0x8000_0000_0000_0000
                        * 0x8000_0000,
                    d >= 1,
            ;
        }
        self.left as i128 + floor_div(t as i128 * self.width as i128, d)
    }

    /// The position of a time that may lie far from the video.
    fn wide_to_x(&self, t: i128, duration: i64) -> (r: i128)
        requires
            -CUE_LIMIT <= t <= CUE_LIMIT,
        ensures
            r == self.x_of(t as int, duration as int),
            -CUE_LIMIT * 0x8000_0001 <= r <= CUE_LIMIT * 0x8000_0001,
    {
        let d: i128 = if duration < MIN_DURATION {
            MIN_DURATION as i128
        } else {
            duration as i128
        };
        proof {
            let (a, b, l) = (t as int, self.width as int, CUE_LIMIT as int);
            assert(-l * 0x8000_0000 <= a * b <= l * 0x8000_0000) by (nonlinear_arith)
                requires
                    -l <= a <= l,
                    -0x8000_0000 <= b <= 0x8000_0000,
            ;
            let p = a * b;
            assert(-l * 0x8000_0000 <= p / (d as int) <= l * 0x8000_0000) by (nonlinear_arith)
                requires
                    -l * 0x8000_0000 <= p <= l * 0x8000_0000,
                    l > 0,
                    d >= 1,
            ;
        }
        self.left as i128 + floor_div(t * self.width as i128, d)
    }

    /// The time at a position of the window.
    pub fn x_to_time(&self, window_x: i32, duration: i64) -> (r: i64)
        requires
            duration >= 0,
        ensures
            r == self.time_of(window_x as int, duration as int),
            0 <= r <= duration,
    {
        let span: i64 = if (self.width as i64) < PX {
            PX
        } else {
            self.width as i64
        };
        let off: i64 = window_x as i64 - self.left as i64;
        let at: i64 = if off < 0 {
            0
        } else if off > span {
            span
        } else {
            off
        };
        proof {
            assert(0 <= at * duration <= span * duration <= 0x8000_0000 * 0x8000_0000_0000_0000)
                by (nonlinear_arith)
                requires
                    0 <= at <= span <= 0x8000_0000,
                    0 <= duration <= 0x8000_0000_0000_0000,
            ;
            assert(0 <= at * duration / span as int <= duration) by (nonlinear_arith)
                requires
                    0 <= at * duration <= span * duration,
                    span > 0,
            ;
        }
        (at as i128 * duration as i128 / span as i128) as i64
    }
}

/// The timeline spans the window.
pub fn timeline_rect(window_width: i32) -> (r: TimelineRect)
    ensures
        r == (TimelineRect { left: 0, width: window_width }),
{
    TimelineRect { left: 0, width: window_width }
}

/// Going from a time to its position and back never gets past the time, and
/// loses less than two 1/256 pixels' worth of it.
pub proof fn law_positions_keep_times(rect: TimelineRect, t: int, duration: int)
    requires
        rect.width >= PX,
        duration >= MIN_DURATION,
        0 <= t <= duration,
    ensures
        rect.time_of(rect.x_of(t, duration), duration) <= t,
        (t - rect.time_of(rect.x_of(t, duration), duration)) * rect.width < duration
            + rect.width,
{
    let w = rect.width as int;
    let q = t * w / duration;
    let r = t * w - q * duration;
    assert(0 <= r < duration && 0 <= q <= w) by (nonlinear_arith)
        requires
            q == t * w / duration,
            r == t * w - q * duration,
            0 <= t <= duration,
            w > 0,
            duration > 0,
    ;
    let back = q * duration / w;
    assert(rect.time_of(rect.x_of(t, duration), duration) == back);
    assert(back <= t && (t - back) * w < duration + w) by (nonlinear_arith)
        requires
            back == q * duration / w,
            r == t * w - q * duration,
            0 <= r < duration,
            w > 0,
    ;
}

/// The positions of the two ends of a video are the ends of the timeline.
pub proof fn law_ends_map_to_ends(rect: TimelineRect, duration: int)
    requires
        rect.width >= PX,
        duration >= MIN_DURATION,
    ensures
        rect.x_of(0, duration) == rect.left,
        rect.x_of(duration, duration) == rect.left + rect.width,
        rect.time_of(rect.left as int, duration) == 0,
        rect.time_of(rect.left + rect.width, duration) == duration,
{
    let w = rect.width as int;
    assert(0 * w / duration == 0 && duration * w / duration == w && 0 * duration / w == 0 && w
        * duration / w == duration) by (nonlinear_arith)
        requires
            w > 0,
            duration > 0,
    ;
}

// ---- the ruler ----

/// The distances between ticks that the ruler picks from.
pub open spec fn ladder(i: int) -> int {
    if i <= 0 {
        500_000_000
    } else if i == 1 {
        1_000_000_000
    } else if i == 2 {
        2_000_000_000
    } else if i == 3 {
        5_000_000_000
    } else if i == 4 {
        10_000_000_000
    } else if i == 5 {
        15_000_000_000
    } else if i == 6 {
        30_000_000_000
    } else if i == 7 {
        60_000_000_000
    } else if i == 8 {
        120_000_000_000
    } else {
        300_000_000_000
    }
}

fn ladder_step(i: usize) -> (r: i64)
    ensures
        r == ladder(i as int),
        500_000_000 <= r <= 300_000_000_000,
{
    if i == 0 {
        500_000_000
    } else if i == 1 {
        1_000_000_000
    } else if i == 2 {
        2_000_000_000
    } else if i == 3 {
        5_000_000_000
    } else if i == 4 {
        10_000_000_000
    } else if i == 5 {
        15_000_000_000
    } else if i == 6 {
        30_000_000_000
    } else if i == 7 {
        60_000_000_000
    } else if i == 8 {
        120_000_000_000
    } else {
        300_000_000_000
    }
}

/// A tick takes at least this much room: 60 pixels.
pub const TICK_ROOM: i64 = 15_360;

/// Ticks at that distance leave each other room, or there are no more than
/// two intervals.
pub open spec fn roomy(interval: int, duration: int, width: int) -> bool {
    duration * TICK_ROOM <= interval * max_of(width, 2 * TICK_ROOM)
}

/// The first distance from `i` on that leaves room, or the last one.
pub open spec fn tick_from(i: int, duration: int, width: int) -> int
    decreases 9 - i,
{
    if i >= 9 || roomy(ladder(i), duration, width) {
        ladder(i)
    } else {
        tick_from(i + 1, duration, width)
    }
}

/// The distance between the ticks of the ruler.
pub fn pick_tick_interval(duration: i64, width: i32) -> (r: i64)
    ensures
        r == tick_from(0, duration as int, width as int),
        500_000_000 <= r <= 300_000_000_000,
{
    let room: i64 = if (width as i64) < 2 * TICK_ROOM {
        2 * TICK_ROOM
    } else {
        width as i64
    };
    let mut i: usize = 0;
    while i < 9
        invariant
            i <= 9,
            room == max_of(width as int, 2 * TICK_ROOM),
            tick_from(i as int, duration as int, width as int) == tick_from(
                0,
                duration as int,
                width as int,
            ),
        decreases 9 - i,
    {
        let step: i64 = ladder_step(i);
        proof {
            assert(0 <= step * room <= 300_000_000_000 * 0x8000_0000) by (nonlinear_arith)
                requires
                    0 <= step <= 300_000_000_000,
                    0 <= room <= 0x8000_0000,
            ;
        }
        if duration as i128 * 15_360 <= step as i128 * room as i128 {
            return step;
        }
        i += 1;
    }
    ladder_step(9)
}

/// A time as minutes and seconds, rounded to the nearest second.
pub open spec fn mmss_text(t: int) -> Seq<char> {
    let s = nearest(max_of(t, 0), 1_000_000_000);
    text::decimal((s / 60) as nat) + seq![':'] + text::zero_pad(text::decimal((s % 60) as nat), 2)
}

pub fn fmt_mmss(t: i64) -> (r: String)
    ensures
        r@ == mmss_text(t as int),
{
    let t: i128 = if t < 0 {
        0
    } else {
        t as i128
    };
    assert(nearest(t as int, 1_000_000_000) == (2 * t + 1_000_000_000) / 2_000_000_000);
    let s: u64 = ((2 * t + 1_000_000_000) / 2_000_000_000) as u64;
    let mut out = text::decimal_chars(s / 60);
    out.push(':');
    let sec = text::padded_chars(s % 60, 2);
    text::append_chars(&mut out, sec.as_slice());
    assert(out@ =~= mmss_text(t as int));
    text::from_chars(out.as_slice())
}

/// A tick of the ruler: its position and its label.
#[derive(Debug)]
pub struct Tick {
    pub x: i128,
    pub label: String,
}

/// Whether the ruler of a video has these ticks.
pub open spec fn ruler_is(ticks: Seq<Tick>, rect: TimelineRect, duration: int) -> bool {
    let d = laid_out(duration);
    let interval = tick_from(0, d, rect.width as int);
    &&& ticks.len() == d / interval + 1
    &&& forall|k: int|
        0 <= k < ticks.len() ==> (#[trigger] ticks[k]).x == rect.x_of(k * interval, d)
            && ticks[k].label@ == mmss_text(k * interval)
}

/// The ticks of the ruler: one at each multiple of the interval, from the
/// start to the end.
pub fn ruler_ticks(rect: &TimelineRect, duration: i64) -> (r: Vec<Tick>)
    ensures
        ruler_is(r@, *rect, duration as int),
{
    let d: i64 = if duration < MIN_DURATION {
        MIN_DURATION
    } else {
        duration
    };
    let interval: i64 = pick_tick_interval(d, rect.width);
    let mut ticks: Vec<Tick> = Vec::new();
    let mut t: i128 = 0;
    let mut k: i128 = 0;
    while t <= d as i128
        invariant
            500_000_000 <= interval <= 300_000_000_000,
            d >= MIN_DURATION,
            k == ticks@.len(),
            t == k * interval,
            0 <= k <= d + 1,
            k > 0 ==> (k - 1) * interval <= d,
            forall|j: int|
                0 <= j < ticks@.len() ==> (#[trigger] ticks@[j]).x == rect.x_of(
                    j * interval,
                    d as int,
                ) && ticks@[j].label@ == mmss_text(j * interval),
        decreases d - t + interval,
    {
        let at: i64 = t as i64;
        proof {
            assert(k <= d) by (nonlinear_arith)
                requires
                    k * interval <= d,
                    interval >= 1,
                    k >= 0,
            ;
            assert((k + 1) * interval == k * interval + interval) by (nonlinear_arith);
        }
        let label = fmt_mmss(at);
        ticks.push(Tick { x: rect.time_to_x(at, d), label });
        t = t + interval as i128;
        k = k + 1;
    }
    assert(k == d as int / interval as int + 1) by (nonlinear_arith)
        requires
            k * interval > d,
            (k - 1) * interval <= d,
            interval > 0,
            k > 0,
    ;
    ticks
}

// ---- the lanes ----

/// A box in a lane: its left edge and its width.
#[derive(Clone, Copy, PartialEq, Eq, Structural, Debug)]
pub struct Span {
    pub left: i128,
    pub width: i128,
}

/// The box from one time to another, of at least the given width.
pub open spec fn span_is(s: Span, rect: TimelineRect, a: int, b: int, duration: int, least: int) -> bool {
    &&& s.left == rect.x_of(a, duration)
    &&& s.width == max_of(rect.x_of(b, duration) - rect.x_of(a, duration), least)
}

fn time_span(rect: &TimelineRect, a: i128, b: i128, duration: i64, least: i64) -> (r: Span)
    requires
        -CUE_LIMIT <= a <= CUE_LIMIT,
        -CUE_LIMIT <= b <= CUE_LIMIT,
    ensures
        span_is(r, *rect, a as int, b as int, duration as int, least as int),
{
    let x0: i128 = rect.wide_to_x(a, duration);
    let x1: i128 = rect.wide_to_x(b, duration);
    let w: i128 = x1 - x0;
    Span {
        left: x0,
        width: if w < least as i128 {
            least as i128
        } else {
            w
        },
    }
}

/// A segment in the video lane.
#[derive(Clone, Copy, PartialEq, Eq, Structural, Debug)]
pub struct SegmentCell {
    pub span: Span,
    pub removed: bool,
    pub selected: bool,
}

/// The segments in the video lane.
pub fn segment_cells(
    rect: &TimelineRect,
    segments: &Vec<VideoSegment>,
    selection: Selection,
    duration: i64,
) -> (r: Vec<SegmentCell>)
    ensures
        r@.len() == segments@.len(),
        forall|i: int|
            0 <= i < r@.len() ==> segment_cell_is(
                #[trigger] r@[i],
                *rect,
                segments@[i],
                selection == Selection::VideoSegment(i as usize),
                duration as int,
            ),
{
    let mut out: Vec<SegmentCell> = Vec::new();
    let mut i: usize = 0;
    while i < segments.len()
        invariant
            i <= segments@.len(),
            out@.len() == i,
            forall|k: int|
                0 <= k < i ==> span_is(
                    (#[trigger] out@[k]).span,
                    *rect,
                    segments@[k].start as int,
                    segments@[k].end as int,
                    duration as int,
                    PX as int,
                ) && out@[k].removed == segments@[k].removed && out@[k].selected == (selection
                    == Selection::VideoSegment(k as usize)),
        decreases segments.len() - i,
    {
        let seg = segments[i];
        out.push(
            SegmentCell {
                span: time_span(rect, seg.start as i128, seg.end as i128, duration, PX),
                removed: seg.removed,
                selected: selection == Selection::VideoSegment(i),
            },
        );
        i += 1;
    }
    out
}

/// A zoom in its lane.
#[derive(Debug)]
pub struct ZoomCell {
    pub span: Span,
    pub label: String,
    pub selected: bool,
}

/// A level with one decimal and a times sign.
pub open spec fn level_label(level: int) -> Seq<char> {
    fixed_text(level, 1_000_000, 10, 1).push('\u{d7}')
}

fn level_text(level: u32) -> (r: String)
    ensures
        r@ == level_label(level as int),
{
    let mut c = fixed_chars(level as i64, 1_000_000, 10, 1);
    c.push('\u{d7}');
    text::from_chars(c.as_slice())
}

/// The zooms in their lane.
pub fn zoom_cells(
    rect: &TimelineRect,
    zooms: &Vec<ZoomPoint>,
    selection: Selection,
    duration: i64,
) -> (r: Vec<ZoomCell>)
    ensures
        r@.len() == zooms@.len(),
        forall|i: int|
            0 <= i < r@.len() ==> zoom_cell_is(
                #[trigger] r@[i],
                *rect,
                zooms@[i],
                selection == Selection::Zoom(i as usize),
                duration as int,
            ),
{
    let mut out: Vec<ZoomCell> = Vec::new();
    let mut i: usize = 0;
    while i < zooms.len()
        invariant
            i <= zooms@.len(),
            out@.len() == i,
            forall|k: int|
                0 <= k < i ==> span_is(
                    (#[trigger] out@[k]).span,
                    *rect,
                    zooms@[k].start(),
                    zooms@[k].end(),
                    duration as int,
                    2 * PX,
                ) && out@[k].label@ == level_label(zooms@[k].level as int) && out@[k].selected == (
                selection == Selection::Zoom(k as usize)),
        decreases zooms.len() - i,
    {
        let z = zooms[i];
        let w = z.wide_window();
        out.push(
            ZoomCell {
                span: time_span(rect, w.0, w.1, duration, 2 * PX),
                label: level_text(z.level),
                selected: selection == Selection::Zoom(i),
            },
        );
        i += 1;
    }
    out
}

/// The captions in their lane.
pub fn cue_spans(rect: &TimelineRect, cues: &Vec<Cue>, duration: i64) -> (r: Vec<Span>)
    requires
        forall|i: int| 0 <= i < cues@.len() ==> (#[trigger] cues@[i]).fits(),
    ensures
        r@.len() == cues@.len(),
        forall|i: int|
            0 <= i < r@.len() ==> span_is(
                #[trigger] r@[i],
                *rect,
                cues@[i].start as int,
                cues@[i].end as int,
                duration as int,
                2 * PX,
            ),
{
    let mut out: Vec<Span> = Vec::new();
    let mut i: usize = 0;
    while i < cues.len()
        invariant
            forall|i: int| 0 <= i < cues@.len() ==> (#[trigger] cues@[i]).fits(),
            i <= cues@.len(),
            out@.len() == i,
            forall|k: int|
                0 <= k < i ==> span_is(
                    #[trigger] out@[k],
                    *rect,
                    cues@[k].start as int,
                    cues@[k].end as int,
                    duration as int,
                    2 * PX,
                ),
        decreases cues.len() - i,
    {
        assert(cues@[i as int].fits());
        out.push(time_span(rect, cues[i].start, cues[i].end, duration, 2 * PX));
        i += 1;
    }
    out
}

/// Where a thumbnail of `t` out of `count` lies: centred at its time, as wide
/// as its share of the timeline.
pub open spec fn thumb_is(s: Span, rect: TimelineRect, t: int, count: int, duration: int) -> bool {
    let slot = max_of(rect.width as int / max_of(count, 1), PX as int);
    s.left == rect.x_of(t, duration) - slot / 2 && s.width == slot
}

/// The thumbnails in the video lane.
pub fn thumb_spans(rect: &TimelineRect, times: &Vec<i64>, duration: i64) -> (r: Vec<Span>)
    requires
        rect.width >= 0,
    ensures
        r@.len() == times@.len(),
        forall|i: int|
            0 <= i < r@.len() ==> thumb_is(
                #[trigger] r@[i],
                *rect,
                times@[i] as int,
                times@.len() as int,
                duration as int,
            ),
{
    let n: i128 = if times.len() == 0 {
        1
    } else {
        times.len() as i128
    };
    let share: i128 = rect.width as i128 / n;
    let slot: i128 = if share < PX as i128 {
        PX as i128
    } else {
        share
    };
    assert(0 <= share <= rect.width) by (nonlinear_arith)
        requires
            share == rect.width as int / n as int,
            rect.width >= 0,
            n >= 1,
    ;
    let mut out: Vec<Span> = Vec::new();
    let mut i: usize = 0;
    while i < times.len()
        invariant
            i <= times@.len(),
            0 <= slot <= 0x8000_0000,
            slot == max_of(rect.width as int / max_of(times@.len() as int, 1), PX as int),
            out@.len() == i,
            forall|k: int|
                0 <= k < i ==> thumb_is(
                    #[trigger] out@[k],
                    *rect,
                    times@[k] as int,
                    times@.len() as int,
                    duration as int,
                ),
        decreases times.len() - i,
    {
        let x: i128 = rect.time_to_x(times[i], duration);
        out.push(Span { left: x - slot / 2, width: slot });
        i += 1;
    }
    out
}

// ---- the waveform ----

/// A bar of the waveform: its left edge, and half its height.
#[derive(Clone, Copy, PartialEq, Eq, Structural, Debug)]
pub struct WaveBar {
    pub x: i64,
    pub half: i64,
}

/// How many peaks one bar stands for: bars lie at least two pixels apart.
pub open spec fn bar_stride(count: int, width: int) -> int {
    let room = max_of(width, 2 * PX);
    max_of((count * 2 * PX + room - 1) / room, 1)
}

/// Half the height of the bar of a peak: at least a fiftieth of half the lane,
/// at most half of it.
pub open spec fn bar_half(lo: int, hi: int) -> int {
    let full = AUDIO_LANE_H * PX / 2;
    min_of(max_of(abs_of(hi - lo) * full / 32768, full / 50), full)
}

/// The bar of peak `i`.
pub open spec fn bar_is(b: WaveBar, peaks: Seq<(i16, i16)>, i: int, rect: TimelineRect) -> bool {
    b.x == rect.left + i * rect.width / peaks.len() as int && b.half == bar_half(
        peaks[i].0 as int,
        peaks[i].1 as int,
    )
}

fn half_height(lo: i16, hi: i16) -> (r: i64)
    ensures
        r == bar_half(lo as int, hi as int),
{
    let d: i64 = if hi < lo {
        lo as i64 - hi as i64
    } else {
        hi as i64 - lo as i64
    };
    let h: i64 = d * 3584 / 32768;
    if h < 71 {
        71
    } else if h > 3584 {
        3584
    } else {
        h
    }
}

/// The bars of the waveform: every so many peaks, so that they do not crowd.
pub fn waveform_bars(rect: &TimelineRect, peaks: &Vec<(i16, i16)>) -> (r: Vec<WaveBar>)
    requires
        peaks@.len() <= 0x4000_0000,
    ensures
        peaks@.len() == 0 || rect.width <= 0 ==> r@.len() == 0,
        peaks@.len() > 0 && rect.width > 0 ==> ({
            let stride = bar_stride(peaks@.len() as int, rect.width as int);
            &&& r@.len() == (peaks@.len() + stride - 1) / stride
            &&& forall|k: int|
                0 <= k < r@.len() ==> #[trigger] bar_is(r@[k], peaks@, k * stride, *rect)
        }),
{
    let mut bars: Vec<WaveBar> = Vec::new();
    if peaks.len() == 0 || rect.width <= 0 {
        return bars;
    }
    let n: i64 = peaks.len() as i64;
    let room: i64 = if (rect.width as i64) < 2 * PX {
        2 * PX
    } else {
        rect.width as i64
    };
    let raw: i64 = (n * 2 * PX + room - 1) / room;
    let stride: i64 = if raw < 1 {
        1
    } else {
        raw
    };
    proof {
        assert(0 <= raw <= n * 512 + room - 1) by (nonlinear_arith)
            requires
                raw == (n * 512 + room - 1) / room as int,
                room >= 1,
                n >= 0,
        ;
    }
    let mut i: i64 = 0;
    let mut k: i64 = 0;
    while i < n
        invariant
            n == peaks@.len(),
            0 < n <= 0x4000_0000,
            0 < stride <= 0x4000_0000 * 512 + 0x8000_0000,
            rect.width > 0,
            k == bars@.len(),
            i == k * stride,
            0 <= k <= i,
            k > 0 ==> (k - 1) * stride < n,
            i <= n + stride,
            forall|j: int|
                0 <= j < bars@.len() ==> #[trigger] bar_is(bars@[j], peaks@, j * stride, *rect),
        decreases n - i + stride,
    {
        proof {
            assert(0 <= i * rect.width <= n * 0x8000_0000) by (nonlinear_arith)
                requires
                    0 <= i <= n,
                    0 < rect.width <= 0x8000_0000,
            ;
            assert(0 <= i * rect.width / n as int <= 0x8000_0000) by (nonlinear_arith)
                requires
                    0 <= i * rect.width <= n * 0x8000_0000,
                    n > 0,
            ;
            assert((k + 1) * stride == k * stride + stride) by (nonlinear_arith);
        }
        let p = peaks[i as usize];
        let x: i64 = rect.left as i64 + (i as i128 * rect.width as i128 / n as i128) as i64;
        let bar = WaveBar { x, half: half_height(p.0, p.1) };
        assert(bar_is(bar, peaks@, k * stride, *rect));
        bars.push(bar);
        i += stride;
        k += 1;
    }
    proof {
        assert(k == (n + stride - 1) / stride as int) by (nonlinear_arith)
            requires
                k * stride >= n,
                (k - 1) * stride < n,
                stride > 0,
                k > 0,
        ;
    }
    bars
}

/// A time lies as far along the timeline as it lies in the video, cut to 1/256
/// of a pixel, and a position as far in the video as along the timeline.
pub proof fn law_positions_are_proportional(rect: TimelineRect, t: int, x: int, duration: int)
    requires
        rect.width >= 256,
        duration >= 10_000_000,
        rect.left <= x <= rect.left + rect.width,
    ensures
        (rect.x_of(t, duration) - rect.left) * duration <= t * rect.width < (rect.x_of(t, duration)
            - rect.left + 1) * duration,
        rect.time_of(x, duration) * rect.width <= (x - rect.left) * duration < (rect.time_of(
            x,
            duration,
        ) + 1) * rect.width,
{
    let p = t * rect.width;
    let q = p / duration;
    assert(q * duration <= p < (q + 1) * duration) by (nonlinear_arith)
        requires
            q == p / duration,
            duration > 0,
    ;
    let w = rect.width as int;
    let u = (x - rect.left) * duration;
    let v = u / w;
    assert(v * w <= u < (v + 1) * w) by (nonlinear_arith)
        requires
            v == u / w,
            w > 0,
    ;
}

/// Positions before the timeline are those of its start, and those behind it of
/// its end.
pub proof fn law_positions_beside_are_ends(rect: TimelineRect, x: int, duration: int)
    requires
        rect.width >= 256,
        duration >= 0,
    ensures
        x <= rect.left ==> rect.time_of(x, duration) == 0,
        x >= rect.left + rect.width ==> rect.time_of(x, duration) == duration,
{
    let w = rect.width as int;
    assert(w * duration / w == duration && 0 * duration / w == 0) by (nonlinear_arith)
        requires
            w > 0,
    ;
}

/// A range of times is drawn from where it begins to where it ends, or a little
/// wider where that would be too narrow.
pub proof fn law_spans_reach_from_start_to_end(
    s: Span,
    rect: TimelineRect,
    a: int,
    b: int,
    duration: int,
    least: int,
)
    requires
        span_is(s, rect, a, b, duration, least),
    ensures
        s.left == rect.x_of(a, duration),
        s.width >= least,
        rect.x_of(b, duration) - rect.x_of(a, duration) >= least ==> s.left + s.width == rect.x_of(
            b,
            duration,
        ),
        rect.x_of(b, duration) - rect.x_of(a, duration) < least ==> s.width == least,
{
}

/// The ruler has the smallest step of half a second to five minutes that
/// leaves sixty pixels between ticks, or the largest.
pub proof fn law_ticks_have_room(duration: int, width: int, i: int)
    requires
        0 <= i < 9,
        width >= 30_720,
    ensures
        ({
            let step = tick_from(0, duration, width);
            &&& step == 300_000_000_000 || duration * 15_360 <= step * width
            &&& ladder(i) < step ==> duration * 15_360 > ladder(i) * width
            &&& exists|k: int| 0 <= k <= 9 && step == #[trigger] ladder(k)
            &&& ladder(i) < ladder(i + 1)
            &&& ladder(0) == 500_000_000 && ladder(9) == 300_000_000_000
        }),
{
    lemma_ticks(0, duration, width, i);
}

proof fn lemma_ticks(from: int, duration: int, width: int, i: int)
    requires
        0 <= from <= 9,
        width >= 30_720,
    ensures
        ({
            let step = tick_from(from, duration, width);
            &&& step == 300_000_000_000 || duration * 15_360 <= step * width
            &&& from <= i < 9 && ladder(i) < step ==> duration * 15_360 > ladder(i) * width
            &&& exists|k: int| from <= k <= 9 && step == #[trigger] ladder(k)
        }),
    decreases 9 - from,
{
    if from >= 9 || roomy(ladder(from), duration, width) {
        assert(tick_from(from, duration, width) == ladder(from));
    } else {
        lemma_ticks(from + 1, duration, width, i);
    }
}

/// A time is shown as minutes and seconds, rounded to the nearest second.
pub proof fn law_time_shows_minutes_and_seconds(m: nat, s: nat, off: int)
    requires
        s < 60,
        -500_000_000 <= off < 500_000_000,
        (60 * m + s) * 1_000_000_000 + off >= 0,
    ensures
        mmss_text((60 * m + s) * 1_000_000_000 + off) == text::decimal(m) + seq![':']
            + text::zero_pad(text::decimal(s), 2),
{
    let t = (60 * m + s) * 1_000_000_000 + off;
    let k = 60 * m + s;
    assert((2 * t + 1_000_000_000) / 2_000_000_000 == k);
    assert(nearest(t, 1_000_000_000) == k);
    assert((60 * m + s) / 60 == m && (60 * m + s) % 60 == s);
}

/// A thumbnail is centred over its time, and as many as there are fit side by
/// side.
pub proof fn law_thumbnails_are_centred(s: Span, rect: TimelineRect, t: int, count: int, duration: int)
    requires
        thumb_is(s, rect, t, count, duration),
        rect.width >= 0,
        count >= 1,
    ensures
        0 <= 2 * (s.left - rect.x_of(t, duration)) + s.width <= 1,
        s.width >= 256,
        s.width > 256 ==> s.width * count <= rect.width < (s.width + 1) * count,
{
    let q = rect.width as int / count;
    assert(q * count <= rect.width < (q + 1) * count) by (nonlinear_arith)
        requires
            q == rect.width as int / count,
            count >= 1,
    ;
}

/// A bar of the waveform is as high as the sound is loud: the whole lane for
/// the loudest, a fiftieth of it at least.
pub proof fn law_bars_show_loudness(lo: int, hi: int)
    requires
        -32768 <= lo <= hi <= 32767,
    ensures
        71 <= bar_half(lo, hi) <= 3584,
        ({
            let exact = (hi - lo) * 3584;
            let b = bar_half(lo, hi);
            71 < b < 3584 ==> b * 32768 <= exact < (b + 1) * 32768
        }),
        hi - lo >= 32768 ==> bar_half(lo, hi) == 3584,
        hi == lo ==> bar_half(lo, hi) == 71,
{
}

/// The bars of a waveform are at least two pixels apart, and no further than
/// they have to be.
pub proof fn law_bars_have_room(count: int, width: int)
    requires
        count >= 1,
        width >= 512,
    ensures
        bar_stride(count, width) >= 1,
        bar_stride(count, width) * width >= count * 512,
        bar_stride(count, width) > 1 ==> (bar_stride(count, width) - 1) * width < count * 512,
{
    let v = count * 2 * PX;
    let n = (v + width - 1) / width;
    assert(n * width >= v && (n - 1) * width < v) by (nonlinear_arith)
        requires
            n == (v + width - 1) / width,
            width > 0,
    ;
    if n < 1 {
        assert(n * width <= 0) by (nonlinear_arith)
            requires
                n <= 0,
                width > 0,
        ;
    }
}

/// The ruler begins with a tick at the start of the timeline, and every tick
/// stands over its time and shows it. The last one is less than a step before
/// the end.
pub proof fn law_ticks_stand_over_their_times(
    ticks: Seq<Tick>,
    rect: TimelineRect,
    duration: int,
    k: int,
)
    requires
        ruler_is(ticks, rect, duration),
        duration >= 10_000_000,
        0 <= k < ticks.len(),
    ensures
        ({
            let step = tick_from(0, duration, rect.width as int);
            &&& ticks[0].x == rect.left
            &&& ticks[k].x == rect.x_of(k * step, duration)
            &&& ticks[k].label@ == mmss_text(k * step)
            &&& (ticks.len() - 1) * step <= duration < ticks.len() * step
        }),
{
    let step = tick_from(0, duration, rect.width as int);
    lemma_step(0, duration, rect.width as int);
    let n = ticks.len() - 1;
    assert(n * step <= duration < (n + 1) * step) by (nonlinear_arith)
        requires
            n == duration / step,
            step > 0,
    ;
    assert(0 * step == 0);
    assert(ticks[0].x == rect.x_of(0, duration));
    let w = rect.width as int;
    assert(0 * w / duration == 0) by (nonlinear_arith)
        requires
            duration > 0,
    ;
}

proof fn lemma_step(from: int, duration: int, width: int)
    ensures
        tick_from(from, duration, width) > 0,
    decreases 9 - from,
{
    if from < 9 && !roomy(ladder(from), duration, width) {
        lemma_step(from + 1, duration, width);
    }
}

/// Levels are shown with one decimal.
pub proof fn law_levels_are_shown_in_tenths(k: nat)
    requires
        k <= 100,
    ensures
        level_label(k * 100_000int) == text::decimal(k / 10) + seq!['.'] + text::zero_pad(
            text::decimal(k % 10),
            1,
        ) + seq!['\u{d7}'],
{
    crate::math::law_fixed_text_shows_the_nearest(k * 100_000int, 1_000_000, 10, 1, k as int);
    assert(level_label(k * 100_000int) =~= text::decimal(k / 10) + seq!['.'] + text::zero_pad(
        text::decimal(k % 10),
        1,
    ) + seq!['\u{d7}']);
}

/// Whether a cell is that of a segment.
pub open spec fn segment_cell_is(
    c: SegmentCell,
    rect: TimelineRect,
    s: VideoSegment,
    selected: bool,
    duration: int,
) -> bool {
    &&& span_is(c.span, rect, s.start as int, s.end as int, duration, PX as int)
    &&& c.removed == s.removed
    &&& c.selected == selected
}

/// Whether a cell is that of a zoom.
pub open spec fn zoom_cell_is(
    c: ZoomCell,
    rect: TimelineRect,
    z: ZoomPoint,
    selected: bool,
    duration: int,
) -> bool {
    &&& span_is(c.span, rect, z.start(), z.end(), duration, 2 * PX)
    &&& c.label@ == level_label(z.level as int)
    &&& c.selected == selected
}

/// The cells of segments and zooms reach over their times, at least a pixel or
/// two, and show what is removed and what is selected.
pub proof fn law_cells_reach_over_their_times(
    a: SegmentCell,
    b: ZoomCell,
    rect: TimelineRect,
    s: VideoSegment,
    z: ZoomPoint,
    selected: bool,
    duration: int,
)
    requires
        segment_cell_is(a, rect, s, selected, duration),
        zoom_cell_is(b, rect, z, selected, duration),
    ensures
        a.span.left == rect.x_of(s.start as int, duration),
        a.span.width >= 256,
        rect.x_of(s.end as int, duration) - a.span.left >= 256 ==> a.span.left + a.span.width
            == rect.x_of(s.end as int, duration),
        a.removed == s.removed && a.selected == selected,
        b.span.left == rect.x_of(z.t - z.duration / 2, duration),
        b.span.width >= 512,
        rect.x_of(z.t - z.duration / 2 + z.duration, duration) - b.span.left >= 512 ==> b.span.left
            + b.span.width == rect.x_of(z.t - z.duration / 2 + z.duration, duration),
        b.selected == selected && b.label@ == level_label(z.level as int),
{
}

/// A bar stands as far along the timeline as its peak among the peaks, and is as
/// high as that peak.
pub proof fn law_bars_stand_over_their_peaks(
    b: WaveBar,
    peaks: Seq<(i16, i16)>,
    i: int,
    rect: TimelineRect,
)
    requires
        bar_is(b, peaks, i, rect),
        0 <= i < peaks.len(),
    ensures
        (b.x - rect.left) * peaks.len() <= i * rect.width < (b.x - rect.left + 1) * peaks.len(),
        b.half == bar_half(peaks[i].0 as int, peaks[i].1 as int),
{
    let v = i * rect.width;
    let n = peaks.len() as int;
    let q = v / n;
    assert(q * n <= v < (q + 1) * n) by (nonlinear_arith)
        requires
            q == v / n,
            n > 0,
    ;
}

} // verus!
