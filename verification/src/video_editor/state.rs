//! The edit state: segments of the timeline, zooms, annotations and the
//! caption toggle. This is the value that undo and redo keep, and that an
//! export reads.
use vstd::prelude::*;
use crate::spec::{duplicate_all, same_annotations, Annotation};
use crate::video::ZoomPoint;

verus! {

broadcast use vstd::seq_lib::group_seq_properties;

/// A contiguous slice of the timeline. A removed one is shown dimmed, skipped
/// by playback and left out of an export.
#[derive(Clone, Copy, PartialEq, Eq, Structural, Debug)]
pub struct VideoSegment {
    pub start: i64,
    pub end: i64,
    pub removed: bool,
}

/// Everything that takes part in undo and redo and that an export must see.
#[derive(Debug)]
pub struct EditState {
    pub segments: Vec<VideoSegment>,
    pub zooms: Vec<ZoomPoint>,
    pub annotations: Vec<Annotation<i64>>,
    pub burn_cc: bool,
}

/// What an `EditState` holds.
#[verifier::ext_equal]
pub struct EditView {
    pub segments: Seq<VideoSegment>,
    pub zooms: Seq<ZoomPoint>,
    pub annotations: Seq<crate::spec::AnnotationView<i64>>,
    pub burn_cc: bool,
}

impl View for EditState {
    type V = EditView;

    open spec fn view(&self) -> EditView {
        EditView {
            segments: self.segments@,
            zooms: self.zooms@,
            annotations: crate::spec::shapes(self.annotations@),
            burn_cc: self.burn_cc,
        }
    }
}

/// What the user has picked on the timeline.
#[derive(Clone, Copy, PartialEq, Eq, Structural, Debug)]
pub enum Selection {
    Nothing,
    VideoSegment(usize),
    Zoom(usize),
}

impl Default for Selection {
    fn default() -> (r: Selection)
        ensures
            r == Selection::Nothing,
    {
        Selection::Nothing
    }
}

/// One end of a zoom's window.
#[derive(Clone, Copy, PartialEq, Eq, Structural, Debug)]
pub enum Edge {
    Start,
    End,
}

/// The shortest segment that a split or a drag leaves.
pub const MIN_SEGMENT: i64 = 100_000_000;

/// A gap this short between two cuts is not worth keeping.
pub const KEEP_GAP: i64 = 50_000_000;

/// The shortest window that dragging an edge of a zoom leaves.
pub const MIN_ZOOM_DURATION: i64 = 300_000_000;

/// The highest zoom level.
pub const MAX_LEVEL: u32 = 8_000_000;

/// The segments tile `[0, duration]` in order, without gaps or overlaps, and
/// where there are several none is shorter than `MIN_SEGMENT`.
pub open spec fn tiles(segments: Seq<VideoSegment>, duration: int) -> bool {
    &&& segments.len() > 0
    &&& segments[0].start == 0
    &&& segments[segments.len() - 1].end == duration
    &&& forall|i: int| 0 <= i < segments.len() ==> (#[trigger] segments[i]).start <= segments[i].end
    &&& forall|i: int, j: int|
        #![trigger segments[i], segments[j]]
        0 <= i && j == i + 1 && j < segments.len() ==> segments[i].end == segments[j].start
    &&& segments.len() > 1 ==> forall|i: int|
        0 <= i < segments.len() ==> (#[trigger] segments[i]).end - segments[i].start >= MIN_SEGMENT
}

/// The first segment, from `from` on, that has `t` strictly inside.
pub open spec fn segment_around(segments: Seq<VideoSegment>, t: int, from: int) -> Option<int>
    decreases segments.len() - from,
{
    if from < 0 || from >= segments.len() {
        None
    } else if segments[from].start < t < segments[from].end {
        Some(from)
    } else {
        segment_around(segments, t, from + 1)
    }
}

/// Whether `t` is far enough from both ends of the segment to split it there.
pub open spec fn splits(segment: VideoSegment, t: int) -> bool {
    t - segment.start >= MIN_SEGMENT && segment.end - t >= MIN_SEGMENT
}

/// The segments after splitting segment `i` at `t`.
pub open spec fn split_segments(segments: Seq<VideoSegment>, i: int, t: i64) -> Seq<VideoSegment> {
    segments.update(i, VideoSegment { end: t, ..segments[i] }).insert(
        i + 1,
        VideoSegment { start: t, ..segments[i] },
    )
}

/// The segments with the flag of segment `i` set to `removed`.
pub open spec fn flag_segment(segments: Seq<VideoSegment>, i: int, removed: bool) -> Seq<
    VideoSegment,
> {
    if 0 <= i < segments.len() {
        segments.update(i, VideoSegment { removed, ..segments[i] })
    } else {
        segments
    }
}

/// `x` moved into `[lo, hi]`.
pub open spec fn clamped(x: int, lo: int, hi: int) -> int {
    if x < lo {
        lo
    } else if x > hi {
        hi
    } else {
        x
    }
}

/// Where the boundary between segments `i` and `i + 1` goes when it is dragged
/// to `to`.
pub open spec fn boundary(segments: Seq<VideoSegment>, i: int, to: int) -> int {
    clamped(to, segments[i].start + MIN_SEGMENT, segments[i + 1].end - MIN_SEGMENT)
}

/// There is room for two segments of the least length on both sides of the
/// boundary after segment `i`, if there is one.
pub open spec fn boundary_room(segments: Seq<VideoSegment>, i: int) -> bool {
    i + 1 < segments.len() ==> segments[i].start + MIN_SEGMENT <= segments[i + 1].end - MIN_SEGMENT
}

/// The segments after that drag.
pub open spec fn drag_boundary(segments: Seq<VideoSegment>, i: int, to: int) -> Seq<VideoSegment> {
    if 0 <= i && i + 1 < segments.len() {
        let b = boundary(segments, i, to) as i64;
        segments.update(i, VideoSegment { end: b, ..segments[i] }).update(
            i + 1,
            VideoSegment { start: b, ..segments[i + 1] },
        )
    } else {
        segments
    }
}

/// The ranges of the removed segments, in order.
pub open spec fn cuts_of(segments: Seq<VideoSegment>) -> Seq<(i64, i64)>
    decreases segments.len(),
{
    if segments.len() == 0 {
        Seq::empty()
    } else {
        let rest = cuts_of(segments.drop_last());
        let last = segments.last();
        if last.removed {
            rest.push((last.start, last.end))
        } else {
            rest
        }
    }
}

/// Where the last of the cuts ends, or 0.
pub open spec fn cuts_end(cuts: Seq<(i64, i64)>) -> int
    decreases cuts.len(),
{
    if cuts.len() == 0 {
        0
    } else {
        let before = cuts_end(cuts.drop_last());
        if cuts.last().1 > before {
            cuts.last().1 as int
        } else {
            before
        }
    }
}

/// The ranges before and between the cuts that are worth keeping.
pub open spec fn kept_before(cuts: Seq<(i64, i64)>) -> Seq<(i64, i64)>
    decreases cuts.len(),
{
    if cuts.len() == 0 {
        Seq::empty()
    } else {
        let rest = kept_before(cuts.drop_last());
        let t = cuts_end(cuts.drop_last());
        if cuts.last().0 > t + KEEP_GAP {
            rest.push((t as i64, cuts.last().0))
        } else {
            rest
        }
    }
}

/// The ranges that stay when `cuts` are taken out of `[0, duration)`: none for
/// an unedited video, and a single empty range when everything was cut.
pub open spec fn keep_of(cuts: Seq<(i64, i64)>, duration: i64) -> Seq<(i64, i64)> {
    if cuts.len() == 0 {
        Seq::empty()
    } else {
        let t = cuts_end(cuts);
        let keep = if t + KEEP_GAP < duration {
            kept_before(cuts).push((t as i64, duration))
        } else {
            kept_before(cuts)
        };
        if keep.len() == 0 {
            seq![(0i64, 0i64)]
        } else {
            keep
        }
    }
}

/// Whether one of the ranges contains `t`.
pub open spec fn in_ranges(ranges: Seq<(i64, i64)>, t: int) -> bool {
    exists|i: int| 0 <= i < ranges.len() && (#[trigger] ranges[i]).0 <= t < ranges[i].1
}

/// Whether a segment that is not removed contains `t`.
pub open spec fn in_kept_segment(segments: Seq<VideoSegment>, t: int) -> bool {
    exists|i: int|
        0 <= i < segments.len() && !(#[trigger] segments[i]).removed && segments[i].start <= t
            < segments[i].end
}

/// The edits of a video that has none.
pub open spec fn unedited(duration: i64) -> EditView {
    EditView {
        segments: seq![VideoSegment { start: 0, end: duration, removed: false }],
        zooms: Seq::empty(),
        annotations: Seq::empty(),
        burn_cc: false,
    }
}

/// An unedited video is kept as a whole, in one segment, and nothing is drawn
/// or shown on it.
pub proof fn law_unedited_video_is_whole(duration: i64, x: int)
    requires
        0 <= x < duration,
    ensures
        unedited(duration).segments.len() == 1,
        in_kept_segment(unedited(duration).segments, x),
        cuts_of(unedited(duration).segments).len() == 0,
        keep_of(cuts_of(unedited(duration).segments), duration).len() == 0,
        unedited(duration).zooms.len() == 0,
        unedited(duration).annotations.len() == 0,
        !unedited(duration).burn_cc,
{
    let s = unedited(duration).segments;
    assert(s[0].start <= x < s[0].end && !s[0].removed);
    assert(s.drop_last() =~= Seq::empty());
    assert(cuts_of(s.drop_last()).len() == 0);
}

impl EditState {
    /// An unedited video of the given duration.
    pub fn new(duration: i64) -> (r: EditState)
        ensures
            r@ == unedited(duration),
            duration >= 0 ==> tiles(r@.segments, duration as int),
    {
        let mut segments: Vec<VideoSegment> = Vec::new();
        segments.push(VideoSegment { start: 0, end: duration, removed: false });
        EditState { segments, zooms: Vec::new(), annotations: Vec::new(), burn_cc: false }
    }

    /// The same state.
    pub fn duplicate(&self) -> (r: EditState)
        ensures
            r@ == self@,
    {
        let mut segments: Vec<VideoSegment> = Vec::new();
        let mut i: usize = 0;
        while i < self.segments.len()
            invariant
                i <= self.segments@.len(),
                segments@ == self.segments@.take(i as int),
            decreases self.segments.len() - i,
        {
            segments.push(self.segments[i]);
            i += 1;
        }
        let mut zooms: Vec<ZoomPoint> = Vec::new();
        let mut j: usize = 0;
        while j < self.zooms.len()
            invariant
                j <= self.zooms@.len(),
                zooms@ == self.zooms@.take(j as int),
            decreases self.zooms.len() - j,
        {
            zooms.push(self.zooms[j]);
            j += 1;
        }
        EditState {
            segments,
            zooms,
            annotations: duplicate_all(&self.annotations),
            burn_cc: self.burn_cc,
        }
    }

    /// Whether two states are equal.
    pub fn same(&self, other: &EditState) -> (r: bool)
        ensures
            r == (self@ == other@),
    {
        if self.burn_cc != other.burn_cc || self.segments.len() != other.segments.len()
            || self.zooms.len() != other.zooms.len() {
            assert(self@.segments.len() != other@.segments.len() || self@.zooms.len()
                != other@.zooms.len() || self@.burn_cc != other@.burn_cc);
            return false;
        }
        let mut i: usize = 0;
        while i < self.segments.len()
            invariant
                self.segments@.len() == other.segments@.len(),
                i <= self.segments@.len(),
                forall|k: int| 0 <= k < i ==> self.segments@[k] == other.segments@[k],
            decreases self.segments.len() - i,
        {
            if self.segments[i] != other.segments[i] {
                assert(self@.segments[i as int] != other@.segments[i as int]);
                return false;
            }
            i += 1;
        }
        let mut j: usize = 0;
        while j < self.zooms.len()
            invariant
                self.zooms@.len() == other.zooms@.len(),
                j <= self.zooms@.len(),
                forall|k: int| 0 <= k < j ==> self.zooms@[k] == other.zooms@[k],
            decreases self.zooms.len() - j,
        {
            if self.zooms[j] != other.zooms[j] {
                assert(self@.zooms[j as int] != other@.zooms[j as int]);
                return false;
            }
            j += 1;
        }
        assert(self.segments@ =~= other.segments@);
        assert(self.zooms@ =~= other.zooms@);
        same_annotations(&self.annotations, &other.annotations)
    }

    /// Split the segment containing `t` into two segments at `t`, both keeping
    /// its `removed` flag. Nothing happens, and the result is false, if `t` is
    /// within `MIN_SEGMENT` of a boundary or out of range.
    pub fn split_at(&mut self, t: i64) -> (r: bool)
        ensures
            match segment_around(old(self)@.segments, t as int, 0) {
                Some(i) => r == splits(old(self)@.segments[i], t as int) && (if r {
                    final(self)@ == (EditView {
                        segments: split_segments(old(self)@.segments, i, t),
                        ..old(self)@
                    })
                } else {
                    final(self)@ == old(self)@
                }),
                None => !r && final(self)@ == old(self)@,
            },
    {
        let mut i: usize = 0;
        while i < self.segments.len() && !(self.segments[i].start < t && t < self.segments[i].end)
            invariant
                *self == *old(self),
                i <= self.segments@.len(),
                segment_around(self.segments@, t as int, 0) == segment_around(
                    self.segments@,
                    t as int,
                    i as int,
                ),
            decreases self.segments.len() - i,
        {
            i += 1;
        }
        if i >= self.segments.len() {
            return false;
        }
        let seg = self.segments[i];
        if (t as i128) - (seg.start as i128) < MIN_SEGMENT as i128 || (seg.end as i128) - (
        t as i128) < MIN_SEGMENT as i128 {
            return false;
        }
        self.segments.set(i, VideoSegment { start: seg.start, end: t, removed: seg.removed });
        self.segments.insert(
            i + 1,
            VideoSegment { start: t, end: seg.end, removed: seg.removed },
        );
        true
    }

    /// Mark segment `ix` removed. Its entry stays.
    pub fn delete_segment(&mut self, ix: usize)
        ensures
            final(self)@ == (EditView {
                segments: flag_segment(old(self)@.segments, ix as int, true),
                ..old(self)@
            }),
    {
        self.flag(ix, true);
    }

    /// Take segment `ix` back.
    pub fn restore_segment(&mut self, ix: usize)
        ensures
            final(self)@ == (EditView {
                segments: flag_segment(old(self)@.segments, ix as int, false),
                ..old(self)@
            }),
    {
        self.flag(ix, false);
    }

    fn flag(&mut self, ix: usize, removed: bool)
        ensures
            final(self)@ == (EditView {
                segments: flag_segment(old(self)@.segments, ix as int, removed),
                ..old(self)@
            }),
    {
        if ix < self.segments.len() {
            let seg = self.segments[ix];
            self.segments.set(ix, VideoSegment { start: seg.start, end: seg.end, removed });
        }
    }

    /// Drag the boundary between segments `ix` and `ix + 1`, no closer than
    /// `MIN_SEGMENT` to the outer ends of the two.
    pub fn resize_segment_edge(&mut self, ix: usize, new_boundary: i64)
        requires
            boundary_room(old(self)@.segments, ix as int),
        ensures
            final(self)@ == (EditView {
                segments: drag_boundary(old(self)@.segments, ix as int, new_boundary as int),
                ..old(self)@
            }),
    {
        let n: usize = self.segments.len();
        if ix >= n || n - ix <= 1 {
            return ;
        }
        let left = self.segments[ix];
        let right = self.segments[ix + 1];
        let lo: i64 = left.start + MIN_SEGMENT;
        let hi: i64 = right.end - MIN_SEGMENT;
        let b: i64 = if new_boundary < lo {
            lo
        } else if new_boundary > hi {
            hi
        } else {
            new_boundary
        };
        self.segments.set(ix, VideoSegment { start: left.start, end: b, removed: left.removed });
        self.segments.set(
            ix + 1,
            VideoSegment { start: b, end: right.end, removed: right.removed },
        );
    }

    /// The ranges to remove.
    pub fn cuts(&self) -> (r: Vec<(i64, i64)>)
        ensures
            r@ == cuts_of(self@.segments),
    {
        let mut out: Vec<(i64, i64)> = Vec::new();
        let mut i: usize = 0;
        while i < self.segments.len()
            invariant
                i <= self.segments@.len(),
                out@ == cuts_of(self.segments@.take(i as int)),
            decreases self.segments.len() - i,
        {
            let seg = self.segments[i];
            assert(self.segments@.take(i + 1).drop_last() =~= self.segments@.take(i as int));
            if seg.removed {
                out.push((seg.start, seg.end));
            }
            i += 1;
        }
        assert(self.segments@.take(i as int) =~= self.segments@);
        out
    }

    /// The ranges to keep. Nothing is returned for an unedited video only; when
    /// every segment was removed there is one empty range, which holds no time.
    pub fn keep_ranges(&self, duration: i64) -> (r: Vec<(i64, i64)>)
        ensures
            r@ == keep_of(cuts_of(self@.segments), duration),
    {
        let cuts = self.cuts();
        let mut keep: Vec<(i64, i64)> = Vec::new();
        if cuts.len() == 0 {
            return keep;
        }
        let mut t: i64 = 0;
        let mut i: usize = 0;
        while i < cuts.len()
            invariant
                i <= cuts@.len(),
                keep@ == kept_before(cuts@.take(i as int)),
                t == cuts_end(cuts@.take(i as int)),
            decreases cuts.len() - i,
        {
            let c = cuts[i];
            assert(cuts@.take(i + 1).drop_last() =~= cuts@.take(i as int));
            if c.0 as i128 > t as i128 + KEEP_GAP as i128 {
                keep.push((t, c.0));
            }
            if c.1 > t {
                t = c.1;
            }
            i += 1;
        }
        assert(cuts@.take(i as int) =~= cuts@);
        if t as i128 + (KEEP_GAP as i128) < duration as i128 {
            keep.push((t, duration));
        }
        if keep.len() == 0 {
            keep.push((0, 0));
        }
        keep
    }
}

// ---- laws of the segments ----

/// Splitting a segment keeps the timeline tiled.
pub proof fn law_split_keeps_tiling(segments: Seq<VideoSegment>, i: int, t: i64, duration: int)
    requires
        tiles(segments, duration),
        0 <= i < segments.len(),
        segments[i].start < t < segments[i].end,
        splits(segments[i], t as int),
    ensures
        tiles(split_segments(segments, i, t), duration),
{
    let after = split_segments(segments, i, t);
    assert forall|k: int| 0 <= k < after.len() implies after[k].start <= after[k].end
        && after[k].end - after[k].start >= MIN_SEGMENT by {
        if k > i + 1 {
            assert(after[k] == segments[k - 1]);
        }
    }
    assert forall|a: int, b: int|
        #![trigger after[a], after[b]]
        0 <= a && b == a + 1 && b < after.len() implies after[a].end == after[b].start by {
        if a > i + 1 {
            assert(after[a] == segments[a - 1] && after[b] == segments[b - 1]);
        } else if a == i + 1 {
            assert(after[b] == segments[b - 1]);
            assert(segments[i].end == segments[b - 1].start);
        } else if a + 1 == i {
            assert(segments[a].end == segments[i].start);
        }
    }
}

/// Removing or restoring a segment keeps the timeline tiled.
pub proof fn law_flag_keeps_tiling(
    segments: Seq<VideoSegment>,
    i: int,
    removed: bool,
    duration: int,
)
    requires
        tiles(segments, duration),
    ensures
        tiles(flag_segment(segments, i, removed), duration),
{
    let after = flag_segment(segments, i, removed);
    assert forall|a: int, b: int|
        #![trigger after[a], after[b]]
        0 <= a && b == a + 1 && b < after.len() implies after[a].end == after[b].start by {
        assert(segments[a].end == segments[b].start);
    }
}

/// In a tiled timeline every boundary can be dragged, and dragging one keeps
/// the timeline tiled.
pub proof fn law_drag_keeps_tiling(segments: Seq<VideoSegment>, i: int, to: int, duration: int)
    requires
        tiles(segments, duration),
        i >= 0,
    ensures
        boundary_room(segments, i),
        tiles(drag_boundary(segments, i, to), duration),
{
    if i + 1 < segments.len() {
        assert(segments[i].end == segments[i + 1].start);
        let after = drag_boundary(segments, i, to);
        assert forall|a: int, b: int|
            #![trigger after[a], after[b]]
            0 <= a && b == a + 1 && b < after.len() implies after[a].end == after[b].start by {
            assert(segments[a].end == segments[b].start);
        }
    }
}

/// In a tiled timeline every time that is no boundary lies in exactly one
/// segment, the one that a split there would cut.
pub proof fn law_one_segment_around(segments: Seq<VideoSegment>, t: int, i: int, duration: int)
    requires
        tiles(segments, duration),
        0 <= i < segments.len(),
        segments[i].start < t < segments[i].end,
    ensures
        segment_around(segments, t, 0) == Some(i),
{
    lemma_ordered(segments, duration);
    lemma_around_from(segments, t, 0, i);
}

proof fn lemma_around_from(segments: Seq<VideoSegment>, t: int, from: int, i: int)
    requires
        0 <= from <= i < segments.len(),
        segments[i].start < t < segments[i].end,
        forall|k: int| 0 <= k < i ==> (#[trigger] segments[k]).end <= segments[i].start,
    ensures
        segment_around(segments, t, from) == Some(i),
    decreases i - from,
{
    if from < i {
        assert(segments[from].end <= segments[i].start);
        lemma_around_from(segments, t, from + 1, i);
    }
}

/// Segments of a tiled timeline follow one another.
pub proof fn lemma_ordered(segments: Seq<VideoSegment>, duration: int)
    requires
        tiles(segments, duration),
    ensures
        forall|a: int, b: int|
            #![trigger segments[a], segments[b]]
            0 <= a < b < segments.len() ==> segments[a].end <= segments[b].start,
{
    assert forall|a: int, b: int|
        #![trigger segments[a], segments[b]]
        0 <= a < b < segments.len() implies segments[a].end <= segments[b].start by {
        lemma_ordered_pair(segments, a, b, duration);
    }
}

proof fn lemma_ordered_pair(segments: Seq<VideoSegment>, a: int, b: int, duration: int)
    requires
        tiles(segments, duration),
        0 <= a < b < segments.len(),
    ensures
        segments[a].end <= segments[b].start,
    decreases b - a,
{
    let m = b - 1;
    assert(segments[m].end == segments[b].start);
    if a < m {
        lemma_ordered_pair(segments, a, m, duration);
    }
}

/// What is kept of the first `n` segments of a tiled timeline.
proof fn lemma_kept_prefix(segments: Seq<VideoSegment>, n: int, duration: int)
    requires
        tiles(segments, duration),
        0 <= n <= segments.len(),
    ensures
        ({
            let cuts = cuts_of(segments.take(n));
            let t = cuts_end(cuts);
            let keep = kept_before(cuts);
            &&& 0 <= t
            &&& t <= (if n == 0 {
                0
            } else {
                segments[n - 1].end as int
            })
            &&& cuts.len() == 0 ==> t == 0 && keep.len() == 0
            &&& (cuts.len() == 0 <==> forall|k: int|
                0 <= k < n ==> !(#[trigger] segments[k]).removed)
            &&& forall|k: int|
                0 <= k < n && (#[trigger] segments[k]).end > t ==> !segments[k].removed
                    && segments[k].start >= t
            &&& forall|k: int| 0 <= k < keep.len() ==> 0 <= (#[trigger] keep[k]).0 < keep[k].1 <= t
            &&& forall|x: int|
                0 <= x < t ==> (#[trigger] in_ranges(keep, x) <==> in_kept_segment(segments, x))
            &&& forall|a: int, b: int|
                #![trigger keep[a], keep[b]]
                0 <= a < b < keep.len() ==> keep[a].1 <= keep[b].0
        }),
    decreases n,
{
    lemma_ordered(segments, duration);
    if n == 0 {
        assert(segments.take(0).len() == 0);
        assert(cuts_of(segments.take(0)) =~= Seq::empty());
    } else {
        lemma_kept_prefix(segments, n - 1, duration);
        assert(segments.take(n).drop_last() =~= segments.take(n - 1));
        let before = cuts_of(segments.take(n - 1));
        let cuts = cuts_of(segments.take(n));
        let seg = segments[n - 1];
        let t0 = cuts_end(before);
        let keep0 = kept_before(before);
        if n > 1 {
            assert(segments[n - 2].end == segments[n - 1].start);
        }
        if seg.removed {
            assert(cuts.drop_last() =~= before);
            let t = cuts_end(cuts);
            let keep = kept_before(cuts);
            assert(segments[n - 1].removed);
            assert(t == (if seg.end > t0 { seg.end as int } else { t0 }));
            // the stretch between the previous cut and this one is made of
            // whole kept segments
            assert forall|x: int| 0 <= x < t implies (#[trigger] in_ranges(keep, x)
                <==> in_kept_segment(segments, x)) by {
                if x < t0 {
                    assert(in_ranges(keep0, x) <==> in_kept_segment(segments, x));
                    if in_ranges(keep0, x) {
                        let k = choose|k: int|
                            0 <= k < keep0.len() && (#[trigger] keep0[k]).0 <= x < keep0[k].1;
                        assert(keep[k] == keep0[k]);
                        assert(in_ranges(keep, x));
                    }
                    if in_ranges(keep, x) {
                        let k = choose|k: int|
                            0 <= k < keep.len() && (#[trigger] keep[k]).0 <= x < keep[k].1;
                        assert(k < keep0.len());
                        assert(keep0[k] == keep[k]);
                    }
                } else if x < seg.start {
                    lemma_covering(segments, x, n - 1, duration);
                    let k = choose|k: int|
                        0 <= k < n - 1 && (#[trigger] segments[k]).start <= x < segments[k].end;
                    assert(!segments[k].removed && segments[k].start >= t0);
                    assert(in_kept_segment(segments, x));
                    assert(segments[k].end <= segments[n - 1].start);
                    assert(segments[k].end - segments[k].start >= MIN_SEGMENT);
                    assert(seg.start > t0 + KEEP_GAP);
                    assert(keep.last() == (t0 as i64, seg.start));
                    assert(keep[keep.len() - 1].0 <= x < keep[keep.len() - 1].1);
                } else {
                    assert(segments[n - 1].start <= x < segments[n - 1].end);
                    if in_kept_segment(segments, x) {
                        let k = choose|k: int|
                            0 <= k < segments.len() && !(#[trigger] segments[k]).removed
                                && segments[k].start <= x < segments[k].end;
                        assert(k != n - 1);
                    }
                    if in_ranges(keep, x) {
                        let k = choose|k: int|
                            0 <= k < keep.len() && (#[trigger] keep[k]).0 <= x < keep[k].1;
                        if k < keep0.len() {
                            assert(keep0[k] == keep[k]);
                        }
                    }
                }
            }
        }
    }
}

/// The first `n` segments of a tiled timeline cover every time up to the end
/// of the last of them.
proof fn lemma_covering(segments: Seq<VideoSegment>, x: int, n: int, duration: int)
    requires
        tiles(segments, duration),
        0 < n <= segments.len(),
        0 <= x < segments[n - 1].end,
    ensures
        exists|k: int| 0 <= k < n && (#[trigger] segments[k]).start <= x < segments[k].end,
    decreases n,
{
    if segments[n - 1].start <= x {
        assert(segments[n - 1].start <= x < segments[n - 1].end);
    } else {
        assert(n > 1);
        assert(segments[n - 2].end == segments[n - 1].start);
        lemma_covering(segments, x, n - 1, duration);
    }
}

/// What an export keeps is what the timeline shows as kept: of an edited
/// video, the ranges hold exactly the times inside segments that are not
/// removed. They run forwards and do not overlap.
pub proof fn law_keep_is_the_rest(segments: Seq<VideoSegment>, duration: i64)
    requires
        tiles(segments, duration as int),
        cuts_of(segments).len() > 0,
    ensures
        forall|x: int|
            0 <= x < duration ==> (#[trigger] in_ranges(keep_of(cuts_of(segments), duration), x)
                <==> in_kept_segment(segments, x)),
        forall|k: int|
            0 <= k < keep_of(cuts_of(segments), duration).len() ==> 0 <= (
            #[trigger] keep_of(cuts_of(segments), duration)[k]).0 <= keep_of(
                cuts_of(segments),
                duration,
            )[k].1 <= duration,
        forall|a: int, b: int|
            #![trigger keep_of(cuts_of(segments), duration)[a], keep_of(cuts_of(segments), duration)[b]]
            0 <= a < b < keep_of(cuts_of(segments), duration).len() ==> keep_of(
                cuts_of(segments),
                duration,
            )[a].1 <= keep_of(cuts_of(segments), duration)[b].0,
{
    let n = segments.len() as int;
    assert(segments.take(n) =~= segments);
    assert forall|x: int| 0 <= x < duration implies (#[trigger] in_ranges(
        keep_of(cuts_of(segments), duration),
        x,
    ) <==> in_kept_segment(segments, x)) by {
        lemma_keep_at(segments, x, duration);
    }
    lemma_kept_prefix(segments, n, duration as int);
    lemma_last_end(segments, duration as int);
}

proof fn lemma_last_end(segments: Seq<VideoSegment>, duration: int)
    requires
        tiles(segments, duration),
    ensures
        segments.len() > 0 ==> segments.last().end <= duration,
{
}

/// A further range adds its own times.
proof fn lemma_one_more_range(keep: Seq<(i64, i64)>, last: (i64, i64), x: int)
    ensures
        in_ranges(keep.push(last), x) <==> in_ranges(keep, x) || last.0 <= x < last.1,
{
    let more = keep.push(last);
    if in_ranges(keep, x) {
        let k = choose|k: int| 0 <= k < keep.len() && (#[trigger] keep[k]).0 <= x < keep[k].1;
        assert(more[k] == keep[k]);
    }
    if last.0 <= x < last.1 {
        assert(more[keep.len() as int] == last);
    }
    if in_ranges(more, x) {
        let k = choose|k: int| 0 <= k < more.len() && (#[trigger] more[k]).0 <= x < more[k].1;
        if k < keep.len() {
            assert(keep[k] == more[k]);
        }
    }
}

/// Behind the last cut everything is kept, and where there is anything it is
/// long enough to be a range.
proof fn lemma_kept_behind(segments: Seq<VideoSegment>, x: int, t: int, duration: int)
    requires
        tiles(segments, duration),
        0 <= t <= x < duration,
        segments.len() > 1,
        forall|k: int|
            0 <= k < segments.len() && (#[trigger] segments[k]).end > t ==> !segments[k].removed
                && segments[k].start >= t,
    ensures
        in_kept_segment(segments, x),
        t + KEEP_GAP < duration,
{
    let n = segments.len() as int;
    lemma_covering(segments, x, n, duration);
    let k = choose|k: int| 0 <= k < n && (#[trigger] segments[k]).start <= x < segments[k].end;
    assert(!segments[k].removed && segments[k].start >= t);
    assert(segments[k].end - segments[k].start >= MIN_SEGMENT);
    if k < n - 1 {
        lemma_ordered_pair(segments, k, n - 1, duration);
        assert(segments[n - 1].start <= segments[n - 1].end);
    }
}

/// A time is in the ranges to keep if it is in a segment that is kept.
#[verifier::spinoff_prover]
proof fn lemma_keep_at(segments: Seq<VideoSegment>, x: int, duration: i64)
    requires
        tiles(segments, duration as int),
        cuts_of(segments).len() > 0,
        0 <= x < duration,
    ensures
        in_ranges(keep_of(cuts_of(segments), duration), x) <==> in_kept_segment(segments, x),
{
    let n = segments.len() as int;
    assert(segments.take(n) =~= segments);
    lemma_kept_prefix(segments, n, duration as int);
    let cuts = cuts_of(segments);
    let t = cuts_end(cuts);
    let keep0 = kept_before(cuts);
    lemma_one_more_range(keep0, (t as i64, duration), x);
    lemma_one_more_range(keep0, (0, 0), x);
    if x < t {
        assert(in_ranges(keep0, x) <==> in_kept_segment(segments, x));
    } else {
        lemma_some_removed(segments, n);
        let k = choose|k: int| 0 <= k < n && (#[trigger] segments[k]).removed;
        assert(segments[k].end <= t);
        assert(n > 1);
        lemma_kept_behind(segments, x, t, duration as int);
    }
}

/// Where there are cuts, one of the segments is removed.
proof fn lemma_some_removed(segments: Seq<VideoSegment>, n: int)
    requires
        0 <= n <= segments.len(),
        cuts_of(segments.take(n)).len() > 0,
    ensures
        exists|k: int| 0 <= k < n && (#[trigger] segments[k]).removed,
    decreases n,
{
    if n > 0 {
        assert(segments.take(n).drop_last() =~= segments.take(n - 1));
        if segments[n - 1].removed {
        } else {
            lemma_some_removed(segments, n - 1);
        }
    }
}

/// The list of ranges to keep is empty for an unedited video only, so an
/// export never takes "everything was cut" for "nothing was cut".
pub proof fn law_empty_keep_means_unedited(segments: Seq<VideoSegment>, duration: i64)
    ensures
        keep_of(cuts_of(segments), duration).len() == 0 <==> forall|i: int|
            0 <= i < segments.len() ==> !(#[trigger] segments[i]).removed,
{
    let n = segments.len() as int;
    assert(segments.take(n) =~= segments);
    if cuts_of(segments).len() > 0 {
        lemma_some_removed(segments, n);
    } else {
        lemma_none_removed(segments, n);
    }
}

proof fn lemma_none_removed(segments: Seq<VideoSegment>, n: int)
    requires
        0 <= n <= segments.len(),
        cuts_of(segments.take(n)).len() == 0,
    ensures
        forall|k: int| 0 <= k < n ==> !(#[trigger] segments[k]).removed,
    decreases n,
{
    if n > 0 {
        assert(segments.take(n).drop_last() =~= segments.take(n - 1));
        lemma_none_removed(segments, n - 1);
    }
}

/// A segment is split where at least a tenth of a second stays on both sides.
/// It becomes two that meet at the time and are removed or kept as it was; the
/// others stay, in their order.
pub proof fn law_split_cuts_at_the_time(segments: Seq<VideoSegment>, i: int, t: i64, j: int)
    requires
        0 <= i < segments.len(),
        0 <= j < segments.len(),
    ensures
        splits(segments[i], t as int) == (t - segments[i].start >= 100_000_000 && segments[i].end - t
            >= 100_000_000),
        ({
            let after = split_segments(segments, i, t);
            let (a, b) = (after[i], after[i + 1]);
            &&& after.len() == segments.len() + 1
            &&& a.start == segments[i].start && a.end == t
            &&& b.start == t && b.end == segments[i].end
            &&& a.removed == segments[i].removed && b.removed == segments[i].removed
            &&& j < i ==> after[j] == segments[j]
            &&& j > i ==> after[j + 1] == segments[j]
        }),
{
}

/// Removing or restoring a segment changes that segment's mark and nothing
/// else, and the one takes back the other.
pub proof fn law_flag_marks_one_segment(segments: Seq<VideoSegment>, i: int, removed: bool, j: int)
    requires
        0 <= i < segments.len(),
        0 <= j < segments.len(),
    ensures
        flag_segment(segments, i, removed).len() == segments.len(),
        flag_segment(segments, i, removed)[i].removed == removed,
        flag_segment(segments, i, removed)[j].start == segments[j].start,
        flag_segment(segments, i, removed)[j].end == segments[j].end,
        j != i ==> flag_segment(segments, i, removed)[j].removed == segments[j].removed,
        flag_segment(flag_segment(segments, i, removed), i, segments[i].removed) == segments,
{
    assert(flag_segment(flag_segment(segments, i, removed), i, segments[i].removed) =~= segments);
}

/// Dragging the boundary behind segment `i` moves it to the wanted time, or to
/// the nearest one that leaves both segments a tenth of a second. Nothing else
/// moves.
pub proof fn law_drag_moves_one_boundary(segments: Seq<VideoSegment>, i: int, to: int, j: int)
    requires
        0 <= i,
        i + 1 < segments.len(),
        segments[i + 1].end - segments[i].start >= 200_000_000,
        0 <= j < segments.len(),
    ensures
        ({
            let after = drag_boundary(segments, i, to);
            let (lo, hi) = (
                segments[i].start + 100_000_000,
                segments[i + 1].end - 100_000_000,
            );
            &&& after.len() == segments.len()
            &&& after[i].end == after[i + 1].start
            &&& lo <= to <= hi ==> after[i].end == to
            &&& to < lo ==> after[i].end == lo
            &&& to > hi ==> after[i].end == hi
            &&& j != i + 1 ==> after[j].start == segments[j].start
            &&& j != i ==> after[j].end == segments[j].end
            &&& after[j].removed == segments[j].removed
        }),
{
}

/// The cuts are the ranges of the removed segments, each once and in order.
pub proof fn law_cuts_are_the_removed_segments(segments: Seq<VideoSegment>, s: VideoSegment)
    ensures
        cuts_of(segments.push(s)) == (if s.removed {
            cuts_of(segments).push((s.start, s.end))
        } else {
            cuts_of(segments)
        }),
        cuts_of(Seq::empty()).len() == 0,
        forall|x: int| #[trigger]
            in_ranges(cuts_of(segments), x) <==> exists|i: int|
                0 <= i < segments.len() && (#[trigger] segments[i]).removed && segments[i].start <= x
                    < segments[i].end,
    decreases segments.len(),
{
    assert(segments.push(s).drop_last() =~= segments);
    if segments.len() > 0 {
        let rest = segments.drop_last();
        let last = segments.last();
        law_cuts_are_the_removed_segments(rest, last);
        assert(rest.push(last) =~= segments);
        let (a, b) = (cuts_of(rest), cuts_of(segments));
        let n = segments.len() - 1;
        assert forall|x: int| #[trigger]
            in_ranges(b, x) <==> exists|i: int|
                0 <= i < segments.len() && (#[trigger] segments[i]).removed && segments[i].start <= x
                    < segments[i].end by {
            if in_ranges(b, x) {
                let k = choose|k: int| 0 <= k < b.len() && (#[trigger] b[k]).0 <= x < b[k].1;
                if k < a.len() {
                    assert(a[k] == b[k]);
                    assert(in_ranges(a, x));
                    let i = choose|i: int|
                        0 <= i < rest.len() && (#[trigger] rest[i]).removed && rest[i].start <= x
                            < rest[i].end;
                    assert(segments[i] == rest[i]);
                } else {
                    assert(segments[n] == last);
                }
            }
            if exists|i: int|
                0 <= i < segments.len() && (#[trigger] segments[i]).removed && segments[i].start <= x
                    < segments[i].end {
                let i = choose|i: int|
                    0 <= i < segments.len() && (#[trigger] segments[i]).removed && segments[i].start
                        <= x < segments[i].end;
                if i < n {
                    assert(rest[i] == segments[i]);
                    assert(in_ranges(a, x));
                    let k = choose|k: int| 0 <= k < a.len() && (#[trigger] a[k]).0 <= x < a[k].1;
                    assert(b[k] == a[k]);
                } else {
                    assert(b[a.len() as int] == (last.start, last.end));
                }
            }
        }
    }
}

/// What is kept of an edited video begins at its start or where a removed
/// segment ends, and ends at its end or where a removed segment begins.
pub proof fn law_kept_ranges_lie_between_cuts(segments: Seq<VideoSegment>, duration: i64, x: int)
    requires
        tiles(segments, duration as int),
        exists|i: int| 0 <= i < segments.len() && (#[trigger] segments[i]).removed,
        0 <= x < duration,
    ensures
        (exists|k: int|
            0 <= k < keep_of(cuts_of(segments), duration).len() && (
            #[trigger] keep_of(cuts_of(segments), duration)[k]).0 <= x < keep_of(
                cuts_of(segments),
                duration,
            )[k].1) <==> (exists|i: int|
            0 <= i < segments.len() && !(#[trigger] segments[i]).removed && segments[i].start <= x
                < segments[i].end),
{
    law_empty_keep_means_unedited(segments, duration);
    if cuts_of(segments).len() == 0 {
        assert(keep_of(cuts_of(segments), duration).len() == 0);
    }
    law_keep_is_the_rest(segments, duration);
    assert(in_ranges(keep_of(cuts_of(segments), duration), x) <==> in_kept_segment(segments, x));
}

/// No stretch of a twentieth of a second or less is kept; where nothing else is
/// left, a single empty one stands for it.
pub proof fn law_short_stretches_are_dropped(cuts: Seq<(i64, i64)>, duration: i64, k: int)
    requires
        0 <= k < keep_of(cuts, duration).len(),
    ensures
        keep_of(cuts, duration)[k].1 - keep_of(cuts, duration)[k].0 > 50_000_000 || keep_of(
            cuts,
            duration,
        ) == seq![(0i64, 0i64)],
{
    lemma_kept_long(cuts);
}

proof fn lemma_kept_long(cuts: Seq<(i64, i64)>)
    ensures
        forall|k: int|
            0 <= k < kept_before(cuts).len() ==> (#[trigger] kept_before(cuts)[k]).1 - kept_before(
                cuts,
            )[k].0 > 50_000_000,
        0 <= cuts_end(cuts) <= i64::MAX,
    decreases cuts.len(),
{
    if cuts.len() > 0 {
        let rest = cuts.drop_last();
        lemma_kept_long(rest);
        let (a, b) = (kept_before(rest), kept_before(cuts));
        assert forall|k: int| 0 <= k < b.len() implies (#[trigger] b[k]).1 - b[k].0 > 50_000_000 by {
            if k < a.len() {
                assert(b[k] == a[k]);
            }
        }
    }
}

} // verus!
