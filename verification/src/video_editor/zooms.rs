//! Zoom windows of the edit state: how they are placed, and what playback
//! and export show of them.
use vstd::prelude::*;
use crate::video::{ZoomPoint, LEVEL_ONE};
use crate::video_editor::state::{clamped, Edge, EditState, EditView, MAX_LEVEL, MIN_ZOOM_DURATION};

verus! {

broadcast use vstd::seq_lib::group_seq_properties;

/// Whether the windows `[a0, a1)` and `[b0, b1)` share a time.
pub open spec fn overlap(a0: int, a1: int, b0: int, b1: int) -> bool {
    a0 < b1 && b0 < a1 && a0 < a1 && b0 < b1
}

/// No two zooms share a time.
pub open spec fn zooms_apart(zooms: Seq<ZoomPoint>) -> bool {
    forall|i: int, j: int|
        #![trigger zooms[i], zooms[j]]
        0 <= i < j < zooms.len() ==> !overlap(
            zooms[i].start(),
            zooms[i].end(),
            zooms[j].start(),
            zooms[j].end(),
        )
}

/// `other` bounds a window `[start, end)` from below: it ends before it, or
/// shares a time with it and is centred no later than `anchor`.
pub open spec fn lies_before(other: ZoomPoint, start: int, end: int, anchor: int) -> bool {
    other.end() <= start || (overlap(other.start(), other.end(), start, end) && other.t <= anchor)
}

/// `other` bounds the window from above.
pub open spec fn lies_after(other: ZoomPoint, start: int, end: int, anchor: int) -> bool {
    other.start() >= end || (overlap(other.start(), other.end(), start, end) && other.t > anchor)
}

/// The latest end of the zooms before the window, at least 0. Zoom `skip` is
/// left out.
pub open spec fn previous_end(
    zooms: Seq<ZoomPoint>,
    skip: Option<int>,
    start: int,
    end: int,
    anchor: int,
) -> int
    decreases zooms.len(),
{
    if zooms.len() == 0 {
        0
    } else {
        let rest = previous_end(zooms.drop_last(), skip, start, end, anchor);
        let last = zooms.last();
        if skip != Some(zooms.len() - 1) && lies_before(last, start, end, anchor) && last.end()
            > rest {
            last.end()
        } else {
            rest
        }
    }
}

/// The earliest start of the zooms after the window, at most `duration`. Zoom
/// `skip` is left out.
pub open spec fn next_start(
    zooms: Seq<ZoomPoint>,
    skip: Option<int>,
    start: int,
    end: int,
    anchor: int,
    duration: int,
) -> int
    decreases zooms.len(),
{
    if zooms.len() == 0 {
        duration
    } else {
        let rest = next_start(zooms.drop_last(), skip, start, end, anchor, duration);
        let last = zooms.last();
        if skip != Some(zooms.len() - 1) && lies_after(last, start, end, anchor) && last.start()
            < rest {
            last.start()
        } else {
            rest
        }
    }
}

pub open spec fn larger(a: int, b: int) -> int {
    if a < b {
        b
    } else {
        a
    }
}

pub open spec fn smaller(a: int, b: int) -> int {
    if a < b {
        a
    } else {
        b
    }
}

/// The time that decides on which side of a zoom the others are: the old
/// centre of one that is being changed, else its centre.
pub open spec fn anchor_of(zooms: Seq<ZoomPoint>, z: ZoomPoint, skip: Option<int>) -> int {
    match skip {
        Some(i) => if 0 <= i < zooms.len() {
            zooms[i].t as int
        } else {
            z.t as int
        },
        None => z.t as int,
    }
}

/// The window that a zoom gets among the others when it asks for `w`: cut to
/// `[0, duration]` and to its neighbours, and empty where they leave no room.
/// A zoom that is being changed (`skip`) keeps the others on the sides on
/// which they lie of its old centre.
pub open spec fn placed_window(
    zooms: Seq<ZoomPoint>,
    w: (int, int),
    anchor: int,
    skip: Option<int>,
    duration: int,
) -> (int, int) {
    let start = larger(w.0, 0);
    let end = smaller(w.1, duration);
    let s = smaller(
        larger(start, previous_end(zooms, skip, start, end, anchor)),
        larger(start, end),
    );
    let e = smaller(end, next_start(zooms, skip, start, end, anchor, duration));
    (s, larger(s, e))
}

/// The zoom with the window that it gets when it asks for `w`.
pub open spec fn placed_zoom(
    zooms: Seq<ZoomPoint>,
    z: ZoomPoint,
    w: (int, int),
    skip: Option<int>,
    duration: int,
) -> ZoomPoint {
    let p = placed_window(zooms, w, anchor_of(zooms, z, skip), skip, duration);
    z.with_window(p.0, p.1)
}

/// The zoom with the window that it gets when it asks for its own.
pub open spec fn clamped_zoom(
    zooms: Seq<ZoomPoint>,
    z: ZoomPoint,
    skip: Option<int>,
    duration: int,
) -> ZoomPoint {
    placed_zoom(zooms, z, (z.start(), z.end()), skip, duration)
}

/// All windows run forwards and begin inside the range of times, as every
/// placed zoom does.
pub open spec fn zooms_placed(zooms: Seq<ZoomPoint>) -> bool {
    forall|i: int|
        0 <= i < zooms.len() ==> (#[trigger] zooms[i]).duration >= 0 && zooms[i].start() >= 0
            && zooms[i].end() <= i64::MAX
}

/// `z` put into a list sorted by centre, behind those with the same centre.
pub open spec fn inserted(zooms: Seq<ZoomPoint>, z: ZoomPoint) -> Seq<ZoomPoint>
    decreases zooms.len(),
{
    if zooms.len() == 0 || zooms.last().t <= z.t {
        zooms.push(z)
    } else {
        inserted(zooms.drop_last(), z).push(zooms.last())
    }
}

/// The zooms in the order of their centres; those with the same centre keep
/// their order.
pub open spec fn sorted_zooms(zooms: Seq<ZoomPoint>) -> Seq<ZoomPoint>
    decreases zooms.len(),
{
    if zooms.len() == 0 {
        Seq::empty()
    } else {
        inserted(sorted_zooms(zooms.drop_last()), zooms.last())
    }
}

/// The window of a zoom after one of its edges was dragged to `to`.
pub open spec fn dragged_window(z: ZoomPoint, edge: Edge, to: int) -> (int, int) {
    match edge {
        Edge::Start => (smaller(to, z.end() - MIN_ZOOM_DURATION), z.end()),
        Edge::End => (z.start(), larger(to, z.start() + MIN_ZOOM_DURATION)),
    }
}

/// How far a visible stretch of `size / level` of a picture of that size may
/// be centred from its edge: half of the stretch.
pub open spec fn half_view(size: int, level: int) -> int {
    size * LEVEL_ONE / level / 2
}

proof fn lemma_previous(
    zooms: Seq<ZoomPoint>,
    skip: Option<int>,
    start: int,
    end: int,
    anchor: int,
    i: int,
)
    requires
        0 <= i < zooms.len(),
        skip != Some(i),
        lies_before(zooms[i], start, end, anchor),
    ensures
        zooms[i].end() <= previous_end(zooms, skip, start, end, anchor),
    decreases zooms.len(),
{
    if i < zooms.len() - 1 {
        assert(zooms.drop_last()[i] == zooms[i]);
        lemma_previous(zooms.drop_last(), skip, start, end, anchor, i);
    }
}

proof fn lemma_next(
    zooms: Seq<ZoomPoint>,
    skip: Option<int>,
    start: int,
    end: int,
    anchor: int,
    duration: int,
    i: int,
)
    requires
        0 <= i < zooms.len(),
        skip != Some(i),
        lies_after(zooms[i], start, end, anchor),
    ensures
        next_start(zooms, skip, start, end, anchor, duration) <= zooms[i].start(),
    decreases zooms.len(),
{
    if i < zooms.len() - 1 {
        assert(zooms.drop_last()[i] == zooms[i]);
        lemma_next(zooms.drop_last(), skip, start, end, anchor, duration, i);
    }
}

/// A placed zoom shares no time with any of the others and lies inside the
/// range of times. Where the window asked for meets the video, it lies inside
/// both. Nothing but the window changes.
pub proof fn law_placed_zoom_is_apart(
    zooms: Seq<ZoomPoint>,
    z: ZoomPoint,
    w: (int, int),
    skip: Option<int>,
    duration: int,
)
    requires
        w.0 <= i64::MAX,
        0 <= duration <= i64::MAX,
    ensures
        ({
            let p = placed_zoom(zooms, z, w, skip, duration);
            &&& p.duration >= 0
            &&& 0 <= p.start()
            &&& p.end() <= i64::MAX
            &&& p.duration > 0 ==> p.end() <= duration
            &&& w.0 <= w.1 && w.0 <= duration && w.1 >= 0 ==> w.0 <= p.start() && p.end() <= w.1
                && p.end() <= duration
            &&& (p.cx, p.cy, p.level) == (z.cx, z.cy, z.level)
            &&& (p.start(), p.end()) == placed_window(
                zooms,
                w,
                anchor_of(zooms, z, skip),
                skip,
                duration,
            )
            &&& forall|i: int|
                0 <= i < zooms.len() && skip != Some(i) ==> !overlap(
                    (#[trigger] zooms[i]).start(),
                    zooms[i].end(),
                    p.start(),
                    p.end(),
                )
        }),
{
    let start = larger(w.0, 0);
    let end = smaller(w.1, duration);
    let anchor = anchor_of(zooms, z, skip);
    let got = placed_window(zooms, w, anchor, skip, duration);
    let p = placed_zoom(zooms, z, w, skip, duration);
    assert(start <= got.0 <= got.1 <= larger(start, end));
    assert(p.start() == got.0 && p.end() == got.1);
    assert forall|i: int| 0 <= i < zooms.len() && skip != Some(i) implies !overlap(
        (#[trigger] zooms[i]).start(),
        zooms[i].end(),
        p.start(),
        p.end(),
    ) by {
        if lies_before(zooms[i], start, end, anchor) {
            lemma_previous(zooms, skip, start, end, anchor, i);
        }
        if lies_after(zooms[i], start, end, anchor) {
            lemma_next(zooms, skip, start, end, anchor, duration, i);
        }
    }
}

/// A zoom's window lies around its centre and is as long as the zoom lasts.
pub proof fn law_window_is_centred(z: ZoomPoint)
    requires
        z.duration >= 0,
    ensures
        z.end() - z.start() == z.duration,
        0 <= (z.end() - z.t) - (z.t - z.start()) <= 1,
{
}

/// A zoom takes all of the room that the others leave of the window that it
/// asks for. Between a zoom before it and one behind it, or the ends of the
/// window, it reaches from the end of the one to the start of the other.
pub proof fn law_placed_zoom_fills_the_gap(
    zooms: Seq<ZoomPoint>,
    z: ZoomPoint,
    w: (int, int),
    skip: Option<int>,
    duration: int,
    lo: int,
    hi: int,
)
    requires
        0 <= w.0 <= lo < hi <= w.1 <= duration <= i64::MAX,
        forall|j: int|
            0 <= j < zooms.len() && skip != Some(j) ==> (#[trigger] zooms[j]).duration > 0 && (
            zooms[j].t + (zooms[j].duration - zooms[j].duration / 2) <= lo && zooms[j].t
                <= anchor_of(zooms, z, skip) || zooms[j].t - zooms[j].duration / 2 >= hi && zooms[j].t
                > anchor_of(zooms, z, skip)),
        lo == w.0 || exists|j: int|
            0 <= j < zooms.len() && skip != Some(j) && (#[trigger] zooms[j]).t + (zooms[j].duration
                - zooms[j].duration / 2) == lo,
        hi == w.1 || exists|j: int|
            0 <= j < zooms.len() && skip != Some(j) && (#[trigger] zooms[j]).t - zooms[j].duration
                / 2 == hi,
    ensures
        ({
            let p = placed_zoom(zooms, z, w, skip, duration);
            &&& p.t - p.duration / 2 == lo
            &&& p.duration == hi - lo
            &&& p.cx == z.cx && p.cy == z.cy && p.level == z.level
        }),
{
    let anchor = anchor_of(zooms, z, skip);
    lemma_gap(zooms, skip, w.0, w.1, anchor, duration, lo, hi);
    if lo != w.0 {
        let j = choose|j: int|
            0 <= j < zooms.len() && skip != Some(j) && (#[trigger] zooms[j]).t + (zooms[j].duration
                - zooms[j].duration / 2) == lo;
        lemma_previous(zooms, skip, w.0, w.1, anchor, j);
    }
    if hi != w.1 {
        let j = choose|j: int|
            0 <= j < zooms.len() && skip != Some(j) && (#[trigger] zooms[j]).t - zooms[j].duration
                / 2 == hi;
        lemma_next(zooms, skip, w.0, w.1, anchor, duration, j);
    }
}

proof fn lemma_gap(
    zooms: Seq<ZoomPoint>,
    skip: Option<int>,
    start: int,
    end: int,
    anchor: int,
    duration: int,
    lo: int,
    hi: int,
)
    requires
        0 <= start <= lo < hi <= end <= duration,
        forall|j: int|
            0 <= j < zooms.len() && skip != Some(j) ==> (#[trigger] zooms[j]).duration > 0 && (
            zooms[j].end() <= lo && zooms[j].t <= anchor || zooms[j].start() >= hi && zooms[j].t
                > anchor),
    ensures
        previous_end(zooms, skip, start, end, anchor) <= lo,
        next_start(zooms, skip, start, end, anchor, duration) >= hi,
    decreases zooms.len(),
{
    if zooms.len() > 0 {
        let rest = zooms.drop_last();
        assert(zooms.last() == zooms[zooms.len() - 1]);
        assert forall|j: int| 0 <= j < rest.len() && skip != Some(j) implies (
        #[trigger] rest[j]).duration > 0 && (rest[j].end() <= lo && rest[j].t <= anchor
            || rest[j].start() >= hi && rest[j].t > anchor) by {
            assert(rest[j] == zooms[j]);
        }
        lemma_gap(rest, skip, start, end, anchor, duration, lo, hi);
    }
}

/// Dragging an edge of a zoom with room moves that edge to the wanted time and
/// leaves the other where it is; the window stays at least 0.3 seconds long.
pub proof fn law_dragged_edge_follows(z: ZoomPoint, to: int)
    requires
        z.duration >= 0,
    ensures
        ({
            let (s, e) = dragged_window(z, Edge::Start, to);
            &&& e == z.end()
            &&& e - s >= 300_000_000
            &&& to <= z.end() - 300_000_000 ==> s == to
            &&& to > z.end() - 300_000_000 ==> s == z.end() - 300_000_000
        }),
        ({
            let (s, e) = dragged_window(z, Edge::End, to);
            &&& s == z.start()
            &&& e - s >= 300_000_000
            &&& to >= z.start() + 300_000_000 ==> e == to
            &&& to < z.start() + 300_000_000 ==> e == z.start() + 300_000_000
        }),
{
}

/// What a zoom shows of a picture stays inside of it however far its centre is
/// moved: half of the stretch fits on each side of the nearest centre.
pub proof fn law_moved_centre_stays_inside(c: int, size: int, level: int)
    requires
        size >= 0,
        level >= 1_000_000,
    ensures
        ({
            let h = half_view(size, level);
            let to = clamped(c, h, size - h);
            &&& 0 <= h && 2 * h * level <= size * 1_000_000 < (2 * h + 2) * level
            &&& h <= to <= size - h
            &&& h <= c <= size - h ==> to == c
            &&& c < h ==> to == h
            &&& c > size - h ==> to == size - h
        }),
{
    lemma_view_fits(size, level);
    let v = size * LEVEL_ONE / level;
    let h = half_view(size, level);
    assert(v * level <= size * 1_000_000 < (v + 1) * level) by (nonlinear_arith)
        requires
            v == size * 1_000_000 / level,
            level > 0,
    ;
    assert(2 * h <= v < 2 * h + 2);
    assert(2 * h * level <= v * level && (v + 1) * level <= (2 * h + 2) * level)
        by (nonlinear_arith)
        requires
            2 * h <= v,
            v + 1 <= 2 * h + 2,
            level > 0,
    ;
}

/// A zoom that is clear of the others and inside the video is placed as it is.
pub proof fn law_free_zoom_is_unchanged(
    zooms: Seq<ZoomPoint>,
    z: ZoomPoint,
    skip: Option<int>,
    duration: int,
)
    requires
        z.fits(),
        0 <= z.start(),
        z.end() <= duration,
        z.duration > 0,
        forall|i: int|
            0 <= i < zooms.len() && skip != Some(i) ==> (#[trigger] zooms[i]).end() <= z.start()
                || zooms[i].start() >= z.end(),
        forall|i: int| 0 <= i < zooms.len() ==> (#[trigger] zooms[i]).duration >= 0,
    ensures
        clamped_zoom(zooms, z, skip, duration) == z,
{
    let anchor = anchor_of(zooms, z, skip);
    lemma_free(zooms, skip, z.start(), z.end(), anchor, duration);
}

proof fn lemma_free(
    zooms: Seq<ZoomPoint>,
    skip: Option<int>,
    start: int,
    end: int,
    anchor: int,
    duration: int,
)
    requires
        0 <= start < end <= duration,
        forall|i: int|
            0 <= i < zooms.len() && skip != Some(i) ==> (#[trigger] zooms[i]).end() <= start
                || zooms[i].start() >= end,
        forall|i: int| 0 <= i < zooms.len() ==> (#[trigger] zooms[i]).duration >= 0,
    ensures
        previous_end(zooms, skip, start, end, anchor) <= start,
        next_start(zooms, skip, start, end, anchor, duration) >= end,
    decreases zooms.len(),
{
    if zooms.len() > 0 {
        let rest = zooms.drop_last();
        assert forall|i: int| 0 <= i < rest.len() implies (#[trigger] rest[i]).duration >= 0 && (
        skip == Some(i) || rest[i].end() <= start || rest[i].start() >= end) by {
            assert(rest[i] == zooms[i]);
        }
        assert(zooms.last() == zooms[zooms.len() - 1]);
        lemma_free(rest, skip, start, end, anchor, duration);
    }
}

proof fn lemma_inserted(zooms: Seq<ZoomPoint>, z: ZoomPoint)
    ensures
        inserted(zooms, z).len() == zooms.len() + 1,
        inserted(zooms, z).to_multiset() =~= zooms.to_multiset().insert(z),
        inserted(zooms, z).contains(z),
        (forall|i: int, j: int| 0 <= i < j < zooms.len() ==> zooms[i].t <= zooms[j].t) ==> (forall|
            i: int,
            j: int,
        |
            0 <= i < j < inserted(zooms, z).len() ==> inserted(zooms, z)[i].t <= inserted(
                zooms,
                z,
            )[j].t),
    decreases zooms.len(),
{
    zooms.to_multiset_ensures();
    if zooms.len() == 0 || zooms.last().t <= z.t {
        assert(inserted(zooms, z).last() == z);
    } else {
        let rest = zooms.drop_last();
        lemma_inserted(rest, z);
        rest.to_multiset_ensures();
        inserted(rest, z).to_multiset_ensures();
        assert(zooms =~= rest.push(zooms.last()));
        assert(inserted(rest, z).push(zooms.last()).to_multiset() =~= inserted(
            rest,
            z,
        ).to_multiset().insert(zooms.last()));
        let k = choose|k: int| 0 <= k < inserted(rest, z).len() && inserted(rest, z)[k] == z;
        assert(inserted(zooms, z)[k] == z);
        if forall|i: int, j: int| 0 <= i < j < zooms.len() ==> zooms[i].t <= zooms[j].t {
            assert forall|i: int, j: int| 0 <= i < j < rest.len() implies rest[i].t <= rest[j].t by {
                assert(rest[i] == zooms[i] && rest[j] == zooms[j]);
            }
            let w = inserted(rest, z);
            assert forall|i: int| 0 <= i < w.len() implies (#[trigger] w[i]).t <= zooms.last().t by {
                assert(w.to_multiset().contains(w[i])) by {
                    assert(w.contains(w[i]));
                }
                assert(rest.to_multiset().insert(z).contains(w[i]));
                if w[i] != z {
                    assert(rest.to_multiset().contains(w[i]));
                    assert(rest.contains(w[i]));
                    let m = choose|m: int| 0 <= m < rest.len() && rest[m] == w[i];
                    assert(zooms[m] == w[i]);
                }
            }
        }
    }
}

/// Sorting keeps the zooms and puts them in the order of their centres.
pub proof fn law_sorting_orders_zooms(zooms: Seq<ZoomPoint>)
    ensures
        sorted_zooms(zooms).len() == zooms.len(),
        sorted_zooms(zooms).to_multiset() =~= zooms.to_multiset(),
        forall|i: int, j: int|
            #![trigger sorted_zooms(zooms)[i], sorted_zooms(zooms)[j]]
            0 <= i < j < zooms.len() ==> sorted_zooms(zooms)[i].t <= sorted_zooms(zooms)[j].t,
    decreases zooms.len(),
{
    zooms.to_multiset_ensures();
    if zooms.len() > 0 {
        law_sorting_orders_zooms(zooms.drop_last());
        lemma_inserted(sorted_zooms(zooms.drop_last()), zooms.last());
        zooms.drop_last().to_multiset_ensures();
        assert(zooms =~= zooms.drop_last().push(zooms.last()));
    } else {
        assert(sorted_zooms(zooms) =~= zooms);
    }
}

/// Sorting neither adds nor loses a zoom.
pub proof fn lemma_sorted_members(zooms: Seq<ZoomPoint>)
    ensures
        forall|i: int|
            0 <= i < zooms.len() ==> zooms.contains(#[trigger] sorted_zooms(zooms)[i]),
        forall|i: int|
            0 <= i < zooms.len() ==> sorted_zooms(zooms).contains(#[trigger] zooms[i]),
{
    law_sorting_orders_zooms(zooms);
    let s = sorted_zooms(zooms);
    zooms.to_multiset_ensures();
    s.to_multiset_ensures();
    assert forall|i: int| 0 <= i < zooms.len() implies zooms.contains(#[trigger] s[i]) by {
        assert(s.contains(s[i]));
        assert(s.to_multiset().contains(s[i]));
    }
    assert forall|i: int| 0 <= i < zooms.len() implies s.contains(#[trigger] zooms[i]) by {
        assert(zooms.contains(zooms[i]));
        assert(zooms.to_multiset().contains(zooms[i]));
    }
}

spec fn clear_of(zooms: Seq<ZoomPoint>, z: ZoomPoint) -> bool {
    forall|i: int|
        0 <= i < zooms.len() ==> !overlap(
            (#[trigger] zooms[i]).start(),
            zooms[i].end(),
            z.start(),
            z.end(),
        )
}

proof fn lemma_inserted_apart(zooms: Seq<ZoomPoint>, z: ZoomPoint)
    requires
        zooms_apart(zooms),
        clear_of(zooms, z),
    ensures
        zooms_apart(inserted(zooms, z)),
    decreases zooms.len(),
{
    if zooms.len() == 0 || zooms.last().t <= z.t {
    } else {
        let rest = zooms.drop_last();
        assert forall|i: int, j: int|
            #![trigger rest[i], rest[j]]
            0 <= i < j < rest.len() implies !overlap(
            rest[i].start(),
            rest[i].end(),
            rest[j].start(),
            rest[j].end(),
        ) by {
            assert(rest[i] == zooms[i] && rest[j] == zooms[j]);
        }
        assert forall|i: int| 0 <= i < rest.len() implies !overlap(
            (#[trigger] rest[i]).start(),
            rest[i].end(),
            z.start(),
            z.end(),
        ) by {
            assert(rest[i] == zooms[i]);
        }
        lemma_inserted_apart(rest, z);
        let w = inserted(rest, z);
        lemma_inserted(rest, z);
        rest.to_multiset_ensures();
        w.to_multiset_ensures();
        let last = zooms[zooms.len() - 1];
        assert forall|i: int| 0 <= i < w.len() implies !overlap(
            (#[trigger] w[i]).start(),
            w[i].end(),
            last.start(),
            last.end(),
        ) by {
            assert(w.contains(w[i]));
            assert(w.to_multiset().contains(w[i]));
            if w[i] != z {
                assert(rest.to_multiset().contains(w[i]));
                let m = choose|m: int| 0 <= m < rest.len() && rest[m] == w[i];
                assert(zooms[m] == w[i]);
            }
        }
    }
}

/// Sorting keeps the zooms apart.
pub proof fn law_sorting_keeps_zooms_apart(zooms: Seq<ZoomPoint>)
    requires
        zooms_apart(zooms),
    ensures
        zooms_apart(sorted_zooms(zooms)),
    decreases zooms.len(),
{
    if zooms.len() > 0 {
        let rest = zooms.drop_last();
        assert forall|i: int, j: int|
            #![trigger rest[i], rest[j]]
            0 <= i < j < rest.len() implies !overlap(
            rest[i].start(),
            rest[i].end(),
            rest[j].start(),
            rest[j].end(),
        ) by {
            assert(rest[i] == zooms[i] && rest[j] == zooms[j]);
        }
        law_sorting_keeps_zooms_apart(rest);
        lemma_sorted_members(rest);
        law_sorting_orders_zooms(rest);
        let s = sorted_zooms(rest);
        let last = zooms[zooms.len() - 1];
        assert forall|i: int| 0 <= i < s.len() implies !overlap(
            (#[trigger] s[i]).start(),
            s[i].end(),
            last.start(),
            last.end(),
        ) by {
            assert(rest.contains(s[i]));
            let m = choose|m: int| 0 <= m < rest.len() && rest[m] == s[i];
            assert(zooms[m] == s[i]);
        }
        lemma_inserted_apart(s, last);
    }
}

proof fn lemma_sorted_placed(zooms: Seq<ZoomPoint>)
    requires
        zooms_placed(zooms),
    ensures
        zooms_placed(sorted_zooms(zooms)),
{
    lemma_sorted_members(zooms);
    law_sorting_orders_zooms(zooms);
    let s = sorted_zooms(zooms);
    assert forall|i: int| 0 <= i < s.len() implies (#[trigger] s[i]).duration >= 0
        && s[i].start() >= 0 && s[i].end() <= i64::MAX by {
        assert(zooms.contains(s[i]));
        let m = choose|m: int| 0 <= m < zooms.len() && zooms[m] == s[i];
        assert(zooms[m].duration >= 0);
    }
}

/// Placing a zoom in place of zoom `i` keeps the zooms apart.
pub proof fn law_replacing_keeps_zooms_apart(
    zooms: Seq<ZoomPoint>,
    z: ZoomPoint,
    w: (int, int),
    i: int,
    duration: int,
)
    requires
        zooms_apart(zooms),
        w.0 <= i64::MAX,
        0 <= duration <= i64::MAX,
        0 <= i < zooms.len(),
    ensures
        zooms_apart(zooms.update(i, placed_zoom(zooms, z, w, Some(i), duration))),
{
    law_placed_zoom_is_apart(zooms, z, w, Some(i), duration);
    let p = placed_zoom(zooms, z, w, Some(i), duration);
    let after = zooms.update(i, p);
    assert forall|a: int, b: int|
        #![trigger after[a], after[b]]
        0 <= a < b < after.len() implies !overlap(
        after[a].start(),
        after[a].end(),
        after[b].start(),
        after[b].end(),
    ) by {
        if a != i && b != i {
            assert(after[a] == zooms[a] && after[b] == zooms[b]);
        } else if a == i {
            assert(after[b] == zooms[b]);
        } else {
            assert(after[a] == zooms[a]);
        }
    }
}

/// Adding a zoom keeps the zooms apart.
pub proof fn law_adding_keeps_zooms_apart(zooms: Seq<ZoomPoint>, z: ZoomPoint, duration: int)
    requires
        zooms_apart(zooms),
        z.duration >= 0,
        0 <= duration <= i64::MAX,
    ensures
        zooms_apart(sorted_zooms(zooms.push(clamped_zoom(zooms, z, None, duration)))),
{
    law_placed_zoom_is_apart(zooms, z, (z.start(), z.end()), None, duration);
    let p = clamped_zoom(zooms, z, None, duration);
    let after = zooms.push(p);
    assert forall|a: int, b: int|
        #![trigger after[a], after[b]]
        0 <= a < b < after.len() implies !overlap(
        after[a].start(),
        after[a].end(),
        after[b].start(),
        after[b].end(),
    ) by {
        assert(after[a] == zooms[a]);
        if b < zooms.len() {
            assert(after[b] == zooms[b]);
        }
    }
    law_sorting_keeps_zooms_apart(after);
}

impl EditState {
    /// Add a zoom, cut to the video and to the zooms around it, and return the
    /// place it has among the sorted zooms.
    pub fn add_zoom(
        &mut self,
        t: i64,
        cx: i64,
        cy: i64,
        level: u32,
        duration: i64,
        video_duration: i64,
    ) -> (r: usize)
        requires
            zooms_placed(old(self)@.zooms),
            0 <= duration,
            0 <= video_duration,
        ensures
            ({
                let raw = ZoomPoint { t, cx, cy, level, duration };
                let z = clamped_zoom(old(self)@.zooms, raw, None, video_duration as int);
                &&& final(self)@ == (EditView {
                    zooms: sorted_zooms(old(self)@.zooms.push(z)),
                    ..old(self)@
                })
                &&& r < final(self)@.zooms.len()
                &&& final(self)@.zooms[r as int] == z
                &&& forall|i: int| 0 <= i < r ==> final(self)@.zooms[i] != z
                &&& 0 <= t <= video_duration ==> raw.start() <= z.start() && z.end() <= raw.end()
                    && 0 <= z.start() && z.end() <= video_duration
            }),
            zooms_placed(final(self)@.zooms),
            zooms_apart(old(self)@.zooms) ==> zooms_apart(final(self)@.zooms),
    {
        let raw = ZoomPoint { t, cx, cy, level, duration };
        let z = self.clamp_zoom_to_neighbors(&raw, None, video_duration);
        proof {
            law_placed_zoom_is_apart(
                self@.zooms,
                raw,
                (raw.start(), raw.end()),
                None,
                video_duration as int,
            );
            if zooms_apart(self@.zooms) {
                law_adding_keeps_zooms_apart(self@.zooms, raw, video_duration as int);
            }
            let after = self@.zooms.push(z);
            assert(zooms_placed(after));
            lemma_sorted_placed(after);
            lemma_sorted_members(after);
            law_sorting_orders_zooms(after);
            assert(after[after.len() - 1] == z);
            assert(sorted_zooms(after).contains(z));
        }
        self.zooms.push(z);
        self.resort_zooms();
        let mut i: usize = 0;
        while i < self.zooms.len() && self.zooms[i] != z
            invariant
                i <= self.zooms@.len(),
                forall|k: int| 0 <= k < i ==> self.zooms@[k] != z,
            decreases self.zooms.len() - i,
        {
            i += 1;
        }
        i
    }

    /// Remove zoom `ix`, if there is one.
    pub fn remove_zoom(&mut self, ix: usize)
        ensures
            final(self)@ == (EditView {
                zooms: if ix < old(self)@.zooms.len() {
                    old(self)@.zooms.remove(ix as int)
                } else {
                    old(self)@.zooms
                },
                ..old(self)@
            }),
            zooms_placed(old(self)@.zooms) ==> zooms_placed(final(self)@.zooms),
            zooms_apart(old(self)@.zooms) ==> zooms_apart(final(self)@.zooms),
    {
        if ix < self.zooms.len() {
            let ghost before = self.zooms@;
            self.zooms.remove(ix);
            let ghost after = self.zooms@;
            assert forall|k: int| 0 <= k < after.len() implies #[trigger] after[k] == before[if k
                < ix {
                k
            } else {
                k + 1
            }] by {}
            proof {
                if zooms_placed(before) {
                    assert forall|k: int| 0 <= k < after.len() implies (#[trigger] after[k]).duration
                        >= 0 && after[k].start() >= 0 && after[k].end() <= i64::MAX by {
                        let m = if k < ix {
                            k
                        } else {
                            k + 1
                        };
                        assert(before[m].duration >= 0);
                    }
                }
                if zooms_apart(before) {
                    assert forall|a: int, b: int|
                        #![trigger after[a], after[b]]
                        0 <= a < b < after.len() implies !overlap(
                        after[a].start(),
                        after[a].end(),
                        after[b].start(),
                        after[b].end(),
                    ) by {
                        let m = if a < ix {
                            a
                        } else {
                            a + 1
                        };
                        let n = if b < ix {
                            b
                        } else {
                            b + 1
                        };
                        assert(after[a] == before[m] && after[b] == before[n]);
                    }
                }
            }
        }
    }

    /// Centre zoom `ix` at another time. The order of the zooms stays as it is
    /// while a drag goes on, so that `ix` keeps naming the same zoom: the
    /// caller sorts them when the drag ends.
    pub fn move_zoom(&mut self, ix: usize, new_t: i64, video_duration: i64)
        requires
            zooms_placed(old(self)@.zooms),
            0 <= video_duration,
        ensures
            final(self)@ == (EditView {
                zooms: if ix < old(self)@.zooms.len() {
                    old(self)@.zooms.update(
                        ix as int,
                        clamped_zoom(
                            old(self)@.zooms,
                            ZoomPoint { t: new_t, ..old(self)@.zooms[ix as int] },
                            Some(ix as int),
                            video_duration as int,
                        ),
                    )
                } else {
                    old(self)@.zooms
                },
                ..old(self)@
            }),
            zooms_placed(final(self)@.zooms),
            zooms_apart(old(self)@.zooms) ==> zooms_apart(final(self)@.zooms),
    {
        if ix < self.zooms.len() {
            let z = self.zooms[ix];
            assert(self@.zooms[ix as int].duration >= 0);
            let moved = ZoomPoint { t: new_t, cx: z.cx, cy: z.cy, level: z.level, duration: z.duration };
            let w = moved.wide_window();
            self.place(ix, &moved, w, video_duration);
        }
    }

    /// Drag one edge of zoom `ix`, leaving a window of at least
    /// `MIN_ZOOM_DURATION` before it is cut to the zooms around it. The order
    /// of the zooms stays, as in `move_zoom`.
    pub fn resize_zoom_edge(&mut self, ix: usize, edge: Edge, new_time: i64, video_duration: i64)
        requires
            zooms_placed(old(self)@.zooms),
            0 <= video_duration,
        ensures
            final(self)@ == (EditView {
                zooms: if ix < old(self)@.zooms.len() {
                    let z = old(self)@.zooms[ix as int];
                    let w = dragged_window(z, edge, new_time as int);
                    old(self)@.zooms.update(
                        ix as int,
                        placed_zoom(
                            old(self)@.zooms,
                            z,
                            w,
                            Some(ix as int),
                            video_duration as int,
                        ),
                    )
                } else {
                    old(self)@.zooms
                },
                ..old(self)@
            }),
            zooms_placed(final(self)@.zooms),
            zooms_apart(old(self)@.zooms) ==> zooms_apart(final(self)@.zooms),
    {
        if ix < self.zooms.len() {
            let z = self.zooms[ix];
            assert(self@.zooms[ix as int].duration >= 0);
            let w = z.wide_window();
            let to: i128 = new_time as i128;
            let mut start: i128 = w.0;
            let mut end: i128 = w.1;
            match edge {
                Edge::Start => {
                    start = if to < end - MIN_ZOOM_DURATION as i128 {
                        to
                    } else {
                        end - MIN_ZOOM_DURATION as i128
                    };
                },
                Edge::End => {
                    end = if to < start + MIN_ZOOM_DURATION as i128 {
                        start + MIN_ZOOM_DURATION as i128
                    } else {
                        to
                    };
                },
            }
            self.place(ix, &z, (start, end), video_duration);
        }
    }

    /// Put `z` in the place of zoom `ix`, over what the others leave of `w`.
    fn place(&mut self, ix: usize, z: &ZoomPoint, w: (i128, i128), video_duration: i64)
        requires
            zooms_placed(old(self)@.zooms),
            ix < old(self)@.zooms.len(),
            w.0 <= i64::MAX,
            0 <= video_duration,
        ensures
            final(self)@ == (EditView {
                zooms: old(self)@.zooms.update(
                    ix as int,
                    placed_zoom(
                        old(self)@.zooms,
                        *z,
                        (w.0 as int, w.1 as int),
                        Some(ix as int),
                        video_duration as int,
                    ),
                ),
                ..old(self)@
            }),
            zooms_placed(final(self)@.zooms),
            zooms_apart(old(self)@.zooms) ==> zooms_apart(final(self)@.zooms),
    {
        let p = self.place_window(z, w, Some(ix), video_duration);
        proof {
            let asked = (w.0 as int, w.1 as int);
            law_placed_zoom_is_apart(
                self@.zooms,
                *z,
                asked,
                Some(ix as int),
                video_duration as int,
            );
            if zooms_apart(self@.zooms) {
                law_replacing_keeps_zooms_apart(
                    self@.zooms,
                    *z,
                    asked,
                    ix as int,
                    video_duration as int,
                );
            }
        }
        self.zooms.set(ix, p);
    }

    /// Set the level of zoom `ix`, between 1 and 8.
    pub fn set_zoom_level(&mut self, ix: usize, level: u32)
        ensures
            final(self)@ == (EditView {
                zooms: if ix < old(self)@.zooms.len() {
                    old(self)@.zooms.update(
                        ix as int,
                        ZoomPoint {
                            level: clamped(level as int, LEVEL_ONE as int, MAX_LEVEL as int) as u32,
                            ..old(self)@.zooms[ix as int]
                        },
                    )
                } else {
                    old(self)@.zooms
                },
                ..old(self)@
            }),
    {
        if ix < self.zooms.len() {
            let z = self.zooms[ix];
            let l: u32 = if level < LEVEL_ONE {
                LEVEL_ONE
            } else if level > MAX_LEVEL {
                MAX_LEVEL
            } else {
                level
            };
            self.zooms.set(
                ix,
                ZoomPoint { t: z.t, cx: z.cx, cy: z.cy, level: l, duration: z.duration },
            );
        }
    }

    /// Move the centre of zoom `ix`, so that what it shows of a picture of
    /// `video_w` by `video_h` (in 1/256 pixels) stays inside of it.
    pub fn move_zoom_center(&mut self, ix: usize, cx: i64, cy: i64, video_w: i64, video_h: i64)
        requires
            0 <= video_w,
            0 <= video_h,
            ix < old(self)@.zooms.len() ==> old(self)@.zooms[ix as int].level >= LEVEL_ONE,
        ensures
            final(self)@ == (EditView {
                zooms: if ix < old(self)@.zooms.len() {
                    let z = old(self)@.zooms[ix as int];
                    let hw = half_view(video_w as int, z.level as int);
                    let hh = half_view(video_h as int, z.level as int);
                    old(self)@.zooms.update(
                        ix as int,
                        ZoomPoint {
                            cx: clamped(cx as int, hw, video_w - hw) as i64,
                            cy: clamped(cy as int, hh, video_h - hh) as i64,
                            ..z
                        },
                    )
                } else {
                    old(self)@.zooms
                },
                ..old(self)@
            }),
    {
        if ix < self.zooms.len() {
            let z = self.zooms[ix];
            let hw: i64 = half_of_view(video_w, z.level);
            let hh: i64 = half_of_view(video_h, z.level);
            let x: i64 = clamp(cx, hw, video_w - hw);
            let y: i64 = clamp(cy, hh, video_h - hh);
            self.zooms.set(
                ix,
                ZoomPoint { t: z.t, cx: x, cy: y, level: z.level, duration: z.duration },
            );
        }
    }

    /// Sort the zooms by their centres.
    pub fn resort_zooms(&mut self)
        ensures
            final(self)@ == (EditView { zooms: sorted_zooms(old(self)@.zooms), ..old(self)@ }),
            zooms_placed(old(self)@.zooms) ==> zooms_placed(final(self)@.zooms),
            zooms_apart(old(self)@.zooms) ==> zooms_apart(final(self)@.zooms),
    {
        let ghost all = self.zooms@;
        let mut out: Vec<ZoomPoint> = Vec::new();
        let mut i: usize = 0;
        while i < self.zooms.len()
            invariant
                *self == *old(self),
                all == self.zooms@,
                i <= all.len(),
                out@ == sorted_zooms(all.take(i as int)),
            decreases self.zooms.len() - i,
        {
            let z = self.zooms[i];
            insert_zoom(&mut out, z);
            assert(all.take(i + 1).drop_last() =~= all.take(i as int));
            i += 1;
        }
        assert(all.take(i as int) =~= all);
        proof {
            if zooms_placed(all) {
                lemma_sorted_placed(all);
            }
            if zooms_apart(all) {
                law_sorting_keeps_zooms_apart(all);
            }
        }
        self.zooms = out;
    }

    /// The zoom `z` with its window cut to the video and to the other zooms, so
    /// that zooms never overlap (touching is the limit). Zoom `self_ix` is the
    /// one that `z` replaces.
    pub fn clamp_zoom_to_neighbors(
        &self,
        z: &ZoomPoint,
        self_ix: Option<usize>,
        video_duration: i64,
    ) -> (r: ZoomPoint)
        requires
            z.duration >= 0,
            0 <= video_duration,
        ensures
            r == clamped_zoom(
                self@.zooms,
                *z,
                match self_ix {
                    Some(i) => Some(i as int),
                    None => None,
                },
                video_duration as int,
            ),
            (r.cx, r.cy, r.level) == (z.cx, z.cy, z.level),
            forall|j: int|
                0 <= j < self@.zooms.len() && (self_ix is None || self_ix->0 != j) ==> !overlap(
                    (#[trigger] self@.zooms[j]).start(),
                    self@.zooms[j].end(),
                    r.start(),
                    r.end(),
                ),
    {
        proof {
            law_placed_zoom_is_apart(
                self@.zooms,
                *z,
                (z.start(), z.end()),
                match self_ix {
                    Some(i) => Some(i as int),
                    None => None,
                },
                video_duration as int,
            );
        }
        self.place_window(z, z.wide_window(), self_ix, video_duration)
    }

    /// The zoom `z` over what the others leave of the window `w`.
    fn place_window(
        &self,
        z: &ZoomPoint,
        w: (i128, i128),
        self_ix: Option<usize>,
        video_duration: i64,
    ) -> (r: ZoomPoint)
        requires
            w.0 <= i64::MAX,
            0 <= video_duration,
        ensures
            r == placed_zoom(
                self@.zooms,
                *z,
                (w.0 as int, w.1 as int),
                match self_ix {
                    Some(i) => Some(i as int),
                    None => None,
                },
                video_duration as int,
            ),
    {
        let ghost skip: Option<int> = match self_ix {
            Some(i) => Some(i as int),
            None => None,
        };
        let start: i128 = if w.0 < 0 {
            0
        } else {
            w.0
        };
        let end: i128 = if w.1 < video_duration as i128 {
            w.1
        } else {
            video_duration as i128
        };
        let anchor: i64 = match self_ix {
            Some(i) => if i < self.zooms.len() {
                self.zooms[i].t
            } else {
                z.t
            },
            None => z.t,
        };
        let mut prev: i128 = 0;
        let mut next: i128 = video_duration as i128;
        let ghost all = self.zooms@;
        let mut i: usize = 0;
        while i < self.zooms.len()
            invariant
                all == self.zooms@,
                i <= all.len(),
                skip == (match self_ix {
                    Some(i) => Some(i as int),
                    None => None,
                }),
                prev == previous_end(
                    all.take(i as int),
                    skip,
                    start as int,
                    end as int,
                    anchor as int,
                ),
                next == next_start(
                    all.take(i as int),
                    skip,
                    start as int,
                    end as int,
                    anchor as int,
                    video_duration as int,
                ),
            decreases self.zooms.len() - i,
        {
            let other = self.zooms[i];
            assert(all.take(i + 1).drop_last() =~= all.take(i as int));
            let skipped: bool = match self_ix {
                Some(k) => k == i,
                None => false,
            };
            if !skipped {
                let o = other.wide_window();
                let shared: bool = o.0 < end && start < o.1 && o.0 < o.1 && start < end;
                if (o.1 <= start || (shared && other.t <= anchor)) && o.1 > prev {
                    prev = o.1;
                }
                if (o.0 >= end || (shared && other.t > anchor)) && o.0 < next {
                    next = o.0;
                }
            }
            i += 1;
        }
        assert(all.take(i as int) =~= all);
        let least: i128 = if start < prev {
            prev
        } else {
            start
        };
        let most: i128 = if start < end {
            end
        } else {
            start
        };
        let s: i128 = if least < most {
            least
        } else {
            most
        };
        let e: i128 = if end < next {
            end
        } else {
            next
        };
        let last: i128 = if e < s {
            s
        } else {
            e
        };
        z.at_window(s as i64, last as i64)
    }
}

fn insert_zoom(zooms: &mut Vec<ZoomPoint>, z: ZoomPoint)
    ensures
        final(zooms)@ == inserted(old(zooms)@, z),
{
    let ghost before = zooms@;
    let mut i: usize = zooms.len();
    while i > 0 && zooms[i - 1].t > z.t
        invariant
            zooms@ == before,
            i <= before.len(),
            inserted(before, z) == inserted(before.take(i as int), z) + before.skip(i as int),
        decreases i,
    {
        proof {
            let head = before.take(i as int);
            assert(head.drop_last() =~= before.take(i - 1));
            assert(head.last() == before[i - 1]);
            assert(inserted(head, z) + before.skip(i as int) =~= inserted(
                before.take(i - 1),
                z,
            ) + before.skip(i - 1));
        }
        i -= 1;
    }
    zooms.insert(i, z);
    assert(zooms@ =~= before.take(i as int).push(z) + before.skip(i as int));
}

fn clamp(x: i64, lo: i64, hi: i64) -> (r: i64)
    ensures
        r == clamped(x as int, lo as int, hi as int),
{
    if x < lo {
        lo
    } else if x > hi {
        hi
    } else {
        x
    }
}

proof fn lemma_view_fits(size: int, level: int)
    requires
        size >= 0,
        level >= LEVEL_ONE,
    ensures
        0 <= size * LEVEL_ONE / level <= size,
        0 <= size * LEVEL_ONE,
{
    assert(0 <= size * LEVEL_ONE / level <= size && 0 <= size * LEVEL_ONE) by (nonlinear_arith)
        requires
            size >= 0,
            level >= LEVEL_ONE,
            LEVEL_ONE > 0,
    ;
}

fn half_of_view(size: i64, level: u32) -> (r: i64)
    requires
        size >= 0,
        level >= LEVEL_ONE,
    ensures
        r == half_view(size as int, level as int),
        0 <= r <= size / 2,
{
    proof {
        lemma_view_fits(size as int, level as int);
    }
    let shown: i128 = size as i128 * LEVEL_ONE as i128 / level as i128;
    (shown / 2) as i64
}

// ---- what is shown at a time ----

/// How long a zoom eases in and out.
pub const EASE: i64 = 600_000_000;

/// `EASE` cubed.
pub const EASE_CUBE: i128 = 216_000_000_000_000_000_000_000_000;

/// How far the time `t` is from the centre of `z`.
pub open spec fn distance(t: int, z: ZoomPoint) -> int {
    if t < z.t {
        z.t - t
    } else {
        t - z.t
    }
}

/// Whether the window of `z` holds `t`.
pub open spec fn zoom_covers(t: int, z: ZoomPoint) -> bool {
    distance(t, z) <= z.duration as int / 2
}

/// The smooth step `k * k * (3 - 2 * k)` of `k = x / EASE`, times `EASE` cubed.
pub open spec fn smooth(x: int) -> int {
    x * x * (3 * EASE - 2 * x)
}

/// The level on the way from one to `level`, `x` nanoseconds after the ease
/// began.
pub open spec fn eased(level: int, x: int) -> int {
    (level * smooth(x) + LEVEL_ONE * (EASE_CUBE - smooth(x))) / EASE_CUBE as int
}

/// The level and the centre of what is shown at `t`: those of the last zoom
/// whose window holds `t`, eased in and out, or the whole picture.
pub open spec fn zoom_shown(t: int, zooms: Seq<ZoomPoint>, w: int, h: int) -> (int, int, int)
    decreases zooms.len(),
{
    if zooms.len() == 0 {
        (LEVEL_ONE as int, w / 2, h / 2)
    } else if zoom_covers(t, zooms.last()) {
        let z = zooms.last();
        (
            eased(z.level as int, smaller(z.duration as int / 2 - distance(t, z), EASE as int)),
            z.cx as int,
            z.cy as int,
        )
    } else {
        zoom_shown(t, zooms.drop_last(), w, h)
    }
}

/// A level this low shows the whole picture.
pub const FLAT_LEVEL: u32 = 1_001_000;

/// Where a stretch of `view` out of `size`, centred at `c`, begins.
pub open spec fn crop_start(c: int, view: int, size: int) -> int {
    smaller(larger(c - view / 2, 0), size - view)
}

/// The part `(x, y, width, height)` of a `w` by `h` picture that is shown at
/// `t`, or nothing where it is all of it.
pub open spec fn crop_shown(t: int, zooms: Seq<ZoomPoint>, w: int, h: int) -> Option<
    (int, int, int, int),
> {
    let (level, cx, cy) = zoom_shown(t, zooms, w, h);
    if level <= FLAT_LEVEL {
        None
    } else {
        let vw = w * LEVEL_ONE / level;
        let vh = h * LEVEL_ONE / level;
        Some((crop_start(cx, vw, w), crop_start(cy, vh, h), vw, vh))
    }
}

proof fn lemma_smooth(x: int)
    requires
        0 <= x <= EASE,
    ensures
        0 <= smooth(x) <= EASE_CUBE,
{
    let e = EASE as int;
    assert(e * e * e == EASE_CUBE) by (nonlinear_arith)
        requires
            e == 600_000_000,
            EASE_CUBE == 216_000_000_000_000_000_000_000_000,
    ;
    assert(x * x * (3 * e - 2 * x) >= 0) by (nonlinear_arith)
        requires
            0 <= x <= e,
    ;
    // e^3 - x^2 (3 e - 2 x) = (e - x)^2 (e + 2 x)
    assert(e * e * e - x * x * (3 * e - 2 * x) == (e - x) * (e - x) * (e + 2 * x))
        by (nonlinear_arith);
    assert((e - x) * (e - x) * (e + 2 * x) >= 0) by (nonlinear_arith)
        requires
            0 <= x <= e,
    ;
}

proof fn lemma_eased(level: int, x: int)
    requires
        0 <= x <= EASE,
        0 <= level <= u32::MAX,
    ensures
        smaller(level, LEVEL_ONE as int) <= eased(level, x) <= larger(level, LEVEL_ONE as int),
        0 <= level * smooth(x) <= u32::MAX * EASE_CUBE,
        0 <= LEVEL_ONE * (EASE_CUBE - smooth(x)) <= u32::MAX * EASE_CUBE,
        0 <= level * smooth(x) + LEVEL_ONE * (EASE_CUBE - smooth(x)) <= u32::MAX * EASE_CUBE,
        x == EASE ==> eased(level, x) == level,
        x == 0 ==> eased(level, x) == LEVEL_ONE,
{
    lemma_smooth(x);
    let s = smooth(x);
    let c = EASE_CUBE as int;
    let one = LEVEL_ONE as int;
    let lo = smaller(level, one);
    let hi = larger(level, one);
    let v = level * s + one * (c - s);
    assert(lo * c <= v <= hi * c) by (nonlinear_arith)
        requires
            0 <= s <= c,
            lo <= level <= hi,
            lo <= one <= hi,
            v == level * s + one * (c - s),
    ;
    assert(lo <= v / c <= hi) by (nonlinear_arith)
        requires
            lo * c <= v <= hi * c,
            c > 0,
    ;
    assert(0 <= level * s <= u32::MAX * c) by (nonlinear_arith)
        requires
            0 <= s <= c,
            0 <= level <= u32::MAX,
    ;
    assert(0 <= one * (c - s) <= u32::MAX * c) by (nonlinear_arith)
        requires
            0 <= s <= c,
            0 <= one <= u32::MAX,
    ;
    assert(hi * c <= u32::MAX * c) by (nonlinear_arith)
        requires
            hi <= u32::MAX,
            c > 0,
    ;
    if x == EASE {
        assert(smooth(EASE as int) == c) by (nonlinear_arith)
            requires
                EASE == 600_000_000,
                c == 216_000_000_000_000_000_000_000_000,
        ;
        assert(v == level * c) by (nonlinear_arith)
            requires
                s == c,
                v == level * s + one * (c - s),
        ;
        assert(v / c == level) by (nonlinear_arith)
            requires
                v == level * c,
                c > 0,
        ;
    }
    if x == 0 {
        assert(x * x * (3 * EASE - 2 * x) == 0) by (nonlinear_arith)
            requires
                x == 0,
        ;
        assert(v == one * c) by (nonlinear_arith)
            requires
                s == 0,
                v == level * s + one * (c - s),
        ;
        assert(v / c == one) by (nonlinear_arith)
            requires
                v == one * c,
                c > 0,
        ;
    }
}

/// A zoom's level stays between one and its own, begins at one at the edges of
/// its window, and is fully reached once it has eased in.
pub proof fn law_zoom_eases(t: int, zooms: Seq<ZoomPoint>, z: ZoomPoint, w: int, h: int)
    requires
        z.level >= LEVEL_ONE,
        zoom_covers(t, z),
    ensures
        LEVEL_ONE <= zoom_shown(t, zooms.push(z), w, h).0 <= z.level,
        z.duration as int / 2 - distance(t, z) >= EASE ==> zoom_shown(t, zooms.push(z), w, h).0
            == z.level,
        z.duration as int / 2 == distance(t, z) ==> zoom_shown(t, zooms.push(z), w, h).0
            == LEVEL_ONE,
{
    lemma_eased(z.level as int, smaller(z.duration as int / 2 - distance(t, z), EASE as int));
}

proof fn lemma_shown(t: int, zooms: Seq<ZoomPoint>, w: int, h: int)
    ensures
        0 <= zoom_shown(t, zooms, w, h).0 <= u32::MAX,
    decreases zooms.len(),
{
    if zooms.len() > 0 {
        if zoom_covers(t, zooms.last()) {
            let z = zooms.last();
            lemma_eased(
                z.level as int,
                smaller(z.duration as int / 2 - distance(t, z), EASE as int),
            );
        } else {
            lemma_shown(t, zooms.drop_last(), w, h);
        }
    }
}

/// The last zoom of the list whose window holds the time is shown, around its
/// own centre. Its level is fully reached wherever the time is at least 0.6
/// seconds inside of its window.
pub proof fn law_zoom_of_the_time_is_shown(
    t: int,
    zooms: Seq<ZoomPoint>,
    i: int,
    w: int,
    h: int,
)
    requires
        0 <= i < zooms.len(),
        zooms[i].t - zooms[i].duration / 2 <= t <= zooms[i].t + zooms[i].duration / 2,
        forall|j: int|
            i < j < zooms.len() ==> !((#[trigger] zooms[j]).t - zooms[j].duration / 2 <= t
                <= zooms[j].t + zooms[j].duration / 2),
    ensures
        zoom_shown(t, zooms, w, h).1 == zooms[i].cx,
        zoom_shown(t, zooms, w, h).2 == zooms[i].cy,
        zooms[i].t - zooms[i].duration / 2 + 600_000_000 <= t <= zooms[i].t + zooms[i].duration / 2
            - 600_000_000 ==> zoom_shown(t, zooms, w, h).0 == zooms[i].level,
        zooms[i].level >= 1_000_000 ==> 1_000_000 <= zoom_shown(t, zooms, w, h).0 <= zooms[i].level,
    decreases zooms.len(),
{
    if i == zooms.len() - 1 {
        let z = zooms[i];
        lemma_eased(z.level as int, smaller(z.duration as int / 2 - distance(t, z), EASE as int));
    } else {
        let rest = zooms.drop_last();
        assert(!zoom_covers(t, zooms.last())) by {
            assert(zooms.last() == zooms[zooms.len() - 1]);
        }
        assert forall|j: int| i < j < rest.len() implies !((#[trigger] rest[j]).t - rest[j].duration
            / 2 <= t <= rest[j].t + rest[j].duration / 2) by {
            assert(rest[j] == zooms[j]);
        }
        law_zoom_of_the_time_is_shown(t, rest, i, w, h);
    }
}

/// Where no zoom of the list holds the time, the whole picture is shown.
pub proof fn law_no_zoom_shows_everything(t: int, zooms: Seq<ZoomPoint>, w: int, h: int)
    requires
        forall|j: int|
            0 <= j < zooms.len() ==> !((#[trigger] zooms[j]).t - zooms[j].duration / 2 <= t
                <= zooms[j].t + zooms[j].duration / 2),
    ensures
        zoom_shown(t, zooms, w, h) == (1_000_000int, w / 2, h / 2),
        crop_shown(t, zooms, w, h) is None,
    decreases zooms.len(),
{
    if zooms.len() > 0 {
        let rest = zooms.drop_last();
        assert(zooms.last() == zooms[zooms.len() - 1]);
        assert forall|j: int| 0 <= j < rest.len() implies !((#[trigger] rest[j]).t - rest[j].duration
            / 2 <= t <= rest[j].t + rest[j].duration / 2) by {
            assert(rest[j] == zooms[j]);
        }
        law_no_zoom_shows_everything(t, rest, w, h);
    }
}

/// On its way, the level is a smooth step of the time `x` since the ease began:
/// it has gone `x * x * (3 - 2 * x)` of the way from one, where `x` is counted
/// in eases of 0.6 seconds, cut to a millionth. It comes and goes alike.
pub proof fn law_zoom_is_a_smooth_step(t: int, zooms: Seq<ZoomPoint>, z: ZoomPoint, w: int, h: int)
    requires
        z.t - z.duration / 2 <= t <= z.t + z.duration / 2,
    ensures
        zoom_shown(t, zooms.push(z), w, h) == zoom_shown(2 * z.t - t, zooms.push(z), w, h),
        ({
            let half = z.duration as int / 2;
            let inside = if t < z.t {
                t - (z.t - half)
            } else {
                z.t + half - t
            };
            let x = if inside < 600_000_000 {
                inside
            } else {
                600_000_000
            };
            let gone = x * x * (1_800_000_000 - 2 * x);
            let all = 216_000_000_000_000_000_000_000_000int;
            let v = zoom_shown(t, zooms.push(z), w, h).0;
            0 <= (z.level - 1_000_000) * gone - (v - 1_000_000) * all < all
        }),
{
    let half = z.duration as int / 2;
    let x = smaller(half - distance(t, z), EASE as int);
    assert(zooms.push(z).last() == z);
    assert(distance(2 * z.t - t, z) == distance(t, z));
    let s = smooth(x);
    let all = EASE_CUBE as int;
    let level = z.level as int;
    let v = zoom_shown(t, zooms.push(z), w, h).0;
    let full = level * s + LEVEL_ONE * (all - s);
    assert(v == full / all);
    assert(0 <= full - v * all < all) by (nonlinear_arith)
        requires
            v == full / all,
            all > 0,
    ;
    assert((level - 1_000_000) * s - (v - 1_000_000) * all == full - v * all) by (nonlinear_arith)
        requires
            full == level * s + 1_000_000 * (all - s),
    ;
}

/// What is shown is as much smaller than the picture as the level says, on
/// both sides, and is centred where the zoom is, as far as the picture goes.
pub proof fn law_crop_follows_the_zoom(t: int, zooms: Seq<ZoomPoint>, w: int, h: int)
    requires
        w >= 0,
        h >= 0,
    ensures
        ({
            let (level, cx, cy) = zoom_shown(t, zooms, w, h);
            match crop_shown(t, zooms, w, h) {
                None => level <= 1_001_000,
                Some((x, y, vw, vh)) => {
                    &&& level > 1_001_000
                    &&& vw * level <= w * 1_000_000 < (vw + 1) * level
                    &&& vh * level <= h * 1_000_000 < (vh + 1) * level
                    &&& 0 <= cx - vw / 2 <= w - vw ==> x == cx - vw / 2
                    &&& 0 <= cy - vh / 2 <= h - vh ==> y == cy - vh / 2
                    &&& cx - vw / 2 < 0 ==> x == 0
                    &&& cy - vh / 2 < 0 ==> y == 0
                    &&& cx - vw / 2 > w - vw ==> x == w - vw
                    &&& cy - vh / 2 > h - vh ==> y == h - vh
                },
            }
        }),
{
    let level = zoom_shown(t, zooms, w, h).0;
    if level > FLAT_LEVEL {
        lemma_view_fits(w, level);
        lemma_view_fits(h, level);
        let vw = w * LEVEL_ONE / level;
        let vh = h * LEVEL_ONE / level;
        assert(vw * level <= w * 1_000_000 < (vw + 1) * level) by (nonlinear_arith)
            requires
                vw == w * 1_000_000 / level,
                level > 0,
        ;
        assert(vh * level <= h * 1_000_000 < (vh + 1) * level) by (nonlinear_arith)
            requires
                vh == h * 1_000_000 / level,
                level > 0,
        ;
    }
}

/// What is shown lies inside of the picture.
pub proof fn law_crop_lies_inside(t: int, zooms: Seq<ZoomPoint>, w: int, h: int)
    requires
        w >= 0,
        h >= 0,
        crop_shown(t, zooms, w, h) is Some,
    ensures
        ({
            let (x, y, vw, vh) = crop_shown(t, zooms, w, h)->0;
            0 <= x && 0 <= vw && x + vw <= w && 0 <= y && 0 <= vh && y + vh <= h
        }),
{
    let level = zoom_shown(t, zooms, w, h).0;
    lemma_view_fits(w, level);
    lemma_view_fits(h, level);
}

/// The level and the centre of what is shown at `t` of a `w` by `h` picture.
pub fn zoom_at(t: i64, zooms: &[ZoomPoint], w: i64, h: i64) -> (r: (u32, i64, i64))
    requires
        w >= 0,
        h >= 0,
    ensures
        (r.0 as int, r.1 as int, r.2 as int) == zoom_shown(t as int, zooms@, w as int, h as int),
{
    let mut best: (u32, i64, i64) = (LEVEL_ONE, w / 2, h / 2);
    let mut i: usize = 0;
    while i < zooms.len()
        invariant
            i <= zooms@.len(),
            (best.0 as int, best.1 as int, best.2 as int) == zoom_shown(
                t as int,
                zooms@.take(i as int),
                w as int,
                h as int,
            ),
        decreases zooms.len() - i,
    {
        let z = zooms[i];
        assert(zooms@.take(i + 1).drop_last() =~= zooms@.take(i as int));
        if z.duration >= 0 {
            let half: i128 = (z.duration / 2) as i128;
            let d: i128 = if t < z.t {
                z.t as i128 - t as i128
            } else {
                t as i128 - z.t as i128
            };
            if d <= half {
                let x: i128 = if half - d < EASE as i128 {
                    half - d
                } else {
                    EASE as i128
                };
                best = (eased_level(z.level, x), z.cx, z.cy);
            }
        }
        i += 1;
    }
    assert(zooms@.take(i as int) =~= zooms@);
    best
}

fn eased_level(level: u32, x: i128) -> (r: u32)
    requires
        0 <= x <= EASE,
    ensures
        r == eased(level as int, x as int),
{
    proof {
        lemma_smooth(x as int);
        lemma_eased(level as int, x as int);
        assert(0 <= x * x <= 600_000_000 * 600_000_000) by (nonlinear_arith)
            requires
                0 <= x <= 600_000_000,
        ;
    }
    let s: i128 = x * x * (3 * EASE as i128 - 2 * x);
    let v: i128 = level as i128 * s + LEVEL_ONE as i128 * (EASE_CUBE - s);
    (v / EASE_CUBE) as u32
}

/// The part of a `w` by `h` picture that is shown at `t`, or nothing where it
/// is all of it.
pub fn crop_rect_for(t: i64, zooms: &[ZoomPoint], w: i64, h: i64) -> (r: Option<
    (i64, i64, i64, i64),
>)
    requires
        w >= 0,
        h >= 0,
    ensures
        match (r, crop_shown(t as int, zooms@, w as int, h as int)) {
            (Some(a), Some(b)) => a.0 == b.0 && a.1 == b.1 && a.2 == b.2 && a.3 == b.3,
            (None, None) => true,
            _ => false,
        },
{
    let (level, cx, cy) = zoom_at(t, zooms, w, h);
    if level <= FLAT_LEVEL {
        return None;
    }
    let vw: i64 = shown_of(w, level);
    let vh: i64 = shown_of(h, level);
    Some((crop_from(cx, vw, w), crop_from(cy, vh, h), vw, vh))
}

fn shown_of(size: i64, level: u32) -> (r: i64)
    requires
        size >= 0,
        level >= LEVEL_ONE,
    ensures
        r == size * LEVEL_ONE / level as int,
        0 <= r <= size,
{
    proof {
        lemma_view_fits(size as int, level as int);
    }
    (size as i128 * LEVEL_ONE as i128 / level as i128) as i64
}

fn crop_from(c: i64, view: i64, size: i64) -> (r: i64)
    requires
        0 <= view <= size,
    ensures
        r == crop_start(c as int, view as int, size as int),
{
    let at: i128 = c as i128 - (view / 2) as i128;
    let low: i128 = if at < 0 {
        0
    } else {
        at
    };
    if low < (size - view) as i128 {
        low as i64
    } else {
        size - view
    }
}

} // verus!
