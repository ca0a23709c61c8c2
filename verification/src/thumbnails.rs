//! Evenly spaced thumbnails of a video.
use vstd::prelude::*;
use crate::pixmap::{byte_len, size_ok, Pixmap, PixmapView};
use crate::text;

verus! {

/// A thumbnail of the frame at `t` nanoseconds.
#[derive(Debug)]
pub struct Thumbnail {
    pub t: i64,
    pub pixmap: Pixmap,
}

/// What a thumbnail holds.
#[verifier::ext_equal]
pub struct ThumbnailView {
    pub t: i64,
    pub pixmap: PixmapView,
}

impl View for Thumbnail {
    type V = ThumbnailView;

    open spec fn view(&self) -> ThumbnailView {
        ThumbnailView { t: self.t, pixmap: self.pixmap@ }
    }
}

pub open spec fn thumbnail_views(list: Seq<Thumbnail>) -> Seq<ThumbnailView> {
    list.map_values(|t: Thumbnail| t@)
}

/// The middle of stretch `i` of `count` equal stretches of the video.
pub open spec fn sample_time(duration: int, count: int, i: int) -> int {
    duration * (2 * i + 1) / (2 * count)
}

/// A four-byte number, the lowest byte first.
pub open spec fn le_u32(b: Seq<u8>, at: int) -> int {
    b[at] + b[at + 1] * 256 + b[at + 2] * 65536 + b[at + 3] * 16777216
}

pub fn read_le_u32(b: &[u8], at: usize) -> (r: u32)
    requires
        at + 4 <= b@.len(),
    ensures
        r == le_u32(b@, at as int),
{
    let n: usize = b.len();
    b[at] as u32 + b[at + 1] as u32 * 256 + b[at + 2] as u32 * 65536 + b[at + 3] as u32 * 16777216
}

proof fn lemma_sample_time(duration: int, count: int, i: int)
    requires
        duration > 0,
        0 <= i < count,
    ensures
        0 <= sample_time(duration, count, i) < duration,
        0 <= duration * (2 * i + 1),
{
    assert(0 <= duration * (2 * i + 1) < duration * (2 * count)) by (nonlinear_arith)
        requires
            duration > 0,
            0 <= i < count,
    ;
    assert(0 <= sample_time(duration, count, i) < duration) by (nonlinear_arith)
        requires
            0 <= duration * (2 * i + 1) < duration * (2 * count),
            sample_time(duration, count, i) == duration * (2 * i + 1) / (2 * count),
            count > 0,
    ;
}

/// The times of `count` thumbnails: none of an empty video.
pub open spec fn sample_times(duration: int, count: int) -> Seq<int> {
    if count <= 0 || duration <= 0 {
        Seq::empty()
    } else {
        Seq::new(count as nat, |i: int| sample_time(duration, count, i))
    }
}

/// Thumbnails lie inside the video, in order, and no two at the same time where
/// the stretches are at least a nanosecond long.
pub proof fn law_samples_lie_inside(duration: int, count: int, i: int)
    requires
        0 <= i < sample_times(duration, count).len(),
    ensures
        0 <= sample_times(duration, count)[i] < duration,
        i + 1 < sample_times(duration, count).len() ==> sample_times(duration, count)[i]
            <= sample_times(duration, count)[i + 1],
        i + 1 < sample_times(duration, count).len() && duration >= count ==> sample_times(
            duration,
            count,
        )[i] < sample_times(duration, count)[i + 1],
{
    lemma_sample_time(duration, count, i);
    if i + 1 < sample_times(duration, count).len() {
        assert(duration * (2 * i + 1) <= duration * (2 * (i + 1) + 1)) by (nonlinear_arith)
            requires
                duration > 0,
        ;
        assert(sample_time(duration, count, i) <= sample_time(duration, count, i + 1))
            by (nonlinear_arith)
            requires
                duration * (2 * i + 1) <= duration * (2 * (i + 1) + 1),
                sample_time(duration, count, i) == duration * (2 * i + 1) / (2 * count),
                sample_time(duration, count, i + 1) == duration * (2 * (i + 1) + 1) / (2 * count),
                count > 0,
        ;
        if duration >= count {
            let a = duration * (2 * i + 1);
            assert(duration * (2 * (i + 1) + 1) == a + 2 * duration) by (nonlinear_arith)
                requires
                    a == duration * (2 * i + 1),
            ;
            assert(a / (2 * count) < (a + 2 * duration) / (2 * count)) by (nonlinear_arith)
                requires
                    duration >= count,
                    count > 0,
            ;
        }
    }
}

/// The times of `count` evenly spaced thumbnails of a video.
pub fn thumbnail_times(duration: i64, count: usize) -> (r: Vec<i64>)
    ensures
        r@.len() == sample_times(duration as int, count as int).len(),
        forall|i: int|
            0 <= i < r@.len() ==> #[trigger] r@[i] == sample_times(duration as int, count as int)[i],
{
    let mut times: Vec<i64> = Vec::new();
    if count == 0 || duration <= 0 {
        return times;
    }
    let mut i: usize = 0;
    while i < count
        invariant
            duration > 0,
            i <= count,
            times@.len() == i,
            forall|k: int|
                0 <= k < i ==> #[trigger] times@[k] == sample_time(duration as int, count as int, k),
        decreases count - i,
    {
        proof {
            lemma_sample_time(duration as int, count as int, i as int);
            assert(duration * (2 * i + 1) <= 0x7fff_ffff_ffff_ffff * 0x2_0000_0000_0000_0000)
                by (nonlinear_arith)
                requires
                    0 < duration <= 0x7fff_ffff_ffff_ffff,
                    0 <= i <= 0xffff_ffff_ffff_fffe,
            ;
        }
        let t: u128 = duration as u128 * (2 * i as u128 + 1) / (2 * count as u128);
        times.push(t as i64);
        i += 1;
    }
    times
}

/// The times, one on each line, as the frame grabber reads them.
pub open spec fn time_lines(times: Seq<i64>) -> Seq<char>
    decreases times.len(),
{
    if times.len() == 0 {
        Seq::empty()
    } else if times.len() == 1 {
        clock_text(times[0])
    } else {
        time_lines(times.drop_last()) + seq!['\n'] + clock_text(times.last())
    }
}

/// A time that is not before the start, in decimal.
pub open spec fn clock_text(t: i64) -> Seq<char> {
    text::decimal(
        if t < 0 {
            0
        } else {
            t as nat
        },
    )
}

pub fn clock_chars(t: i64) -> (r: Vec<char>)
    ensures
        r@ == clock_text(t),
{
    text::decimal_chars(
        if t < 0 {
            0
        } else {
            t as u64
        },
    )
}

pub fn format_times(times: &Vec<i64>) -> (r: String)
    ensures
        r@ == time_lines(times@),
{
    let mut out: Vec<char> = Vec::new();
    let mut i: usize = 0;
    while i < times.len()
        invariant
            i <= times@.len(),
            out@ == time_lines(times@.take(i as int)),
        decreases times.len() - i,
    {
        assert(times@.take(i + 1).drop_last() =~= times@.take(i as int));
        if i > 0 {
            out.push('\n');
        }
        let d = clock_chars(times[i]);
        text::append_chars(&mut out, d.as_slice());
        i += 1;
        assert(out@ =~= time_lines(times@.take(i as int)));
    }
    assert(times@.take(i as int) =~= times@);
    text::from_chars(out.as_slice())
}

/// The thumbnails in a stream of frames, one for each time: a width, a height
/// and the pixels. A frame of no size marks a time that gave no frame; it is
/// skipped, as is one that is too large. The stream may end early.
pub open spec fn frames_of(times: Seq<i64>, data: Seq<u8>) -> Seq<ThumbnailView>
    decreases times.len(),
{
    if times.len() == 0 || data.len() < 8 {
        Seq::empty()
    } else {
        let w = le_u32(data, 0);
        let h = le_u32(data, 4);
        let n = byte_len(w, h);
        if w == 0 || h == 0 {
            frames_of(times.skip(1), data.skip(8))
        } else if 8 + n > data.len() {
            Seq::empty()
        } else {
            (if size_ok(w, h) {
                seq![
                    ThumbnailView {
                        t: times[0],
                        pixmap: PixmapView {
                            width: w as u32,
                            height: h as u32,
                            data: data.subrange(8, 8 + n),
                        },
                    },
                ]
            } else {
                Seq::empty()
            }) + frames_of(times.skip(1), data.skip(8 + n))
        }
    }
}

/// The thumbnails in the stream of the frame grabber.
pub fn read_thumbnails(times: &Vec<i64>, data: &[u8]) -> (r: Vec<Thumbnail>)
    ensures
        thumbnail_views(r@) == frames_of(times@, data@),
        forall|i: int| 0 <= i < r@.len() ==> (#[trigger] r@[i])@.pixmap.wf(),
{
    let mut out: Vec<Thumbnail> = Vec::new();
    let n: usize = data.len();
    let mut at: usize = 0;
    let mut i: usize = 0;
    let ghost all = frames_of(times@, data@);
    assert(times@.skip(0) =~= times@);
    assert(data@.skip(0) =~= data@);
    assert(thumbnail_views(out@) + all =~= all);
    while i < times.len()
        invariant
            n == data@.len(),
            all == frames_of(times@, data@),
            at <= n,
            i <= times@.len(),
            forall|i: int| 0 <= i < out@.len() ==> (#[trigger] out@[i])@.pixmap.wf(),
            thumbnail_views(out@) + frames_of(times@.skip(i as int), data@.skip(at as int)) == all,
        decreases times.len() - i,
    {
        let ghost ts = times@.skip(i as int);
        let ghost rest = data@.skip(at as int);
        let ghost before = thumbnail_views(out@);
        assert(ts.skip(1) =~= times@.skip(i + 1));
        if n - at < 8 {
            assert(thumbnail_views(out@) + frames_of(ts, rest) =~= thumbnail_views(out@));
            return out;
        }
        let w: u32 = read_le_u32(data, at);
        let h: u32 = read_le_u32(data, at + 4);
        assert(w == le_u32(rest, 0));
        assert(h == le_u32(rest, 4));
        if w == 0 || h == 0 {
            assert(rest.skip(8) =~= data@.skip(at + 8));
            at += 8;
        } else {
            assert(0 <= w * h * 4 <= 0xffff_ffff * 0xffff_ffff * 4) by (nonlinear_arith)
                requires
                    0 <= w <= 0xffff_ffff,
                    0 <= h <= 0xffff_ffff,
            ;
            assert(0 <= w * h <= 0xffff_ffff * 0xffff_ffff) by (nonlinear_arith)
                requires
                    0 <= w <= 0xffff_ffff,
                    0 <= h <= 0xffff_ffff,
            ;
            let len: u128 = w as u128 * h as u128 * 4;
            if len > (n - at - 8) as u128 {
                assert(thumbnail_views(out@) + frames_of(ts, rest) =~= thumbnail_views(out@));
                return out;
            }
            let len: usize = len as usize;
            assert(rest.subrange(8, 8 + len) =~= data@.subrange(at + 8, at + 8 + len));
            assert(rest.skip(8 + len) =~= data@.skip(at + 8 + len));
            if let Some(pixmap) = Pixmap::from_bytes(w, h, data, at + 8) {
                let t = Thumbnail { t: times[i], pixmap };
                let ghost view = t@;
                out.push(t);
                assert(thumbnail_views(out@) =~= before + seq![view]);
                assert(before + frames_of(ts, rest) =~= thumbnail_views(out@) + frames_of(
                    ts.skip(1),
                    rest.skip(8 + len),
                ));
            } else {
                assert(before + frames_of(ts, rest) =~= before + frames_of(
                    ts.skip(1),
                    rest.skip(8 + len),
                ));
            }
            at += 8 + len;
        }
        i += 1;
    }
    assert(frames_of(times@.skip(i as int), data@.skip(at as int)).len() == 0);
    assert(thumbnail_views(out@) + frames_of(times@.skip(i as int), data@.skip(at as int))
        =~= thumbnail_views(out@));
    out
}

/// The times lie in the middles of as many equal parts of the video.
pub proof fn law_samples_lie_in_the_middles(duration: int, count: int, i: int)
    requires
        duration > 0,
        0 <= i < count,
    ensures
        sample_times(duration, count).len() == count,
        2 * count * sample_times(duration, count)[i] <= duration * (2 * i + 1) < 2 * count * (
        sample_times(duration, count)[i] + 1),
{
    let t = sample_times(duration, count)[i];
    let v = duration * (2 * i + 1);
    let c = 2 * count;
    assert(c * t <= v < c * (t + 1)) by (nonlinear_arith)
        requires
            t == v / c,
            c > 0,
    ;
}

/// Frames are read one after the other: a width and a height of four bytes each
/// with the lowest first, then the pixels, and so on with what follows. Each
/// gets the next of the times.
pub proof fn law_frames_are_read_in_turn(times: Seq<i64>, data: Seq<u8>, w: int, h: int)
    requires
        times.len() > 0,
        data.len() >= 8,
        w == data[0] + 256 * data[1] + 65536 * data[2] + 16777216 * data[3],
        h == data[4] + 256 * data[5] + 65536 * data[6] + 16777216 * data[7],
        w > 0,
        h > 0,
        8 + w * h * 4 <= data.len(),
        size_ok(w, h),
    ensures
        ({
            let got = frames_of(times, data);
            let rest = frames_of(times.skip(1), data.skip(8 + w * h * 4));
            &&& got.len() == rest.len() + 1
            &&& got.skip(1) == rest
            &&& got[0].t == times[0]
            &&& got[0].pixmap.width == w && got[0].pixmap.height == h
            &&& got[0].pixmap.data == data.subrange(8, 8 + w * h * 4)
        }),
{
    let got = frames_of(times, data);
    let rest = frames_of(times.skip(1), data.skip(8 + w * h * 4));
    assert(got.skip(1) =~= rest);
}

/// Each time stands in a line of its own, as a number of nanoseconds.
pub proof fn law_times_stand_in_lines(times: Seq<i64>, t: i64)
    requires
        t >= 0,
    ensures
        time_lines(times.push(t)) == (if times.len() == 0 {
            text::decimal(t as nat)
        } else {
            time_lines(times) + seq!['\n'] + text::decimal(t as nat)
        }),
        time_lines(Seq::empty()).len() == 0,
{
    assert(times.push(t).drop_last() =~= times);
}

} // verus!
