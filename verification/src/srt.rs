//! Reading SRT captions.
use vstd::prelude::*;
use crate::captions::{magnitude, srt_block, srt_from, srt_time, Segment};
use crate::math::floor_div;
use crate::text;

verus! {

/// Times of captions lie within this distance of zero, so that their positions
/// can be computed.
pub const CUE_LIMIT: i128 = 0x4000_0000_0000_0000_0000_0000;

/// One caption, shown from `start` to `end` (nanoseconds).
#[derive(Debug)]
pub struct Cue {
    pub start: i128,
    pub end: i128,
    pub text: String,
}

/// What a cue holds.
#[verifier::ext_equal]
pub struct CueView {
    pub start: int,
    pub end: int,
    pub text: Seq<char>,
}

impl View for Cue {
    type V = CueView;

    open spec fn view(&self) -> CueView {
        CueView { start: self.start as int, end: self.end as int, text: self.text@ }
    }
}

impl Cue {
    pub open spec fn fits(self) -> bool {
        -CUE_LIMIT <= self.start <= CUE_LIMIT && -CUE_LIMIT <= self.end <= CUE_LIMIT
    }
}

pub open spec fn cue_views(cues: Seq<Cue>) -> Seq<CueView> {
    cues.map_values(|c: Cue| c@)
}

/// Nanoseconds of so many hours, minutes, seconds and milliseconds, each
/// given in billionths.
pub open spec fn time_ns(h: int, m: int, s: int, ms: int) -> int {
    h * 3600 + m * 60 + s + ms / 1000
}

/// The parts of a time, if they are numbers and the time fits.
pub open spec fn parts_ns(h: Option<int>, m: Option<int>, s: Option<int>, ms: Option<int>) -> Option<
    int,
> {
    match (h, m, s, ms) {
        (Some(h), Some(m), Some(s), Some(ms)) => if -CUE_LIMIT <= time_ns(h, m, s, ms) <= CUE_LIMIT {
            Some(time_ns(h, m, s, ms))
        } else {
            None
        },
        _ => None,
    }
}

/// A time written `HH:MM:SS,mmm`, in nanoseconds. Parts behind the seconds
/// are ignored.
pub open spec fn ts_ns(s: Seq<char>) -> Option<int> {
    match text::split_once(text::trim(s), seq![',']) {
        Some((hms, ms)) => {
            let parts = text::split(hms, seq![':']);
            if parts.len() < 3 {
                None
            } else {
                parts_ns(
                    text::parse_billionths(parts[0]),
                    text::parse_billionths(parts[1]),
                    text::parse_billionths(parts[2]),
                    text::parse_billionths(ms),
                )
            }
        },
        None => None,
    }
}

/// The lines of a block from its number on: empty lines before it are left
/// out, but one directly before the times stands for the number.
pub open spec fn entry_lines(lines: Seq<Seq<char>>) -> Seq<Seq<char>>
    decreases lines.len(),
{
    if lines.len() >= 2 && lines[0].len() == 0 && !text::contains(lines[1], "-->"@) {
        entry_lines(lines.skip(1))
    } else {
        lines
    }
}

/// The cue of the lines of an entry: a number on the first line, the times on
/// the second, and the text on the others. A malformed entry, or one without
/// text, has none.
pub open spec fn entry_cue(lines: Seq<Seq<char>>) -> Option<CueView> {
    if lines.len() < 2 {
        None
    } else {
        match text::split_once(lines[1], "-->"@) {
            Some((a, b)) => match (ts_ns(a), ts_ns(b)) {
                (Some(start), Some(end)) => {
                    let body = text::join(lines.skip(2), seq!['\n']);
                    if text::trim(body).len() == 0 {
                        None
                    } else {
                        Some(CueView { start, end, text: body })
                    }
                },
                _ => None,
            },
            None => None,
        }
    }
}

/// The cue of a block.
pub open spec fn block_cue(block: Seq<char>) -> Option<CueView> {
    entry_cue(entry_lines(text::lines(block)))
}

/// The cues of the blocks, in order.
pub open spec fn block_cues(blocks: Seq<Seq<char>>) -> Seq<CueView>
    decreases blocks.len(),
{
    if blocks.len() == 0 {
        Seq::empty()
    } else {
        (match block_cue(blocks[0]) {
            Some(c) => seq![c],
            None => Seq::empty(),
        }) + block_cues(blocks.skip(1))
    }
}

/// The cues of parts that are split into blocks at empty lines.
pub open spec fn part_cues(parts: Seq<Seq<char>>) -> Seq<CueView>
    decreases parts.len(),
{
    if parts.len() == 0 {
        Seq::empty()
    } else {
        block_cues(text::split(parts[0], seq!['\n', '\n'])) + part_cues(parts.skip(1))
    }
}

/// The cues of an SRT text, whose blocks are separated by empty lines.
pub open spec fn srt_cues(s: Seq<char>) -> Seq<CueView> {
    part_cues(text::split(s, seq!['\r', '\n', '\r', '\n']))
}

/// Read a time written `HH:MM:SS,mmm`, in nanoseconds.
pub fn parse_ts(s: &str) -> (r: Option<i128>)
    ensures
        match r {
            Some(v) => ts_ns(s@) == Some(v as int) && -CUE_LIMIT <= v <= CUE_LIMIT,
            None => ts_ns(s@) is None,
        },
{
    let chars = text::to_chars(s);
    read_ts(chars.as_slice())
}

fn read_ts(s: &[char]) -> (r: Option<i128>)
    ensures
        match r {
            Some(v) => ts_ns(s@) == Some(v as int) && -CUE_LIMIT <= v <= CUE_LIMIT,
            None => ts_ns(s@) is None,
        },
{
    let s = text::trimmed(s);
    let comma: Vec<char> = vec![','];
    assert(comma@ =~= seq![',']);
    let colon: Vec<char> = vec![':'];
    assert(colon@ =~= seq![':']);
    match text::split_at_first(s.as_slice(), comma.as_slice()) {
        None => None,
        Some((hms, ms)) => {
            let parts = text::split_chars(hms.as_slice(), colon.as_slice());
            assert(text::views(parts@).len() == parts@.len());
            if parts.len() < 3 {
                return None;
            }
            assert(text::views(parts@)[0] == parts@[0]@);
            assert(text::views(parts@)[1] == parts@[1]@);
            assert(text::views(parts@)[2] == parts@[2]@);
            match (
                text::read_billionths(parts[0].as_slice()),
                text::read_billionths(parts[1].as_slice()),
                text::read_billionths(parts[2].as_slice()),
                text::read_billionths(ms.as_slice()),
            ) {
                (Some(h), Some(m), Some(s), Some(ms)) => {
                    let t: i128 = h * 3600 + m * 60 + s + floor_div(ms, 1000);
                    if t < -CUE_LIMIT || t > CUE_LIMIT {
                        None
                    } else {
                        Some(t)
                    }
                },
                _ => None,
            }
        },
    }
}

fn read_block(block: &[char]) -> (r: Option<Cue>)
    ensures
        match r {
            Some(c) => block_cue(block@) == Some(c@) && c.fits(),
            None => block_cue(block@) is None,
        },
{
    let lines = text::split_lines(block);
    let ghost all = text::views(lines@);
    assert(all.len() == lines@.len());
    let arrow = text::to_chars("-->");
    let mut k: usize = 0;
    assert(all.skip(0) =~= all);
    while lines.len() - k >= 2 && lines[k].len() == 0 && !text::has_chars(
        lines[k + 1].as_slice(),
        arrow.as_slice(),
    )
        invariant
            all == text::views(lines@),
            all.len() == lines@.len(),
            arrow@ == "-->"@,
            k <= lines@.len(),
            entry_lines(all.skip(k as int)) == entry_lines(all),
        decreases lines.len() - k,
    {
        assert(all.skip(k as int)[0] == lines@[k as int]@);
        assert(all.skip(k as int)[1] == lines@[k + 1]@);
        assert(all.skip(k as int).skip(1) =~= all.skip(k + 1));
        k += 1;
    }
    let ghost entry = all.skip(k as int);
    proof {
        if entry.len() >= 2 {
            assert(entry[0] == lines@[k as int]@);
            assert(entry[1] == lines@[k + 1]@);
        }
        assert(entry_lines(entry) == entry);
    }
    if lines.len() - k < 2 {
        return None;
    }
    match text::split_at_first(lines[k + 1].as_slice(), arrow.as_slice()) {
        None => None,
        Some((a, b)) => match (read_ts(a.as_slice()), read_ts(b.as_slice())) {
            (Some(start), Some(end)) => {
                let lf: Vec<char> = vec!['\n'];
                assert(lf@ =~= seq!['\n']);
                assert(entry.skip(2) =~= all.skip(k + 2));
                let body = text::join_from(&lines, k + 2, lf.as_slice());
                if text::trimmed(body.as_slice()).len() == 0 {
                    None
                } else {
                    Some(Cue { start, end, text: text::from_chars(body.as_slice()) })
                }
            },
            _ => None,
        },
    }
}

/// The cues of an SRT text. Malformed blocks are skipped.
pub fn parse_srt(s: &str) -> (r: Vec<Cue>)
    ensures
        cue_views(r@) == srt_cues(s@),
        forall|i: int| 0 <= i < r@.len() ==> (#[trigger] r@[i]).fits(),
{
    let chars = text::to_chars(s);
    let crlf: Vec<char> = vec!['\r', '\n', '\r', '\n'];
    assert(crlf@ =~= seq!['\r', '\n', '\r', '\n']);
    let lf: Vec<char> = vec!['\n', '\n'];
    assert(lf@ =~= seq!['\n', '\n']);
    let parts = text::split_chars(chars.as_slice(), crlf.as_slice());
    let ghost all = text::views(parts@);
    let mut cues: Vec<Cue> = Vec::new();
    let mut i: usize = 0;
    assert(all.skip(0) =~= all);
    assert(cue_views(cues@) + part_cues(all) =~= part_cues(all));
    while i < parts.len()
        invariant
            all == text::views(parts@),
            i <= parts@.len(),
            lf@ == seq!['\n', '\n'],
            cue_views(cues@) + part_cues(all.skip(i as int)) == part_cues(all),
            forall|i: int| 0 <= i < cues@.len() ==> (#[trigger] cues@[i]).fits(),
        decreases parts.len() - i,
    {
        let blocks = text::split_chars(parts[i].as_slice(), lf.as_slice());
        let ghost done = cue_views(cues@);
        let ghost pieces = text::views(blocks@);
        let mut j: usize = 0;
        assert(pieces.skip(0) =~= pieces);
        while j < blocks.len()
            invariant
                pieces == text::views(blocks@),
                j <= blocks@.len(),
                cue_views(cues@) + block_cues(pieces.skip(j as int)) == done + block_cues(pieces),
                forall|i: int| 0 <= i < cues@.len() ==> (#[trigger] cues@[i]).fits(),
            decreases blocks.len() - j,
        {
            let ghost before = cue_views(cues@);
            assert(pieces.skip(j as int)[0] == blocks@[j as int]@);
            assert(pieces.skip(j as int).skip(1) =~= pieces.skip(j + 1));
            match read_block(blocks[j].as_slice()) {
                Some(c) => {
                    let ghost view = c@;
                    cues.push(c);
                    assert(cue_views(cues@) =~= before + seq![view]);
                    assert(cue_views(cues@) + block_cues(pieces.skip(j + 1)) =~= before
                        + block_cues(pieces.skip(j as int)));
                },
                None => {
                    assert(Seq::<CueView>::empty() + block_cues(pieces.skip(j + 1)) =~= block_cues(
                        pieces.skip(j + 1),
                    ));
                },
            }
            j += 1;
        }
        assert(pieces.skip(j as int).len() == 0);
        assert(cue_views(cues@) + block_cues(pieces.skip(j as int)) =~= cue_views(cues@));
        assert(all.skip(i as int)[0] == parts@[i as int]@);
        assert(all.skip(i as int).skip(1) =~= all.skip(i + 1));
        assert(cue_views(cues@) + part_cues(all.skip(i + 1)) =~= done + part_cues(
            all.skip(i as int),
        ));
        i += 1;
    }
    assert(all.skip(i as int).len() == 0);
    assert(cue_views(cues@) + part_cues(all.skip(i as int)) =~= cue_views(cues@));
    cues
}

// ---- what was written reads back ----

/// A segment that a reader tells from the others: its text is without empty
/// lines and carriage returns at line ends.
pub open spec fn readable(segment: Segment) -> bool {
    let body = text::trim(segment.text@);
    &&& !text::contains(body, seq!['\n', '\n'])
    &&& !text::contains(body, seq!['\r', '\n'])
}

/// The cue of a segment.
pub open spec fn segment_cue(segment: Segment) -> CueView {
    CueView {
        start: segment.start() * 10_000_000,
        end: segment.end() * 10_000_000,
        text: text::trim(segment.text@),
    }
}

/// The cues of a transcript: one for each segment with a text.
pub open spec fn spoken_cues(segments: Seq<Segment>) -> Seq<CueView>
    decreases segments.len(),
{
    if segments.len() == 0 {
        Seq::empty()
    } else {
        (if text::trim(segments[0].text@).len() > 0 {
            seq![segment_cue(segments[0])]
        } else {
            Seq::empty()
        }) + spoken_cues(segments.skip(1))
    }
}

spec fn time_char(c: char) -> bool {
    text::is_number_char(c) || c == ':' || c == ','
}

/// No `p` stands before a line feed.
spec fn no_pair(s: Seq<char>, p: char) -> bool {
    forall|j: int| 0 <= j < s.len() - 1 && #[trigger] s[j] == p ==> s[j + 1] != '\n'
}

proof fn lemma_no_pair(s: Seq<char>, p: char)
    requires
        !text::contains(s, seq![p, '\n']),
    ensures
        no_pair(s, p),
{
    text::lemma_find_from(s, seq![p, '\n'], 0);
    assert forall|j: int| 0 <= j < s.len() - 1 && #[trigger] s[j] == p implies s[j + 1] != '\n' by {
        if s[j + 1] == '\n' {
            assert(s.subrange(j, j + 2) =~= seq![p, '\n']);
            assert(text::matches_at(s, seq![p, '\n'], j));
        }
    }
}

proof fn lemma_no_char(a: Seq<char>, c: char, rest: Seq<char>)
    requires
        forall|j: int| 0 <= j < a.len() ==> #[trigger] a[j] != c,
    ensures
        forall|j: int| 0 <= j < a.len() ==> !text::matches_at(a + seq![c] + rest, seq![c], j),
        forall|j: int| 0 <= j ==> !text::matches_at(a, seq![c], j),
{
    let s = a + seq![c] + rest;
    assert forall|j: int| 0 <= j < a.len() implies !text::matches_at(s, seq![c], j) by {
        if text::matches_at(s, seq![c], j) {
            text::lemma_match_char(s, seq![c], j, 0);
            assert(s[j] == a[j]);
        }
    }
    assert forall|j: int| 0 <= j implies !text::matches_at(a, seq![c], j) by {
        if text::matches_at(a, seq![c], j) {
            text::lemma_match_char(a, seq![c], j, 0);
        }
    }
}

spec fn all_numbers(s: Seq<char>) -> bool {
    s.len() > 0 && forall|i: int| 0 <= i < s.len() ==> text::is_number_char(#[trigger] s[i])
}

spec fn all_time(s: Seq<char>) -> bool {
    s.len() > 0 && forall|i: int| 0 <= i < s.len() ==> time_char(#[trigger] s[i])
}

proof fn lemma_colons(h: Seq<char>, m: Seq<char>, s: Seq<char>)
    requires
        all_numbers(h),
        all_numbers(m),
        all_numbers(s),
    ensures
        text::split(h + seq![':'] + m + seq![':'] + s, seq![':']) == seq![h, m, s],
        all_time(h + seq![':'] + m + seq![':'] + s),
        forall|i: int|
            0 <= i < (h + seq![':'] + m + seq![':'] + s).len() ==> #[trigger] (h + seq![':'] + m
                + seq![':'] + s)[i] != ',',
{
    let hms = h + seq![':'] + m + seq![':'] + s;
    let rest = m + seq![':'] + s;
    assert(hms =~= h + seq![':'] + rest);
    lemma_no_char(h, ':', rest);
    text::lemma_split_next(h, seq![':'], rest);
    lemma_no_char(m, ':', s);
    text::lemma_split_next(m, seq![':'], s);
    lemma_no_char(s, ':', Seq::empty());
    text::lemma_split_none(s, seq![':']);
    assert(text::split(hms, seq![':']) =~= seq![h, m, s]);
    assert forall|i: int| 0 <= i < hms.len() implies #[trigger] hms[i] != ',' && time_char(hms[i]) by {
        if i < h.len() {
            assert(hms[i] == h[i]);
        } else if i == h.len() {
        } else if i < h.len() + 1 + m.len() {
            assert(hms[i] == m[i - h.len() - 1]);
        } else if i == h.len() + 1 + m.len() {
        } else {
            assert(hms[i] == s[i - h.len() - m.len() - 2]);
        }
    }
}

proof fn lemma_comma(hms: Seq<char>, f: Seq<char>)
    requires
        all_time(hms),
        forall|i: int| 0 <= i < hms.len() ==> #[trigger] hms[i] != ',',
        all_numbers(f),
    ensures
        text::split_once(hms + seq![','] + f, seq![',']) == Some((hms, f)),
        all_time(hms + seq![','] + f),
{
    let t = hms + seq![','] + f;
    lemma_no_char(hms, ',', f);
    text::lemma_split_next(hms, seq![','], f);
    assert forall|i: int| 0 <= i < t.len() implies time_char(#[trigger] t[i]) by {
        if i < hms.len() {
            assert(t[i] == hms[i]);
        } else if i > hms.len() {
            assert(t[i] == f[i - hms.len() - 1]);
        }
    }
}

proof fn lemma_parts(minus: bool, ms: int)
    requires
        0 <= ms,
    ensures
        ({
            let v = |n: int|
                if minus {
                    -(n * 1_000_000_000)
                } else {
                    n * 1_000_000_000
                };
            time_ns(
                v(ms / 3_600_000),
                v(ms % 3_600_000 / 60_000),
                v(ms % 60_000 / 1000),
                v(ms % 1000),
            ) == (if minus {
                -(ms * 1_000_000)
            } else {
                ms * 1_000_000
            })
        }),
{
    assert(ms == 3_600_000 * (ms / 3_600_000) + 60_000 * (ms % 3_600_000 / 60_000) + 1000 * (ms
        % 60_000 / 1000) + ms % 1000);
}

/// What a written time is made of.
proof fn lemma_time_chars(cs: int)
    ensures
        all_time(srt_time(cs)),
        ({
            let ms = magnitude(cs * 10);
            let h = text::signed_pad(cs < 0, ms / 3_600_000, 2);
            let m = text::signed_pad(cs < 0, ms % 3_600_000 / 60_000, 2);
            let s = text::signed_pad(cs < 0, ms % 60_000 / 1000, 2);
            let f = text::signed_pad(cs < 0, ms % 1000, 3);
            let hms = h + seq![':'] + m + seq![':'] + s;
            &&& text::split(hms, seq![':']) == seq![h, m, s]
            &&& text::split_once(srt_time(cs), seq![',']) == Some((hms, f))
        }),
{
    let ms = magnitude(cs * 10);
    let minus = cs < 0;
    let h = text::signed_pad(minus, ms / 3_600_000, 2);
    let m = text::signed_pad(minus, ms % 3_600_000 / 60_000, 2);
    let s = text::signed_pad(minus, ms % 60_000 / 1000, 2);
    let f = text::signed_pad(minus, ms % 1000, 3);
    text::lemma_signed_pad(minus, ms / 3_600_000, 2);
    text::lemma_signed_pad(minus, ms % 3_600_000 / 60_000, 2);
    text::lemma_signed_pad(minus, ms % 60_000 / 1000, 2);
    text::lemma_signed_pad(minus, ms % 1000, 3);
    lemma_colons(h, m, s);
    lemma_comma(h + seq![':'] + m + seq![':'] + s, f);
}

/// The parts of a written time read back.
proof fn lemma_time_parts(cs: int)
    requires
        -CUE_LIMIT <= cs * 10_000_000 <= CUE_LIMIT,
    ensures
        ({
            let ms = magnitude(cs * 10);
            parts_ns(
                text::parse_billionths(text::signed_pad(cs < 0, ms / 3_600_000, 2)),
                text::parse_billionths(text::signed_pad(cs < 0, ms % 3_600_000 / 60_000, 2)),
                text::parse_billionths(text::signed_pad(cs < 0, ms % 60_000 / 1000, 2)),
                text::parse_billionths(text::signed_pad(cs < 0, ms % 1000, 3)),
            ) == Some(cs * 10_000_000)
        }),
{
    let ms = magnitude(cs * 10);
    let minus = cs < 0;
    text::lemma_signed_pad(minus, ms / 3_600_000, 2);
    text::lemma_signed_pad(minus, ms % 3_600_000 / 60_000, 2);
    text::lemma_signed_pad(minus, ms % 60_000 / 1000, 2);
    text::lemma_signed_pad(minus, ms % 1000, 3);
    lemma_parts(minus, ms as int);
}

/// A written time reads back, whatever white space is around it.
#[verifier::spinoff_prover]
pub proof fn law_written_times_read_back(before: Seq<char>, cs: int, after: Seq<char>)
    requires
        -CUE_LIMIT <= cs * 10_000_000 <= CUE_LIMIT,
        text::all_white(before),
        text::all_white(after),
    ensures
        ts_ns(before + srt_time(cs) + after) == Some(cs * 10_000_000),
{
    lemma_time_chars(cs);
    let t = srt_time(cs);
    assert(time_char(t[0]));
    assert(time_char(t[t.len() - 1]));
    text::lemma_trim_around(before, t, after);
    lemma_time_parts(cs);
}

/// The line with the times of an entry.
spec fn times_line(t0: Seq<char>, t1: Seq<char>) -> Seq<char> {
    t0 + " --> "@ + t1
}

proof fn lemma_times(t0: Seq<char>, t1: Seq<char>)
    requires
        all_time(t0),
        all_time(t1),
    ensures
        text::split_once(times_line(t0, t1), "-->"@) == Some((t0.push(' '), seq![' '] + t1)),
        times_line(t0, t1).len() > 0,
        times_line(t0, t1)[0] == t0[0],
        times_line(t0, t1).last() == t1.last(),
        forall|j: int|
            0 <= j < times_line(t0, t1).len() ==> #[trigger] times_line(t0, t1)[j] != '\n'
                && times_line(t0, t1)[j] != '\r',
{
    reveal_strlit(" --> ");
    reveal_strlit("-->");
    let times = times_line(t0, t1);
    let n = t0.len() as int;
    assert forall|j: int| 0 <= j < times.len() implies #[trigger] times[j] != '\n' && times[j]
        != '\r' by {
        if j < n {
            assert(times[j] == t0[j]);
        } else if j >= n + 5 {
            assert(times[j] == t1[j - n - 5]);
        } else {
            assert(times[j] == " --> "@[j - n]);
        }
    }
    let a = t0.push(' ');
    let b = seq![' '] + t1;
    assert(times =~= a + "-->"@ + b);
    assert forall|j: int| 0 <= j < a.len() implies !text::matches_at(times, "-->"@, j) by {
        if text::matches_at(times, "-->"@, j) {
            text::lemma_match_char(times, "-->"@, j, 2);
            if j + 2 < n {
                assert(times[j + 2] == t0[j + 2]);
            } else {
                assert(times[j + 2] == " --> "@[j + 2 - n]);
            }
        }
    }
    text::lemma_split_next(a, "-->"@, b);
}

proof fn lemma_block_text(number: Seq<char>, times: Seq<char>, body: Seq<char>)
    requires
        text::all_digits(number),
        number.len() > 0,
        times.len() > 0,
        times.last() != '\r',
        forall|j: int| 0 <= j < times.len() ==> #[trigger] times[j] != '\n' && times[j] != '\r',
        body.len() > 0,
        !text::is_white(body[0]),
        !text::is_white(body.last()),
        no_pair(body, '\n'),
        no_pair(body, '\r'),
    ensures
        ({
            let block = number + seq!['\n'] + (times + seq!['\n'] + body);
            &&& text::lines(block) == seq![number, times] + text::lines(body)
            &&& closed_text(block)
        }),
{
    let tail = times + seq!['\n'] + body;
    let block = number + seq!['\n'] + tail;
    assert(text::is_digit(number[number.len() - 1]));
    assert forall|j: int| 0 <= j < number.len() implies number[j] != '\n' by {
        assert(text::is_digit(number[j]));
    }
    text::lemma_lines_next(number, tail);
    text::lemma_lines_next(times, body);
    assert(text::lines(block) =~= seq![number, times] + text::lines(body));
    assert(block.last() == body.last());
    assert(block[0] == number[0] && text::is_digit(number[0]));
    let k = number.len() as int;
    let l = k + 1 + times.len();
    assert forall|j: int|
        0 <= j < block.len() - 1 && (#[trigger] block[j] == '\n' || block[j] == '\r') implies block[j
        + 1] != '\n' by {
        if j < k {
            assert(block[j] == number[j]);
            assert(text::is_digit(number[j]));
        } else if j == k {
            assert(block[j + 1] == times[0]);
        } else if j < l {
            assert(block[j] == times[j - k - 1]);
        } else if j == l {
            assert(block[j + 1] == body[0]);
        } else {
            assert(block[j] == body[j - l - 1]);
            assert(block[j + 1] == body[j - l]);
        }
    }
}

/// A number does not hold an arrow.
proof fn lemma_number(number: Seq<char>)
    requires
        text::all_digits(number),
    ensures
        !text::contains(number, "-->"@),
        forall|j: int| 0 <= j < number.len() ==> number[j] != '\n',
{
    reveal_strlit("-->");
    text::lemma_find_from(number, "-->"@, 0);
    assert forall|j: int| 0 <= j implies !text::matches_at(number, "-->"@, j) by {
        if text::matches_at(number, "-->"@, j) {
            text::lemma_match_char(number, "-->"@, j, 0);
            assert(text::is_digit(number[j]));
        }
    }
    assert forall|j: int| 0 <= j < number.len() implies number[j] != '\n' by {
        assert(text::is_digit(number[j]));
    }
}

/// The number and the times of an entry without text.
proof fn lemma_head_text(number: Seq<char>, times: Seq<char>)
    requires
        text::all_digits(number),
        number.len() > 0,
        times.len() > 0,
        forall|j: int| 0 <= j < times.len() ==> #[trigger] times[j] != '\n' && times[j] != '\r',
    ensures
        ({
            let block = number + seq!['\n'] + times;
            &&& text::lines(block) == seq![number, times]
            &&& closed_text(block)
        }),
{
    let block = number + seq!['\n'] + times;
    lemma_number(number);
    assert(text::is_digit(number[number.len() - 1]));
    text::lemma_lines_next(number, times);
    assert forall|j: int| 0 <= j implies !text::matches_at(times, seq!['\n'], j) by {
        if text::matches_at(times, seq!['\n'], j) {
            text::lemma_match_char(times, seq!['\n'], j, 0);
        }
    }
    text::lemma_split_none(times, seq!['\n']);
    assert(text::lines(times) =~= seq![times]);
    assert(text::lines(block) =~= seq![number, times]);
    let k = number.len() as int;
    assert(block.last() == times[times.len() - 1]);
    assert(block[0] == number[0] && text::is_digit(number[0]));
    assert forall|j: int|
        0 <= j < block.len() - 1 && (#[trigger] block[j] == '\n' || block[j] == '\r') implies block[j
        + 1] != '\n' by {
        if j < k {
            assert(block[j] == number[j]);
            assert(text::is_digit(number[j]));
        } else if j == k {
            assert(block[j + 1] == times[0]);
        } else {
            assert(block[j] == times[j - k - 1]);
        }
    }
}

/// A text that holds no empty line and neither begins nor ends with a line
/// end.
spec fn closed_text(block: Seq<char>) -> bool {
    &&& block.len() > 0
    &&& block[0] != '\n'
    &&& block.last() != '\n'
    &&& block.last() != '\r'
    &&& no_pair(block, '\n')
    &&& no_pair(block, '\r')
}

/// Nothing, or the line end that an entry without text leaves behind.
spec fn lead(b: bool) -> Seq<char> {
    if b {
        seq!['\n']
    } else {
        Seq::empty()
    }
}

/// A line end before an entry makes no difference.
proof fn lemma_lead(b: bool, block: Seq<char>)
    requires
        closed_text(block),
        text::lines(block).len() >= 2,
        text::all_digits(text::lines(block)[0]),
        text::lines(block)[0].len() > 0,
    ensures
        block_cue(lead(b) + block) == entry_cue(text::lines(block)),
        (lead(b) + block).len() > 0,
        (lead(b) + block).last() == block.last(),
        no_pair(lead(b) + block, '\n'),
        no_pair(lead(b) + block, '\r'),
{
    let lines = text::lines(block);
    let all = lead(b) + block;
    assert(entry_lines(lines) == lines);
    if b {
        let none = Seq::<char>::empty();
        text::lemma_lines_next(none, block);
        assert(all =~= none + seq!['\n'] + block);
        let more = seq![none] + lines;
        assert(text::strip_cr(none) =~= none);
        assert(text::lines(all) =~= more);
        lemma_number(lines[0]);
        assert(more[1] == lines[0]);
        assert(more.skip(1) =~= lines);
        assert(entry_lines(more) == lines);
        assert forall|j: int|
            0 <= j < all.len() - 1 && (#[trigger] all[j] == '\n' || all[j] == '\r') implies all[j + 1]
            != '\n' by {
            assert(all[j + 1] == block[j]);
            if j > 0 {
                assert(all[j] == block[j - 1]);
            }
        }
    } else {
        assert(all =~= block);
    }
}

/// A written entry with a text reads back, and can be told from what follows.
proof fn lemma_block(b: bool, segment: Segment, n: nat)
    requires
        readable(segment),
        text::trim(segment.text@).len() > 0,
    ensures
        ({
            let block = lead(b) + srt_block(segment, n);
            &&& block_cue(block) == Some(segment_cue(segment))
            &&& block.len() > 0
            &&& block.last() != '\n'
            &&& block.last() != '\r'
            &&& no_pair(block, '\n')
            &&& no_pair(block, '\r')
        }),
{
    let body = text::trim(segment.text@);
    let number = text::decimal(n);
    let t0 = srt_time(segment.start());
    let t1 = srt_time(segment.end());
    let times = times_line(t0, t1);
    let block = srt_block(segment, n);
    lemma_entry_times(segment);
    text::lemma_decimal(n);
    text::lemma_trim(segment.text@);
    text::lemma_trim_is(body);
    lemma_no_pair(body, '\n');
    lemma_no_pair(body, '\r');
    lemma_block_text(number, times, body);
    assert(block =~= number + seq!['\n'] + (times + seq!['\n'] + body));
    text::lemma_join_lines(body);
    let lines = text::lines(block);
    assert(lines[0] == number);
    assert(lines[1] == times);
    assert(lines.skip(2) =~= text::lines(body));
    lemma_lead(b, block);
}

/// The times of an entry read back.
proof fn lemma_entry_times(segment: Segment)
    requires
        readable(segment),
    ensures
        ({
            let t0 = srt_time(segment.start());
            let t1 = srt_time(segment.end());
            let times = times_line(t0, t1);
            &&& times.len() > 0
            &&& times.last() != '\r'
            &&& forall|j: int|
                0 <= j < times.len() ==> #[trigger] times[j] != '\n' && times[j] != '\r'
            &&& text::split_once(times, "-->"@) == Some((t0.push(' '), seq![' '] + t1))
            &&& ts_ns(t0.push(' ')) == Some(segment.start() * 10_000_000)
            &&& ts_ns(seq![' '] + t1) == Some(segment.end() * 10_000_000)
        }),
{
    let t0 = srt_time(segment.start());
    let t1 = srt_time(segment.end());
    let none = Seq::<char>::empty();
    lemma_time_chars(segment.start());
    lemma_time_chars(segment.end());
    law_written_times_read_back(none, segment.start(), seq![' ']);
    law_written_times_read_back(seq![' '], segment.end(), none);
    assert(none + t0 + seq![' '] =~= t0.push(' '));
    assert(seq![' '] + t1 + none =~= seq![' '] + t1);
    lemma_times(t0, t1);
    assert(time_char(t1[t1.len() - 1]));
}

/// An entry without text has no cue, and leaves a line end behind.
#[verifier::spinoff_prover]
proof fn lemma_silent(b: bool, segment: Segment, n: nat)
    requires
        readable(segment),
        text::trim(segment.text@).len() == 0,
    ensures
        ({
            let head = text::decimal(n) + seq!['\n'] + times_line(
                srt_time(segment.start()),
                srt_time(segment.end()),
            );
            let block = lead(b) + head;
            &&& srt_block(segment, n) == head + seq!['\n']
            &&& block_cue(block) is None
            &&& block.len() > 0
            &&& block.last() != '\n'
            &&& block.last() != '\r'
            &&& no_pair(block, '\n')
            &&& no_pair(block, '\r')
        }),
{
    let number = text::decimal(n);
    let times = times_line(srt_time(segment.start()), srt_time(segment.end()));
    let head = number + seq!['\n'] + times;
    lemma_entry_times(segment);
    text::lemma_decimal(n);
    lemma_head_text(number, times);
    lemma_lead(b, head);
    lemma_no_text(number, times);
    assert(srt_block(segment, n) =~= head + seq!['\n']);
}

/// Two lines alone are no cue.
proof fn lemma_no_text(number: Seq<char>, times: Seq<char>)
    ensures
        entry_cue(seq![number, times]) is None,
{
    let lines = seq![number, times];
    assert(lines.skip(2) =~= Seq::empty());
    assert(text::join(lines.skip(2), seq!['\n']) =~= Seq::<char>::empty());
}

/// An entry comes off what follows it.
proof fn lemma_entry(block: Seq<char>, rest: Seq<char>)
    requires
        block.len() > 0,
        block.last() != '\n',
        block.last() != '\r',
        no_pair(block, '\n'),
        no_pair(block, '\r'),
        no_pair(rest, '\r'),
    ensures
        no_pair(block + seq!['\n', '\n'] + rest, '\r'),
        text::split(block + seq!['\n', '\n'] + rest, seq!['\n', '\n']) == seq![block]
            + text::split(rest, seq!['\n', '\n']),
{
    let lf = seq!['\n', '\n'];
    let all = block + lf + rest;
    let n = block.len() as int;
    assert forall|j: int| 0 <= j < n implies !text::matches_at(all, lf, j) by {
        if text::matches_at(all, lf, j) {
            text::lemma_match_char(all, lf, j, 0);
            text::lemma_match_char(all, lf, j, 1);
            assert(all[j] == block[j]);
            if j + 1 < n {
                assert(all[j + 1] == block[j + 1]);
            }
        }
    }
    text::lemma_split_next(block, lf, rest);
    assert forall|j: int| 0 <= j < all.len() - 1 && #[trigger] all[j] == '\r' implies all[j + 1]
        != '\n' by {
        if j < n {
            assert(all[j] == block[j]);
            if j + 1 < n {
                assert(all[j + 1] == block[j + 1]);
            }
        } else if j >= n + 2 {
            assert(all[j] == rest[j - n - 2]);
            assert(all[j + 1] == rest[j + 1 - n - 2]);
        }
    }
}

proof fn lemma_no_entries(b: bool)
    ensures
        no_pair(lead(b), '\r'),
        block_cues(text::split(lead(b), seq!['\n', '\n'])) == Seq::<CueView>::empty(),
{
    let rest = lead(b);
    let lf = seq!['\n', '\n'];
    assert forall|j: int| 0 <= j implies !text::matches_at(rest, lf, j) by {}
    text::lemma_split_none(rest, lf);
    let none = Seq::<char>::empty();
    assert(text::lines(none).len() == 0);
    if b {
        text::lemma_lines_next(none, none);
        assert(rest =~= none + seq!['\n'] + none);
    }
    assert(text::lines(rest).len() <= 1);
    assert(block_cue(rest) is None);
    assert(seq![rest].skip(1).len() == 0);
    assert(block_cues(seq![rest].skip(1)).len() == 0);
    assert(block_cues(seq![rest]) =~= Seq::empty());
}

proof fn lemma_cues_next(block: Seq<char>, blocks: Seq<Seq<char>>)
    ensures
        block_cues(seq![block] + blocks) == (match block_cue(block) {
            Some(c) => seq![c],
            None => Seq::empty(),
        }) + block_cues(blocks),
{
    let all = seq![block] + blocks;
    assert(all.skip(1) =~= blocks);
    assert(all[0] == block);
}

/// What an entry and what follows it are read as.
proof fn lemma_step(b: bool, segment: Segment, n: nat, after: Seq<char>)
    requires
        readable(segment),
        no_pair(lead(text::trim(segment.text@).len() == 0) + after, '\r'),
    ensures
        ({
            let all = lead(b) + (srt_block(segment, n) + seq!['\n', '\n'] + after);
            let silent = text::trim(segment.text@).len() == 0;
            let rest = block_cues(text::split(lead(silent) + after, seq!['\n', '\n']));
            &&& no_pair(all, '\r')
            &&& block_cues(text::split(all, seq!['\n', '\n'])) == if silent {
                rest
            } else {
                seq![segment_cue(segment)] + rest
            }
        }),
{
    let all = lead(b) + (srt_block(segment, n) + seq!['\n', '\n'] + after);
    let silent = text::trim(segment.text@).len() == 0;
    let rest = lead(silent) + after;
    let blocks = text::split(rest, seq!['\n', '\n']);
    if silent {
        lemma_silent(b, segment, n);
        let block = lead(b) + (text::decimal(n) + seq!['\n'] + times_line(
            srt_time(segment.start()),
            srt_time(segment.end()),
        ));
        lemma_entry(block, rest);
        assert(all =~= block + seq!['\n', '\n'] + rest);
        lemma_cues_next(block, blocks);
        assert(Seq::<CueView>::empty() + block_cues(blocks) =~= block_cues(blocks));
    } else {
        lemma_block(b, segment, n);
        let block = lead(b) + srt_block(segment, n);
        lemma_entry(block, rest);
        assert(all =~= block + seq!['\n', '\n'] + rest);
        lemma_cues_next(block, blocks);
    }
}

proof fn lemma_from(b: bool, segments: Seq<Segment>, i: int)
    requires
        0 <= i <= segments.len(),
        forall|k: int| 0 <= k < segments.len() ==> readable(#[trigger] segments[k]),
    ensures
        no_pair(lead(b) + srt_from(segments, i), '\r'),
        block_cues(text::split(lead(b) + srt_from(segments, i), seq!['\n', '\n'])) == spoken_cues(
            segments.skip(i),
        ),
    decreases segments.len() - i,
{
    if i == segments.len() {
        lemma_no_entries(b);
        assert(lead(b) + srt_from(segments, i) =~= lead(b));
    } else {
        let silent = text::trim(segments[i].text@).len() == 0;
        let cues = spoken_cues(segments.skip(i + 1));
        lemma_from(silent, segments, i + 1);
        lemma_step(b, segments[i], (i + 1) as nat, srt_from(segments, i + 1));
        assert(segments.skip(i)[0] == segments[i]);
        assert(segments.skip(i).skip(1) =~= segments.skip(i + 1));
        assert(Seq::<CueView>::empty() + cues =~= cues);
    }
}

/// Reading the captions that were written gives the transcript back. Only
/// segments without text are left out.
pub proof fn law_written_captions_read_back(segments: Seq<Segment>)
    requires
        forall|i: int| 0 <= i < segments.len() ==> readable(#[trigger] segments[i]),
    ensures
        srt_cues(srt_from(segments, 0)) == spoken_cues(segments),
{
    lemma_from(false, segments, 0);
    let all = srt_from(segments, 0);
    assert(lead(false) + all =~= all);
    assert(segments.skip(0) =~= segments);
    let crlf = seq!['\r', '\n', '\r', '\n'];
    assert forall|j: int| 0 <= j implies !text::matches_at(all, crlf, j) by {
        if text::matches_at(all, crlf, j) {
            text::lemma_match_char(all, crlf, j, 0);
            text::lemma_match_char(all, crlf, j, 1);
        }
    }
    text::lemma_split_none(all, crlf);
    let parts = seq![all];
    assert(parts.skip(1).len() == 0);
    assert(part_cues(parts.skip(1)).len() == 0);
    assert(part_cues(parts) =~= block_cues(text::split(all, seq!['\n', '\n'])));
}

/// Captions that hold words are read back one for one: each with its own times,
/// to the hundredth of a second, and its own words.
pub proof fn law_every_caption_is_read_back(segments: Seq<Segment>, i: int)
    requires
        0 <= i < segments.len(),
        forall|k: int| 0 <= k < segments.len() ==> readable(#[trigger] segments[k]),
        forall|k: int|
            0 <= k < segments.len() ==> text::trim((#[trigger] segments[k]).text@).len() > 0,
    ensures
        srt_cues(srt_from(segments, 0)).len() == segments.len(),
        srt_cues(srt_from(segments, 0))[i].start == segments[i].start() * 10_000_000,
        srt_cues(srt_from(segments, 0))[i].end == segments[i].end() * 10_000_000,
        srt_cues(srt_from(segments, 0))[i].text == text::trim(segments[i].text@),
{
    law_written_captions_read_back(segments);
    lemma_spoken(segments, i);
}

proof fn lemma_spoken(segments: Seq<Segment>, i: int)
    requires
        0 <= i < segments.len(),
        forall|k: int|
            0 <= k < segments.len() ==> text::trim((#[trigger] segments[k]).text@).len() > 0,
    ensures
        spoken_cues(segments).len() == segments.len(),
        spoken_cues(segments)[i] == segment_cue(segments[i]),
    decreases segments.len(),
{
    let rest = segments.skip(1);
    assert(text::trim(segments[0].text@).len() > 0);
    assert forall|k: int| 0 <= k < rest.len() implies text::trim(
        (#[trigger] rest[k]).text@,
    ).len() > 0 by {
        assert(rest[k] == segments[k + 1]);
    }
    if i > 0 {
        lemma_spoken(rest, i - 1);
        assert(rest[i - 1] == segments[i]);
    } else if segments.len() > 1 {
        lemma_spoken(rest, 0);
    }
}

/// A time of hours, minutes, seconds and milliseconds is read as so many
/// nanoseconds.
pub proof fn law_clock_is_read_in_nanoseconds(h: nat, m: nat, s: nat, hundredths: nat)
    requires
        m < 60,
        s < 60,
        hundredths < 100,
        h <= 1_000_000_000,
    ensures
        ts_ns(
            text::zero_pad(text::decimal(h), 2) + seq![':'] + text::zero_pad(text::decimal(m), 2)
                + seq![':'] + text::zero_pad(text::decimal(s), 2) + seq![','] + text::zero_pad(
                text::decimal(10 * hundredths),
                3,
            ),
        ) == Some(
            h * 3_600_000_000_000 + m * 60_000_000_000 + s * 1_000_000_000 + hundredths
                * 10_000_000int,
        ),
{
    let cs = (((h * 60 + m) * 60 + s) * 100 + hundredths) as int;
    crate::captions::law_time_shows_the_clock(h, m, s, hundredths);
    let none = Seq::<char>::empty();
    law_written_times_read_back(none, cs, none);
    assert(none + srt_time(cs) + none =~= srt_time(cs));
}

/// Captions with line ends of two characters are read as well: an empty line of
/// that kind stands between two of them.
pub proof fn law_captions_of_other_line_ends(a: Seq<char>, b: Seq<char>)
    requires
        forall|j: int|
            0 <= j < a.len() ==> !text::matches_at(
                a + seq!['\r', '\n', '\r', '\n'] + b,
                seq!['\r', '\n', '\r', '\n'],
                j,
            ),
        forall|j: int| 0 <= j ==> !text::matches_at(a, seq!['\r', '\n', '\r', '\n'], j),
    ensures
        srt_cues(a + seq!['\r', '\n', '\r', '\n'] + b) == srt_cues(a) + srt_cues(b),
{
    let end = seq!['\r', '\n', '\r', '\n'];
    text::lemma_split_next(a, end, b);
    text::lemma_split_none(a, end);
    let parts = seq![a] + text::split(b, end);
    assert(parts.skip(1) =~= text::split(b, end));
    assert(parts[0] == a);
    assert(seq![a].skip(1) =~= Seq::empty());
    assert(part_cues(seq![a].skip(1)) =~= Seq::empty());
    assert(srt_cues(a) =~= block_cues(text::split(a, seq!['\n', '\n'])));
}

} // verus!
