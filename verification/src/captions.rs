//! Captions: writing a transcript down as SRT.
use vstd::prelude::*;
use crate::text;

verus! {

/// One transcribed segment. Its times are centiseconds, where known.
#[derive(Debug)]
pub struct Segment {
    pub text: String,
    pub t0: Option<i64>,
    pub t1: Option<i64>,
}

/// The default length of a segment whose end is unknown, in centiseconds.
pub const SEGMENT_LENGTH: i64 = 100;

impl Segment {
    /// When the segment begins, in centiseconds.
    pub open spec fn start(self) -> int {
        match self.t0 {
            Some(t) => t as int,
            None => 0,
        }
    }

    /// When it ends.
    pub open spec fn end(self) -> int {
        match self.t1 {
            Some(t) => t as int,
            None => self.start() + SEGMENT_LENGTH,
        }
    }

    /// Both times can be written in milliseconds.
    pub open spec fn fits(self) -> bool {
        &&& i64::MIN <= self.start() * 10 <= i64::MAX
        &&& i64::MIN <= self.end() * 10 <= i64::MAX
    }
}

pub open spec fn magnitude(n: int) -> nat {
    if n < 0 {
        (-n) as nat
    } else {
        n as nat
    }
}

/// A time of `cs` centiseconds as `HH:MM:SS,mmm`. Each part of a negative time
/// carries its own sign.
pub open spec fn srt_time(cs: int) -> Seq<char> {
    let ms = magnitude(cs * 10);
    let minus = cs < 0;
    text::signed_pad(minus, ms / 3_600_000, 2) + seq![':'] + text::signed_pad(
        minus,
        ms % 3_600_000 / 60_000,
        2,
    ) + seq![':'] + text::signed_pad(minus, ms % 60_000 / 1000, 2) + seq![','] + text::signed_pad(
        minus,
        ms % 1000,
        3,
    )
}

pub fn fmt_srt_time(cs: i64) -> (r: String)
    requires
        i64::MIN <= cs * 10 <= i64::MAX,
    ensures
        r@ == srt_time(cs as int),
{
    let chars = srt_time_chars(cs);
    text::from_chars(chars.as_slice())
}

fn srt_time_chars(cs: i64) -> (r: Vec<char>)
    requires
        i64::MIN <= cs * 10 <= i64::MAX,
    ensures
        r@ == srt_time(cs as int),
{
    let minus: bool = cs < 0;
    let ms: u64 = if minus {
        (0 - cs as i128 * 10) as u64
    } else {
        cs as u64 * 10
    };
    assert(ms == magnitude(cs * 10));
    let mut out = text::signed_padded_chars(minus, ms / 3_600_000, 2);
    out.push(':');
    let m = text::signed_padded_chars(minus, ms % 3_600_000 / 60_000, 2);
    text::append_chars(&mut out, m.as_slice());
    out.push(':');
    let s = text::signed_padded_chars(minus, ms % 60_000 / 1000, 2);
    text::append_chars(&mut out, s.as_slice());
    out.push(',');
    let f = text::signed_padded_chars(minus, ms % 1000, 3);
    text::append_chars(&mut out, f.as_slice());
    assert(out@ =~= srt_time(cs as int));
    out
}

/// What stands before the text of entry `n` (counted from 1): its number and
/// its times, each on a line.
pub open spec fn srt_head(segment: Segment, n: nat) -> Seq<char> {
    text::decimal(n) + seq!['\n'] + srt_time(segment.start()) + " --> "@ + srt_time(segment.end())
        + seq!['\n']
}

/// An entry: its head and its trimmed text.
pub open spec fn srt_block(segment: Segment, n: nat) -> Seq<char> {
    srt_head(segment, n) + text::trim(segment.text@)
}

/// The entries from number `i + 1` on, each followed by an empty line.
pub open spec fn srt_from(segments: Seq<Segment>, i: int) -> Seq<char>
    decreases segments.len() - i,
{
    if i < 0 || i >= segments.len() {
        Seq::empty()
    } else {
        srt_block(segments[i], (i + 1) as nat) + seq!['\n', '\n'] + srt_from(segments, i + 1)
    }
}

fn srt_block_chars(segment: &Segment, n: u64) -> (r: Vec<char>)
    requires
        segment.fits(),
    ensures
        r@ == srt_block(*segment, n as nat),
{
    let t0: i64 = match segment.t0 {
        Some(t) => t,
        None => 0,
    };
    let t1: i64 = match segment.t1 {
        Some(t) => t,
        None => t0 + SEGMENT_LENGTH,
    };
    let start = srt_time_chars(t0);
    let end = srt_time_chars(t1);
    let arrow = text::to_chars(" --> ");
    let words = text::to_chars(segment.text.as_str());
    let body = text::trimmed(words.as_slice());
    let mut out = text::decimal_chars(n);
    out.push('\n');
    text::append_chars(&mut out, start.as_slice());
    text::append_chars(&mut out, arrow.as_slice());
    text::append_chars(&mut out, end.as_slice());
    out.push('\n');
    assert(out@ =~= text::decimal(n as nat) + seq!['\n'] + start@ + arrow@ + end@ + seq!['\n']);
    text::append_chars(&mut out, body.as_slice());
    out
}

/// The SRT text of a transcript.
pub fn srt_text(segments: &Vec<Segment>) -> (r: String)
    requires
        forall|i: int| 0 <= i < segments@.len() ==> (#[trigger] segments@[i]).fits(),
    ensures
        r@ == srt_from(segments@, 0),
{
    let mut out: Vec<char> = Vec::new();
    let mut i: usize = 0;
    assert(out@ + srt_from(segments@, 0) =~= srt_from(segments@, 0));
    while i < segments.len()
        invariant
            i <= segments@.len(),
            forall|i: int| 0 <= i < segments@.len() ==> (#[trigger] segments@[i]).fits(),
            out@ + srt_from(segments@, i as int) == srt_from(segments@, 0),
        decreases segments.len() - i,
    {
        let ghost before = out@;
        let block = srt_block_chars(&segments[i], i as u64 + 1);
        text::append_chars(&mut out, block.as_slice());
        out.push('\n');
        out.push('\n');
        assert(out@ =~= before + (block@ + seq!['\n', '\n']));
        i += 1;
        assert(out@ + srt_from(segments@, i as int) =~= before + (block@ + seq!['\n', '\n']
            + srt_from(segments@, i as int)));
    }
    assert(out@ + srt_from(segments@, i as int) =~= out@);
    text::from_chars(out.as_slice())
}

/// A time is written as hours, minutes, seconds and milliseconds: two digits
/// each but for the last, which has three.
pub proof fn law_time_shows_the_clock(h: nat, m: nat, s: nat, hundredths: nat)
    requires
        m < 60,
        s < 60,
        hundredths < 100,
    ensures
        srt_time((((h * 60 + m) * 60 + s) * 100 + hundredths) as int) == text::zero_pad(
            text::decimal(h),
            2,
        ) + seq![':'] + text::zero_pad(text::decimal(m), 2) + seq![':'] + text::zero_pad(
            text::decimal(s),
            2,
        ) + seq![','] + text::zero_pad(text::decimal(10 * hundredths), 3),
{
    let ms = (((h * 60 + m) * 60 + s) * 100 + hundredths) * 10;
    assert(ms / 3_600_000 == h && ms % 3_600_000 / 60_000 == m && ms % 60_000 / 1000 == s && ms
        % 1000 == 10 * hundredths);
}

/// A missing start of a segment is the start of the sound, and a missing end is
/// a second behind the start. One more segment adds one block at the end of the
/// text: its number, its times, and its words.
pub proof fn law_segments_become_numbered_blocks(segments: Seq<Segment>, s: Segment)
    ensures
        s.start() == (match s.t0 {
            Some(t) => t as int,
            None => 0,
        }),
        s.end() == (match s.t1 {
            Some(t) => t as int,
            None => s.start() + 100,
        }),
        srt_from(segments.push(s), 0) == srt_from(segments, 0) + text::decimal(segments.len() + 1)
            + seq!['\n'] + srt_time(s.start()) + " --> "@ + srt_time(s.end()) + seq!['\n']
            + text::trim(s.text@) + seq!['\n', '\n'],
        srt_from(Seq::empty(), 0).len() == 0,
{
    lemma_last_block(segments, s, 0);
    lemma_flat(
        srt_from(segments, 0),
        text::decimal(segments.len() + 1),
        srt_time(s.start()),
        srt_time(s.end()),
        text::trim(s.text@),
    );
}

#[verifier::spinoff_prover]
proof fn lemma_flat(
    before: Seq<char>,
    n: Seq<char>,
    t0: Seq<char>,
    t1: Seq<char>,
    body: Seq<char>,
)
    ensures
        before + (((n + seq!['\n'] + t0 + " --> "@ + t1 + seq!['\n']) + body) + seq!['\n', '\n'])
            == before + n + seq!['\n'] + t0 + " --> "@ + t1 + seq!['\n'] + body + seq!['\n', '\n'],
{
    assert(before + (((n + seq!['\n'] + t0 + " --> "@ + t1 + seq!['\n']) + body) + seq!['\n', '\n'])
        =~= before + n + seq!['\n'] + t0 + " --> "@ + t1 + seq!['\n'] + body + seq!['\n', '\n']);
}

proof fn lemma_regrouped(a: Seq<char>, b: Seq<char>, c: Seq<char>)
    ensures
        a + (b + c) == (a + b) + c,
{
    assert(a + (b + c) =~= (a + b) + c);
}

#[verifier::spinoff_prover]
proof fn lemma_last_block(segments: Seq<Segment>, s: Segment, i: int)
    requires
        0 <= i <= segments.len(),
    ensures
        srt_from(segments.push(s), i) == srt_from(segments, i) + (srt_block(
            s,
            segments.len() + 1,
        ) + seq!['\n', '\n']),
    decreases segments.len() - i,
{
    let all = segments.push(s);
    let last = srt_block(s, segments.len() + 1) + seq!['\n', '\n'];
    if i == segments.len() {
        assert(all[i] == s);
        assert(srt_from(all, i + 1) =~= Seq::empty());
        assert(last + Seq::empty() =~= last);
        assert(Seq::empty() + last =~= last);
    } else {
        lemma_last_block(segments, s, i + 1);
        assert(all[i] == segments[i]);
        lemma_regrouped(
            srt_block(segments[i], (i + 1) as nat) + seq!['\n', '\n'],
            srt_from(segments, i + 1),
            last,
        );
    }
}

} // verus!
