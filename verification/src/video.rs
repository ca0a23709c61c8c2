//! Zoom windows and export settings of a recorded video.
use vstd::prelude::*;
use crate::error::{owned, Error};
use crate::math::floor_div;
use crate::pixmap::{byte_len, size_ok, Pixmap, PixmapView};
use crate::text;
use crate::thumbnails::{le_u32, read_le_u32};

verus! {

/// One second in nanoseconds.
pub const SECOND: i64 = 1_000_000_000;

/// A zoom level of one, in millionths.
pub const LEVEL_ONE: u32 = 1_000_000;

/// A point of the picture that playback zooms in on: `level` millionths at
/// `(cx, cy)` (in 1/256 pixels), over a window of `duration` nanoseconds
/// around the time `t`.
#[derive(Clone, Copy, PartialEq, Eq, Structural, Debug)]
pub struct ZoomPoint {
    pub t: i64,
    pub cx: i64,
    pub cy: i64,
    pub level: u32,
    pub duration: i64,
}

impl ZoomPoint {
    /// Where the window begins.
    pub open spec fn start(self) -> int {
        self.t - self.duration as int / 2
    }

    /// Where the window ends.
    pub open spec fn end(self) -> int {
        self.start() + self.duration
    }

    /// The window runs forwards and inside the range of times.
    pub open spec fn fits(self) -> bool {
        &&& self.duration >= 0
        &&& i64::MIN <= self.start()
        &&& self.end() <= i64::MAX
    }

    /// The same zoom over another window.
    pub open spec fn with_window(self, start: int, end: int) -> ZoomPoint {
        ZoomPoint { t: (start + (end - start) / 2) as i64, duration: (end - start) as i64, ..self }
    }

    /// The window `[start, end)`.
    pub fn window(&self) -> (r: (i64, i64))
        requires
            self.fits(),
        ensures
            r.0 == self.start(),
            r.1 == self.end(),
    {
        let start: i64 = self.t - self.duration / 2;
        (start, start + self.duration)
    }

    /// The window `[start, end)`, also where it leaves the range of times.
    pub fn wide_window(&self) -> (r: (i128, i128))
        ensures
            r.0 == self.start(),
            r.1 == self.end(),
            -0x1_0000_0000_0000_0000 <= r.0 <= 0x1_0000_0000_0000_0000,
            -0x1_0000_0000_0000_0000 <= r.1 <= 0x1_0000_0000_0000_0000,
    {
        let start: i128 = self.t as i128 - floor_div(self.duration as i128, 2);
        (start, start + self.duration as i128)
    }

    /// The same zoom over the window `[start, end)`.
    pub fn at_window(&self, start: i64, end: i64) -> (r: ZoomPoint)
        requires
            0 <= start <= end,
        ensures
            r == self.with_window(start as int, end as int),
            r.start() == start,
            r.end() == end,
            r.fits(),
    {
        ZoomPoint { t: start + (end - start) / 2, duration: end - start, ..*self }
    }
}

/// What is known of a video. The duration is in nanoseconds.
#[derive(Clone, Copy, PartialEq, Eq, Structural, Debug)]
pub struct VideoInfo {
    pub duration: i64,
    pub width: u32,
    pub height: u32,
    pub has_audio: bool,
}

/// What to export: the ranges to keep (all of the video if there are none),
/// the zooms, and the files to read and write.
#[derive(Debug)]
pub struct ExportSpec {
    pub input: String,
    pub output: String,
    pub keep: Vec<(i64, i64)>,
    pub zooms: Vec<ZoomPoint>,
    pub overlay_png: Option<String>,
    pub srt: Option<String>,
}

// ---- probing ----

/// What a report has told so far; the duration is in billionths of a second.
pub struct Found {
    pub duration: int,
    pub width: u32,
    pub height: u32,
    pub has_audio: bool,
}

pub open spec fn or_zero(n: Option<int>) -> int {
    match n {
        Some(n) => n,
        None => 0,
    }
}

/// A duration `H:MM:SS.fraction`. A part that is no number counts as zero;
/// a text that does not have three parts is none.
pub open spec fn duration_ns(s: Seq<char>) -> Option<int> {
    let parts = text::split(text::trim(s), seq![':']);
    if parts.len() == 3 {
        Some(
            or_zero(text::parse_billionths(parts[0])) * 3600 + or_zero(
                text::parse_billionths(parts[1]),
            ) * 60 + or_zero(text::parse_billionths(parts[2])),
        )
    } else {
        None
    }
}

/// The number after the first colon, or zero.
pub open spec fn size_field(line: Seq<char>) -> u32 {
    let parts = text::split(line, seq![':']);
    if parts.len() < 2 {
        0
    } else {
        match text::parse_unsigned(text::trim(parts[1])) {
            Some(n) => if n <= u32::MAX {
                n as u32
            } else {
                0
            },
            None => 0,
        }
    }
}

/// After a further line of the report.
pub open spec fn found_line(found: Found, line: Seq<char>) -> Found {
    let line = text::trim(line);
    if text::starts_with(line, "Duration: "@) {
        match duration_ns(line.skip("Duration: "@.len() as int)) {
            Some(d) => Found { duration: d, ..found },
            None => found,
        }
    } else if text::starts_with(line, "Width:"@) {
        Found { width: size_field(line), ..found }
    } else if text::starts_with(line, "Height:"@) {
        Found { height: size_field(line), ..found }
    } else if text::contains(line, "audio #"@) || text::starts_with(line, "Audio:"@) {
        Found { has_audio: true, ..found }
    } else {
        found
    }
}

/// What the lines of a report tell.
pub open spec fn found_lines(lines: Seq<Seq<char>>) -> Found
    decreases lines.len(),
{
    if lines.len() == 0 {
        Found { duration: 0, width: 0, height: 0, has_audio: false }
    } else {
        found_line(found_lines(lines.drop_last()), lines.last())
    }
}

/// Whether a report describes a video.
pub open spec fn is_video(found: Found) -> bool {
    0 < found.duration <= i64::MAX && found.width != 0
}

fn read_duration(s: &[char]) -> (r: Option<i128>)
    ensures
        match r {
            Some(d) => duration_ns(s@) == Some(d as int),
            None => duration_ns(s@) is None,
        },
{
    let s = text::trimmed(s);
    let colon: Vec<char> = vec![':'];
    assert(colon@ =~= seq![':']);
    let parts = text::split_chars(s.as_slice(), colon.as_slice());
    let ghost all = text::views(parts@);
    assert(all.len() == parts@.len());
    if parts.len() != 3 {
        return None;
    }
    assert(all[0] == parts@[0]@ && all[1] == parts@[1]@ && all[2] == parts@[2]@);
    let h: i128 = match text::read_billionths(parts[0].as_slice()) {
        Some(v) => v,
        None => 0,
    };
    let m: i128 = match text::read_billionths(parts[1].as_slice()) {
        Some(v) => v,
        None => 0,
    };
    let s: i128 = match text::read_billionths(parts[2].as_slice()) {
        Some(v) => v,
        None => 0,
    };
    Some(h * 3600 + m * 60 + s)
}

fn read_size(line: &[char]) -> (r: u32)
    ensures
        r == size_field(line@),
{
    let colon: Vec<char> = vec![':'];
    assert(colon@ =~= seq![':']);
    let parts = text::split_chars(line, colon.as_slice());
    let ghost all = text::views(parts@);
    assert(all.len() == parts@.len());
    if parts.len() < 2 {
        return 0;
    }
    assert(all[1] == parts@[1]@);
    let body = text::trimmed(parts[1].as_slice());
    match text::read_u32(body.as_slice()) {
        Some(n) => n,
        None => 0,
    }
}

fn starts(line: &[char], prefix: &str) -> (r: bool)
    ensures
        r == text::starts_with(line@, prefix@),
{
    let p = text::to_chars(prefix);
    text::has_prefix(line, p.as_slice())
}

/// Whether probing `path` may return `r`.
pub open spec fn probe_result(r: Result<VideoInfo, Error>, report: Seq<char>, path: Seq<char>) -> bool {
    let found = found_lines(text::lines(report));
    match r {
        Ok(v) => is_video(found) && v.duration == found.duration && v.width == found.width
            && v.height == found.height && v.has_audio == found.has_audio,
        Err(e) => !is_video(found) && e.is_record("could not probe "@ + path),
    }
}

/// Duration, size and audio of a video out of the report of the discoverer.
pub fn parse_probe(report: &str, path: &str) -> (r: Result<VideoInfo, Error>)
    ensures
        probe_result(r, report@, path@),
{
    let chars = text::to_chars(report);
    let lines = text::split_lines(chars.as_slice());
    let ghost all = text::views(lines@);
    let mut duration: i128 = 0;
    let mut width: u32 = 0;
    let mut height: u32 = 0;
    let mut has_audio: bool = false;
    let mut i: usize = 0;
    while i < lines.len()
        invariant
            all == text::views(lines@),
            i <= lines@.len(),
            found_lines(all.take(i as int)) == (Found {
                duration: duration as int,
                width,
                height,
                has_audio,
            }),
        decreases lines.len() - i,
    {
        assert(all.take(i + 1).drop_last() =~= all.take(i as int));
        assert(all.take(i + 1).last() == lines@[i as int]@);
        let line = text::trimmed(lines[i].as_slice());
        let audio = text::to_chars("audio #");
        if starts(line.as_slice(), "Duration: ") {
            let p = text::to_chars("Duration: ");
            let rest = text::copy_range(line.as_slice(), p.len(), line.len());
            assert(rest@ =~= line@.skip("Duration: "@.len() as int));
            if let Some(d) = read_duration(rest.as_slice()) {
                duration = d;
            }
        } else if starts(line.as_slice(), "Width:") {
            width = read_size(line.as_slice());
        } else if starts(line.as_slice(), "Height:") {
            height = read_size(line.as_slice());
        } else if text::has_chars(line.as_slice(), audio.as_slice()) || starts(
            line.as_slice(),
            "Audio:",
        ) {
            has_audio = true;
        }
        i += 1;
    }
    assert(all.take(i as int) =~= all);
    if duration <= 0 || duration > i64::MAX as i128 || width == 0 {
        let mut m = owned("could not probe ");
        m.append(path);
        return Err(Error::Record(m));
    }
    Ok(VideoInfo { duration: duration as i64, width, height, has_audio })
}

// ---- frames ----

/// The frame in what a frame grabber wrote: a width, a height and the pixels.
pub open spec fn frame_result(r: Result<Pixmap, Error>, success: bool, data: Seq<u8>) -> bool {
    let w = le_u32(data, 0);
    let h = le_u32(data, 4);
    if !success || data.len() < 8 {
        r is Err && r->Err_0.is_record("frame extraction failed"@)
    } else if data.len() < 8 + byte_len(w, h) {
        r is Err && r->Err_0.is_record("short frame data"@)
    } else if !size_ok(w, h) {
        r is Err && r->Err_0.is_record("bad frame dimensions"@)
    } else {
        r is Ok && r->Ok_0@ == (PixmapView {
            width: w as u32,
            height: h as u32,
            data: data.subrange(8, 8 + byte_len(w, h)),
        }) && r->Ok_0@.wf()
    }
}

/// The frame in what a frame grabber wrote.
pub fn decode_frame(success: bool, data: &[u8]) -> (r: Result<Pixmap, Error>)
    ensures
        frame_result(r, success, data@),
{
    if !success || data.len() < 8 {
        return Err(Error::Record(owned("frame extraction failed")));
    }
    let w: u32 = read_le_u32(data, 0);
    let h: u32 = read_le_u32(data, 4);
    proof {
        lemma_len(w, h);
    }
    let expected: u128 = w as u128 * h as u128 * 4;
    if (data.len() - 8) as u128 >= expected {
        match Pixmap::from_bytes(w, h, data, 8) {
            Some(p) => Ok(p),
            None => Err(Error::Record(owned("bad frame dimensions"))),
        }
    } else {
        Err(Error::Record(owned("short frame data")))
    }
}

proof fn lemma_len(w: u32, h: u32)
    ensures
        0 <= w * h <= 0xffff_ffff * 0xffff_ffff,
        0 <= w * h * 4 <= 0xffff_ffff * 0xffff_ffff * 4,
        byte_len(w as int, h as int) == w * h * 4,
{
    assert(0 <= w * h <= 0xffff_ffff * 0xffff_ffff) by (nonlinear_arith)
        requires
            0 <= w <= 0xffff_ffff,
            0 <= h <= 0xffff_ffff,
    ;
}

// ---- exporting ----

/// Why an export failed: the last line that it wrote to its error output.
pub open spec fn failure_text(stderr: Seq<char>) -> Seq<char> {
    let lines = text::lines(stderr);
    "export failed: "@ + (if lines.len() == 0 {
        "unknown error"@
    } else {
        lines.last()
    })
}

/// Whether an export succeeded.
pub open spec fn export_outcome(
    r: Result<(), Error>,
    success: bool,
    stderr: Seq<char>,
    written: bool,
) -> bool {
    if !success {
        r is Err && r->Err_0.is_record(failure_text(stderr))
    } else if !written {
        r is Err && r->Err_0.is_record("export produced no file"@)
    } else {
        r is Ok
    }
}

/// Whether an export succeeded, by how its helper ended, what it wrote to its
/// error output, and whether the file is there.
pub fn export_result(success: bool, stderr: &str, written: bool) -> (r: Result<(), Error>)
    ensures
        export_outcome(r, success, stderr@, written),
{
    if !success {
        let chars = text::to_chars(stderr);
        let lines = text::split_lines(chars.as_slice());
        let ghost all = text::views(lines@);
        assert(all.len() == lines@.len());
        let mut m = owned("export failed: ");
        if lines.len() == 0 {
            m.append("unknown error");
        } else {
            assert(all.last() == lines@[lines@.len() - 1]@);
            let last = text::from_chars(lines[lines.len() - 1].as_slice());
            m.append(last.as_str());
        }
        return Err(Error::Record(m));
    }
    if !written {
        return Err(Error::Record(owned("export produced no file")));
    }
    Ok(())
}

/// A line `Width: N` of a report tells the width, and one of `Height: N` the
/// height, and nothing else.
pub proof fn law_size_lines_tell_the_size(found: Found, n: u32)
    ensures
        found_line(found, "Width: "@ + text::decimal(n as nat)) == (Found { width: n, ..found }),
        found_line(found, "Height: "@ + text::decimal(n as nat)) == (Found { height: n, ..found }),
{
    reveal_strlit("Width: ");
    reveal_strlit("Height: ");
    reveal_strlit("Width:");
    reveal_strlit("Height:");
    reveal_strlit("Duration: ");
    let d = text::decimal(n as nat);
    text::lemma_decimal(n as nat);
    assert(text::is_digit(d[0]) && text::is_digit(d.last()));
    let (w, h) = ("Width: "@ + d, "Height: "@ + d);
    assert(w[0] == 'W' && h[0] == 'H' && w.last() == d.last() && h.last() == d.last());
    text::lemma_trim_is(w);
    text::lemma_trim_is(h);
    assert(!text::starts_with(w, "Duration: "@)) by {
        if text::starts_with(w, "Duration: "@) {
            text::lemma_match_char(w, "Duration: "@, 0, 0);
        }
    }
    assert(!text::starts_with(h, "Duration: "@)) by {
        if text::starts_with(h, "Duration: "@) {
            text::lemma_match_char(h, "Duration: "@, 0, 0);
        }
    }
    assert(!text::starts_with(h, "Width:"@)) by {
        if text::starts_with(h, "Width:"@) {
            text::lemma_match_char(h, "Width:"@, 0, 0);
        }
    }
    assert(w.subrange(0, 6) =~= "Width:"@);
    assert(h.subrange(0, 7) =~= "Height:"@);
    lemma_size_field("Width"@, n);
    lemma_size_field("Height"@, n);
    reveal_strlit("Width");
    reveal_strlit("Height");
    assert(w =~= "Width"@ + seq![':'] + (seq![' '] + d));
    assert(h =~= "Height"@ + seq![':'] + (seq![' '] + d));
}

proof fn lemma_size_field(name: Seq<char>, n: u32)
    requires
        name == "Width"@ || name == "Height"@,
    ensures
        size_field(name + seq![':'] + (seq![' '] + text::decimal(n as nat))) == n,
{
    reveal_strlit("Width");
    reveal_strlit("Height");
    let d = text::decimal(n as nat);
    text::lemma_decimal(n as nat);
    assert(text::is_digit(d[0]) && text::is_digit(d.last()));
    let rest = seq![' '] + d;
    let line = name + seq![':'] + rest;
    assert forall|j: int| 0 <= j < name.len() implies !text::matches_at(line, seq![':'], j) by {
        if text::matches_at(line, seq![':'], j) {
            text::lemma_match_char(line, seq![':'], j, 0);
            assert(line[j] == name[j]);
        }
    }
    text::lemma_split_next(name, seq![':'], rest);
    assert forall|j: int| 0 <= j implies !text::matches_at(rest, seq![':'], j) by {
        if text::matches_at(rest, seq![':'], j) {
            text::lemma_match_char(rest, seq![':'], j, 0);
            if j > 0 {
                assert(rest[j] == d[j - 1]);
                assert(text::is_digit(d[j - 1]));
            }
        }
    }
    text::lemma_split_none(rest, seq![':']);
    text::lemma_trim_is(d);
    assert((seq![name] + seq![rest])[1] == rest);
    assert(d[0] != '+');
}

/// A duration is told as hours, minutes and seconds.
pub proof fn law_duration_is_hours_minutes_seconds(
    a: Seq<char>,
    b: Seq<char>,
    c: Seq<char>,
    h: int,
    m: int,
    s: int,
)
    requires
        a.len() > 0,
        c.len() > 0,
        !text::is_white(a[0]),
        !text::is_white(c.last()),
        forall|j: int| 0 <= j < a.len() ==> a[j] != ':',
        forall|j: int| 0 <= j < b.len() ==> b[j] != ':',
        forall|j: int| 0 <= j < c.len() ==> c[j] != ':',
        text::parse_billionths(a) == Some(h),
        text::parse_billionths(b) == Some(m),
        text::parse_billionths(c) == Some(s),
    ensures
        duration_ns(a + seq![':'] + (b + seq![':'] + c)) == Some(h * 3600 + m * 60 + s),
{
    let rest = b + seq![':'] + c;
    let line = a + seq![':'] + rest;
    assert(line[0] == a[0] && line.last() == c.last());
    text::lemma_trim_is(line);
    assert forall|j: int| 0 <= j < a.len() implies !text::matches_at(line, seq![':'], j) by {
        if text::matches_at(line, seq![':'], j) {
            text::lemma_match_char(line, seq![':'], j, 0);
            assert(line[j] == a[j]);
        }
    }
    text::lemma_split_next(a, seq![':'], rest);
    assert forall|j: int| 0 <= j < b.len() implies !text::matches_at(rest, seq![':'], j) by {
        if text::matches_at(rest, seq![':'], j) {
            text::lemma_match_char(rest, seq![':'], j, 0);
            assert(rest[j] == b[j]);
        }
    }
    text::lemma_split_next(b, seq![':'], c);
    assert forall|j: int| 0 <= j implies !text::matches_at(c, seq![':'], j) by {
        if text::matches_at(c, seq![':'], j) {
            text::lemma_match_char(c, seq![':'], j, 0);
        }
    }
    text::lemma_split_none(c, seq![':']);
    let parts = text::split(line, seq![':']);
    assert(parts =~= seq![a, b, c]);
}

/// A report tells of a video if and only if it has a duration and a width; the
/// video is as the last lines of its kind tell.
pub proof fn law_probe_tells_of_videos(
    r: Result<VideoInfo, Error>,
    report: Seq<char>,
    path: Seq<char>,
    lines: Seq<Seq<char>>,
    last: Seq<char>,
)
    requires
        probe_result(r, report, path),
        text::lines(report) == lines.push(last),
    ensures
        ({
            let found = found_line(found_lines(lines), last);
            &&& r is Ok == (0 < found.duration <= i64::MAX && found.width > 0)
            &&& r matches Ok(v) ==> v.duration == found.duration && v.width == found.width && v.height
                == found.height && v.has_audio == found.has_audio
            &&& r matches Err(e) ==> e matches Error::Record(m) && m@ == "could not probe "@ + path
        }),
        found_lines(Seq::empty()) == (Found { duration: 0, width: 0, height: 0, has_audio: false }),
{
    assert(lines.push(last).drop_last() =~= lines);
}

/// A frame is a width and a height of four bytes with the lowest first, and
/// four bytes for each pixel. What is shorter is no frame.
pub proof fn law_frames_are_size_and_pixels(
    r: Result<Pixmap, Error>,
    success: bool,
    data: Seq<u8>,
    w: int,
    h: int,
)
    requires
        frame_result(r, success, data),
        data.len() >= 8,
        w == data[0] + 256 * data[1] + 65536 * data[2] + 16777216 * data[3],
        h == data[4] + 256 * data[5] + 65536 * data[6] + 16777216 * data[7],
    ensures
        !success || data.len() < 8 + w * h * 4 ==> r is Err,
        success && data.len() >= 8 + w * h * 4 && size_ok(w, h) ==> (r matches Ok(p) && p.width == w
            && p.height == h && p.data@ == data.subrange(8, 8 + w * h * 4)),
{
}

/// An export has worked if and only if it ended well and left its file.
pub proof fn law_export_needs_its_file(
    r: Result<(), Error>,
    success: bool,
    stderr: Seq<char>,
    written: bool,
)
    requires
        export_outcome(r, success, stderr, written),
    ensures
        r is Ok == (success && written),
        !success && text::lines(stderr).len() > 0 ==> (r matches Err(Error::Record(m)) && m@
            == "export failed: "@ + text::lines(stderr).last()),
{
}

/// A line that tells of an audio stream tells that there is sound; a line that
/// tells nothing changes nothing.
pub proof fn law_audio_lines_tell_of_sound(found: Found, line: Seq<char>)
    requires
        !text::starts_with(text::trim(line), "Duration: "@),
        !text::starts_with(text::trim(line), "Width:"@),
        !text::starts_with(text::trim(line), "Height:"@),
    ensures
        text::contains(text::trim(line), "audio #"@) || text::starts_with(
            text::trim(line),
            "Audio:"@,
        ) ==> found_line(found, line) == (Found { has_audio: true, ..found }),
        !text::contains(text::trim(line), "audio #"@) && !text::starts_with(
            text::trim(line),
            "Audio:"@,
        ) ==> found_line(found, line) == found,
{
}

} // verus!
