//! The command line: what its arguments mean, where output goes, and when a
//! recording ends.
use vstd::prelude::*;
use crate::binary::{tenths_by, tenths_of};
use crate::error::{debug_text, owned, quoted, signed_decimal};
use crate::record::RecordOptions;
use crate::text;

verus! {

// ---- regions ----

/// Why a text is no region.
#[derive(Debug)]
pub enum RegionError {
    /// It does not have four parts; this is the text.
    Shape(String),
    /// This part is no number of an `i32`.
    Position(String),
    /// This part is no number of a `u32`.
    Length(String),
}

/// The text with every `x` replaced by a comma.
pub open spec fn commas(s: Seq<char>) -> Seq<char> {
    s.map_values(
        |c: char|
            if c == 'x' {
                ','
            } else {
                c
            },
    )
}

/// The parts of a region: `X,Y,WxH` or `X,Y,W,H`.
pub open spec fn region_parts(s: Seq<char>) -> Seq<Seq<char>> {
    text::split(commas(s), seq![','])
}

/// The numbers that fit in an `i32`, read as text.
pub open spec fn as_i32(s: Seq<char>) -> Option<i32> {
    match text::parse_signed(text::trim(s)) {
        Some(n) => if i32::MIN <= n <= i32::MAX {
            Some(n as i32)
        } else {
            None
        },
        None => None,
    }
}

/// The numbers that fit in a `u32`, read as text.
pub open spec fn as_u32(s: Seq<char>) -> Option<u32> {
    match text::parse_unsigned(text::trim(s)) {
        Some(n) => if n <= u32::MAX {
            Some(n as u32)
        } else {
            None
        },
        None => None,
    }
}

/// The first of the four parts that is no number, if there is one.
pub open spec fn bad_part(parts: Seq<Seq<char>>) -> Option<int> {
    if as_i32(parts[0]) is None {
        Some(0)
    } else if as_i32(parts[1]) is None {
        Some(1)
    } else if as_u32(parts[2]) is None {
        Some(2)
    } else if as_u32(parts[3]) is None {
        Some(3)
    } else {
        None
    }
}

/// The region that a text stands for.
pub open spec fn region_value(s: Seq<char>) -> Option<(i32, i32, u32, u32)> {
    let parts = region_parts(s);
    if parts.len() != 4 {
        None
    } else {
        match (as_i32(parts[0]), as_i32(parts[1]), as_u32(parts[2]), as_u32(parts[3])) {
            (Some(x), Some(y), Some(w), Some(h)) => Some((x, y, w, h)),
            _ => None,
        }
    }
}

/// Whether reading `s` as a region may return `r`.
pub open spec fn region_result(r: Result<(i32, i32, u32, u32), RegionError>, s: Seq<char>) -> bool {
    let parts = region_parts(s);
    match r {
        Ok(v) => region_value(s) == Some(v),
        Err(RegionError::Shape(m)) => parts.len() != 4 && m@ == s,
        Err(RegionError::Position(m)) => parts.len() == 4 && match bad_part(parts) {
            Some(i) => i < 2 && m@ == text::trim(parts[i]),
            None => false,
        },
        Err(RegionError::Length(m)) => parts.len() == 4 && match bad_part(parts) {
            Some(i) => i >= 2 && m@ == text::trim(parts[i]),
            None => false,
        },
    }
}

fn replace_x(s: &[char]) -> (r: Vec<char>)
    ensures
        r@ == commas(s@),
{
    let mut out: Vec<char> = Vec::new();
    let mut i: usize = 0;
    while i < s.len()
        invariant
            i <= s@.len(),
            out@ == commas(s@.take(i as int)),
        decreases s.len() - i,
    {
        let c = if s[i] == 'x' {
            ','
        } else {
            s[i]
        };
        out.push(c);
        i += 1;
        assert(commas(s@.take(i as int)) =~= commas(s@.take(i - 1)).push(c));
    }
    assert(s@.take(i as int) =~= s@);
    out
}

fn signed_part(s: &[char]) -> (r: Result<i32, RegionError>)
    ensures
        match r {
            Ok(v) => as_i32(s@) == Some(v),
            Err(RegionError::Position(m)) => as_i32(s@) is None && m@ == text::trim(s@),
            Err(_) => false,
        },
{
    let t = text::trimmed(s);
    match text::read_i32(t.as_slice()) {
        Some(v) => Ok(v),
        None => Err(RegionError::Position(text::from_chars(t.as_slice()))),
    }
}

fn unsigned_part(s: &[char]) -> (r: Result<u32, RegionError>)
    ensures
        match r {
            Ok(v) => as_u32(s@) == Some(v),
            Err(RegionError::Length(m)) => as_u32(s@) is None && m@ == text::trim(s@),
            Err(_) => false,
        },
{
    let t = text::trimmed(s);
    match text::read_u32(t.as_slice()) {
        Some(v) => Ok(v),
        None => Err(RegionError::Length(text::from_chars(t.as_slice()))),
    }
}

/// Read a region written `X,Y,WxH` or `X,Y,W,H`.
pub fn parse_region(s: &str) -> (r: Result<(i32, i32, u32, u32), RegionError>)
    ensures
        region_result(r, s@),
{
    let chars = text::to_chars(s);
    let normal = replace_x(chars.as_slice());
    let comma: Vec<char> = vec![','];
    assert(comma@ =~= seq![',']);
    let parts = text::split_chars(normal.as_slice(), comma.as_slice());
    let ghost all = text::views(parts@);
    assert(all.len() == parts@.len());
    if parts.len() != 4 {
        return Err(RegionError::Shape(owned(s)));
    }
    assert(all[0] == parts@[0]@ && all[1] == parts@[1]@ && all[2] == parts@[2]@ && all[3]
        == parts@[3]@);
    let x = match signed_part(parts[0].as_slice()) {
        Ok(v) => v,
        Err(e) => {
            return Err(e);
        },
    };
    let y = match signed_part(parts[1].as_slice()) {
        Ok(v) => v,
        Err(e) => {
            return Err(e);
        },
    };
    let w = match unsigned_part(parts[2].as_slice()) {
        Ok(v) => v,
        Err(e) => {
            return Err(e);
        },
    };
    let h = match unsigned_part(parts[3].as_slice()) {
        Ok(v) => v,
        Err(e) => {
            return Err(e);
        },
    };
    Ok((x, y, w, h))
}

/// The message about a text that does not have four parts.
pub fn shape_message(s: &str) -> (r: String)
    ensures
        r@ == "invalid region "@ + quoted(s@) + "; expected X,Y,W,H"@,
{
    let mut m = owned("invalid region ");
    m.append(debug_text(s).as_str());
    m.append("; expected X,Y,W,H");
    m
}

// ---- what to capture and record ----

/// What to capture.
#[derive(Debug)]
pub enum Target {
    Region(i32, i32, u32, u32),
    Monitor(usize),
    Full,
}

/// What to capture: a region if one is given, else a monitor, else all.
pub fn capture_target(region: Option<&str>, monitor: Option<usize>) -> (r: Result<
    Target,
    RegionError,
>)
    ensures
        target_is(
            r,
            match region {
                Some(s) => Some(s@),
                None => None,
            },
            monitor,
        ),
{
    match region {
        Some(s) => match parse_region(s) {
            Ok((x, y, w, h)) => Ok(Target::Region(x, y, w, h)),
            Err(e) => Err(e),
        },
        None => match monitor {
            Some(i) => Ok(Target::Monitor(i)),
            None => Ok(Target::Full),
        },
    }
}

/// Why the arguments of a recording are refused.
#[derive(Debug)]
pub enum RecordArgError {
    Resolution,
    Region(RegionError),
    Origin,
}

impl RecordArgError {
    /// The message, for those that are not about a region's text.
    pub fn message(&self) -> (r: Option<&'static str>)
        ensures
            match self {
                RecordArgError::Resolution => r is Some && r->0@
                    == "resolution must be 720, 1080 or 1440"@,
                RecordArgError::Origin => r is Some && r->0@
                    == "region origin must be non-negative"@,
                RecordArgError::Region(_) => r is None,
            },
    {
        match self {
            RecordArgError::Resolution => Some("resolution must be 720, 1080 or 1440"),
            RecordArgError::Origin => Some("region origin must be non-negative"),
            RecordArgError::Region(_) => None,
        }
    }
}

pub open spec fn preset_resolution(n: u32) -> bool {
    n == 720 || n == 1080 || n == 1440
}

/// Whether checking the arguments of a recording may return `r`.
pub open spec fn record_args(
    r: Result<Option<(u32, u32, u32, u32)>, RecordArgError>,
    resolution: Option<u32>,
    region: Option<Seq<char>>,
) -> bool {
    if resolution is Some && !preset_resolution(resolution->0) {
        r is Err && r->Err_0 is Resolution
    } else {
        match region {
            None => r == Ok::<Option<(u32, u32, u32, u32)>, RecordArgError>(None),
            Some(s) => match r {
                Ok(Some((x, y, w, h))) => x <= i32::MAX && y <= i32::MAX && region_result(
                    Ok((x as i32, y as i32, w, h)),
                    s,
                ),
                Ok(None) => false,
                Err(RecordArgError::Region(e)) => region_result(Err(e), s),
                Err(RecordArgError::Origin) => match region_value(s) {
                    Some((x, y, _, _)) => x < 0 || y < 0,
                    None => false,
                },
                Err(RecordArgError::Resolution) => false,
            },
        }
    }
}

/// Check the arguments of a recording, and read its region.
pub fn check_record(resolution: Option<u32>, region: Option<&str>) -> (r: Result<
    Option<(u32, u32, u32, u32)>,
    RecordArgError,
>)
    ensures
        record_args(
            r,
            resolution,
            match region {
                Some(s) => Some(s@),
                None => None,
            },
        ),
{
    if let Some(n) = resolution {
        if !(n == 720 || n == 1080 || n == 1440) {
            return Err(RecordArgError::Resolution);
        }
    }
    match region {
        None => Ok(None),
        Some(s) => match parse_region(s) {
            Err(e) => Err(RecordArgError::Region(e)),
            Ok((x, y, w, h)) => {
                if x < 0 || y < 0 {
                    return Err(RecordArgError::Origin);
                }
                Ok(Some((x as u32, y as u32, w, h)))
            },
        },
    }
}

/// The options of a recording from the command line, which takes no system
/// audio.
pub fn record_options(
    output: Option<String>,
    resolution: Option<u32>,
    crop: Option<(u32, u32, u32, u32)>,
    mic: Option<String>,
) -> (r: RecordOptions)
    ensures
        r == (RecordOptions { output, height: resolution, crop, mic, system_audio: false }),
{
    RecordOptions { output, height: resolution, crop, mic, system_audio: false }
}

/// What to do while a recording runs.
#[derive(Clone, Copy, PartialEq, Eq, Structural, Debug)]
pub enum RecordStep {
    Stop,
    /// The encoder ended by itself.
    Lost,
    Wait,
}

/// Stop when asked to or when the time is up; an encoder that ended before
/// that is a failure.
pub fn record_step(stop_requested: bool, elapsed: i64, limit: Option<i64>, running: bool) -> (r:
    RecordStep)
    ensures
        r == step_of(stop_requested, elapsed, limit, running),
{
    if stop_requested {
        return RecordStep::Stop;
    }
    if let Some(l) = limit {
        if elapsed >= l {
            return RecordStep::Stop;
        }
    }
    if !running {
        RecordStep::Lost
    } else {
        RecordStep::Wait
    }
}

/// What to do while recording.
pub open spec fn step_of(
    stop_requested: bool,
    elapsed: i64,
    limit: Option<i64>,
    running: bool,
) -> RecordStep {
    if stop_requested || (limit is Some && elapsed >= limit->0) {
        RecordStep::Stop
    } else if !running {
        RecordStep::Lost
    } else {
        RecordStep::Wait
    }
}

/// A recording goes on until it is asked to stop or has lasted as long as it
/// may, and is lost only if its encoder ends before that.
pub proof fn law_recording_ends_in_time(elapsed: i64, later: i64, limit: i64)
    requires
        elapsed < limit <= later,
    ensures
        step_of(false, elapsed, Some(limit), true) == RecordStep::Wait,
        step_of(false, later, Some(limit), true) == RecordStep::Stop,
        step_of(false, later, Some(limit), false) == RecordStep::Stop,
        step_of(false, later, None, true) == RecordStep::Wait,
        step_of(true, elapsed, Some(limit), false) == RecordStep::Stop,
        step_of(true, elapsed, None, true) == RecordStep::Stop,
        step_of(false, elapsed, Some(limit), false) == RecordStep::Lost,
        step_of(false, elapsed, None, false) == RecordStep::Lost,
{
}

/// A duration in tenths of a second, rounded to the nearest.
pub fn tenths(elapsed: i64) -> (r: i64)
    requires
        0 <= elapsed,
    ensures
        r == tenths_of(elapsed as int),
{
    tenths_by(elapsed)
}

// ---- input and output ----

/// Where a picture goes.
#[derive(Debug)]
pub enum Dest {
    File(String),
    Stdout,
    /// A new file with a default name.
    Default,
}

/// Where a picture goes: `-` is the standard output.
pub fn resolve_output(output: Option<String>) -> (r: Dest)
    ensures
        match output {
            Some(p) => if p@ == "-"@ {
                r == Dest::Stdout
            } else {
                r == Dest::File(p)
            },
            None => r == Dest::Default,
        },
{
    match output {
        Some(p) => if text::same_text(p.as_str(), "-") {
            Dest::Stdout
        } else {
            Dest::File(p)
        },
        None => Dest::Default,
    }
}

impl Dest {
    /// Whether the metadata goes to the error output, because the picture
    /// takes the standard output.
    pub fn metadata_to_stderr(&self) -> (r: bool)
        ensures
            r == (self is Stdout),
    {
        match self {
            Dest::Stdout => true,
            _ => false,
        }
    }
}

/// The parts of a path that say where it leads. Empty ones and `.` do not.
pub open spec fn path_parts(parts: Seq<Seq<char>>) -> Seq<Seq<char>>
    decreases parts.len(),
{
    if parts.len() == 0 {
        Seq::empty()
    } else {
        let rest = path_parts(parts.drop_last());
        if parts.last().len() == 0 || parts.last() == seq!['.'] {
            rest
        } else {
            rest.push(parts.last())
        }
    }
}

/// Whether two paths name the same place as they are written. What links lead
/// to is not known of a text.
pub open spec fn same_place(a: Seq<char>, b: Seq<char>) -> bool {
    &&& (a.len() > 0 && a[0] == '/') == (b.len() > 0 && b[0] == '/')
    &&& path_parts(text::split(a, seq!['/'])) == path_parts(text::split(b, seq!['/']))
}

fn read_path(path: &str) -> (r: (bool, Vec<Vec<char>>))
    ensures
        r.0 == (path@.len() > 0 && path@[0] == '/'),
        text::views(r.1@) == path_parts(text::split(path@, seq!['/'])),
{
    let chars = text::to_chars(path);
    let slash: Vec<char> = vec!['/'];
    assert(slash@ =~= seq!['/']);
    let parts = text::split_chars(chars.as_slice(), slash.as_slice());
    let ghost all = text::views(parts@);
    let mut out: Vec<Vec<char>> = Vec::new();
    let mut i: usize = 0;
    assert(text::views(out@) =~= path_parts(all.take(0)));
    while i < parts.len()
        invariant
            all == text::views(parts@),
            i <= parts@.len(),
            text::views(out@) == path_parts(all.take(i as int)),
        decreases parts.len() - i,
    {
        let ghost before = text::views(out@);
        let part = &parts[i];
        assert(all.take(i + 1).drop_last() =~= all.take(i as int));
        assert(all.take(i + 1).last() == part@);
        let dot: bool = part.len() == 1 && part[0] == '.';
        assert(dot == (part@ =~= seq!['.']));
        if part.len() > 0 && !dot {
            let copy = text::copy_range(part.as_slice(), 0, part.len());
            assert(copy@ =~= part@);
            out.push(copy);
            assert(text::views(out@) =~= before.push(part@));
        }
        i += 1;
    }
    assert(all.take(i as int) =~= all);
    (chars.len() > 0 && chars[0] == '/', out)
}

/// Whether two paths name the same place as they are written.
pub fn is_same_place(a: &str, b: &str) -> (r: bool)
    ensures
        r == same_place(a@, b@),
{
    let (x, p) = read_path(a);
    let (y, q) = read_path(b);
    assert(text::views(p@).len() == p@.len() && text::views(q@).len() == q@.len());
    if x != y || p.len() != q.len() {
        return false;
    }
    let mut i: usize = 0;
    while i < p.len()
        invariant
            i <= p@.len(),
            p@.len() == q@.len(),
            text::views(p@) == path_parts(text::split(a@, seq!['/'])),
            text::views(q@) == path_parts(text::split(b@, seq!['/'])),
            forall|k: int| 0 <= k < i ==> #[trigger] text::views(p@)[k] == text::views(q@)[k],
        decreases p.len() - i,
    {
        assert(text::views(p@)[i as int] == p@[i as int]@);
        assert(text::views(q@)[i as int] == q@[i as int]@);
        if !text::same_chars(p[i].as_slice(), q[i].as_slice()) {
            return false;
        }
        i += 1;
    }
    assert(text::views(p@) =~= text::views(q@));
    true
}

/// Whether an output, or the spec that is kept beside it, would take the place
/// of the input. `linked` tells that one of them leads to it some other way.
pub open spec fn overwrites(output: Seq<char>, input: Seq<char>, linked: bool, keep_spec: bool) -> bool {
    linked || same_place(output, input) || (keep_spec && same_place(
        output + ".shot.json"@,
        input,
    ))
}

/// Where an annotated picture goes, as `resolve_output` says, but never to the
/// place of the input: such an output is refused. `linked` tells that the
/// output, the default one without any, or the spec kept beside it leads to
/// the input some other way than by its name.
pub fn annotate_output(output: Option<String>, input: &str, linked: bool, keep_spec: bool) -> (r:
    Result<Dest, String>)
    ensures
        output_is(r, output, input@, linked, keep_spec),
{
    match &output {
        Some(p) => {
            if !text::same_text(p.as_str(), "-") {
                let beside = sidecar_path(p.as_str());
                if linked || is_same_place(p.as_str(), input) || (keep_spec && is_same_place(
                    beside.as_str(),
                    input,
                )) {
                    let mut m = owned("the input is never modified: ");
                    m.append(p.as_str());
                    return Err(m);
                }
            }
        },
        None => {
            if linked {
                let mut m = owned("the input is never modified: ");
                m.append(input);
                return Err(m);
            }
        },
    }
    Ok(resolve_output(output))
}

/// Where a spec comes from.
#[derive(Debug)]
pub enum SpecSource {
    Stdin,
    File(String),
    Inline(String),
}

/// Where a spec comes from: `-` is the standard input, `@` names a file, and
/// anything else is the spec.
pub fn read_spec_arg(arg: &str) -> (r: SpecSource)
    ensures
        source_is(r, arg@),
{
    if text::same_text(arg, "-") {
        return SpecSource::Stdin;
    }
    let chars = text::to_chars(arg);
    if chars.len() > 0 && chars[0] == '@' {
        let path = text::copy_range(chars.as_slice(), 1, chars.len());
        assert(path@ =~= arg@.skip(1));
        return SpecSource::File(text::from_chars(path.as_slice()));
    }
    SpecSource::Inline(owned(arg))
}

/// A name between two fixed parts.
fn framed(head: &str, middle: &str, tail: &str) -> (r: String)
    ensures
        r@ == head@ + middle@ + tail@,
{
    let mut s = owned(head);
    s.append(middle);
    s.append(tail);
    s
}

/// The file name of the annotated copy of a picture with the given stem.
pub fn default_annotated_path(stem: &str) -> (r: String)
    ensures
        r@ == stem@ + "-annotated.png"@,
{
    let mut s = owned(stem);
    s.append("-annotated.png");
    s
}

/// The file next to a picture that keeps its spec.
pub fn sidecar_path(path: &str) -> (r: String)
    ensures
        r@ == path@ + ".shot.json"@,
{
    let mut s = owned(path);
    s.append(".shot.json");
    s
}

/// The file name of a capture made at `stamp` (`YYYYMMDD-HHMMSS`).
pub fn capture_file_name(stamp: &str) -> (r: String)
    ensures
        r@ == "shot-"@ + stamp@ + ".png"@,
{
    framed("shot-", stamp, ".png")
}

/// The file name of a recording made at `stamp`.
pub fn record_file_name(stamp: &str) -> (r: String)
    ensures
        r@ == "rec-"@ + stamp@ + ".mp4"@,
{
    framed("rec-", stamp, ".mp4")
}

pub open spec fn part_views(parts: Seq<String>) -> Seq<Seq<char>> {
    parts.map_values(|s: String| s@)
}

/// The parts of the path of a default directory: `sub` in the user's own
/// directory for such files, else in `kind` in the home directory, else in
/// `kind` in the current one.
pub fn default_dir(special: Option<String>, home: Option<String>, kind: &str, sub: &str) -> (r: Vec<
    String,
>)
    ensures
        part_views(r@) == (match special {
            Some(d) => seq![d@, sub@],
            None => match home {
                Some(h) => seq![h@, kind@, sub@],
                None => seq!["."@, kind@, sub@],
            },
        }),
{
    let mut parts: Vec<String> = Vec::new();
    match special {
        Some(d) => {
            parts.push(d);
        },
        None => {
            match home {
                Some(h) => {
                    parts.push(h);
                },
                None => {
                    parts.push(owned("."));
                },
            }
            parts.push(owned(kind));
        },
    }
    parts.push(owned(sub));
    assert(part_views(parts@) =~= (match special {
        Some(d) => seq![d@, sub@],
        None => match home {
            Some(h) => seq![h@, kind@, sub@],
            None => seq!["."@, kind@, sub@],
        },
    }));
    parts
}

/// An `x` stands for a comma: both ways to write a region are read alike.
pub proof fn law_region_forms_agree(s: Seq<char>)
    ensures
        region_parts(commas(s)) == region_parts(s),
        region_value(commas(s)) == region_value(s),
{
    assert(commas(commas(s)) =~= commas(s));
}

/// A region that is written down reads back as itself.
pub proof fn law_written_region_reads_back(x: i32, y: i32, w: u32, h: u32)
    ensures
        region_value(
            signed_decimal(x as int) + seq![','] + signed_decimal(y as int) + seq![',']
                + signed_decimal(w as int) + seq![','] + signed_decimal(h as int),
        ) == Some((x, y, w, h)),
{
    let (a, b, c, d) = (
        signed_decimal(x as int),
        signed_decimal(y as int),
        signed_decimal(w as int),
        signed_decimal(h as int),
    );
    lemma_number(x as int);
    lemma_number(y as int);
    lemma_number(w as int);
    lemma_number(h as int);
    let comma = seq![','];
    let last3 = b + comma + (c + comma + d);
    let s = a + comma + b + comma + c + comma + d;
    assert(s =~= a + comma + last3);
    assert forall|i: int| 0 <= i < s.len() implies commas(s)[i] == s[i] by {
        if i < a.len() {
            assert(s[i] == a[i]);
        } else if i == a.len() {
        } else if i < a.len() + 1 + b.len() {
            assert(s[i] == b[i - a.len() - 1]);
        } else if i == a.len() + 1 + b.len() {
        } else if i < a.len() + 2 + b.len() + c.len() {
            assert(s[i] == c[i - a.len() - b.len() - 2]);
        } else if i == a.len() + 2 + b.len() + c.len() {
        } else {
            assert(s[i] == d[i - a.len() - b.len() - c.len() - 3]);
        }
    }
    assert(commas(s) =~= s);
    lemma_first_part(a, last3);
    lemma_first_part(b, c + comma + d);
    lemma_first_part(c, d);
    lemma_only_part(d);
    assert(text::split(s, comma) =~= seq![a, b, c, d]);
}

/// A written number is read back, trimmed or not, and holds no comma.
proof fn lemma_number(n: int)
    ensures
        text::parse_signed(text::trim(signed_decimal(n))) == Some(n),
        n >= 0 ==> text::parse_unsigned(text::trim(signed_decimal(n))) == Some(n as nat),
        forall|i: int|
            0 <= i < signed_decimal(n).len() ==> text::is_number_char(
                #[trigger] signed_decimal(n)[i],
            ),
{
    let m = if n < 0 {
        (-n) as nat
    } else {
        n as nat
    };
    let s = signed_decimal(n);
    text::lemma_decimal(m);
    assert(text::all_digits(text::decimal(m)));
    assert forall|i: int| 0 <= i < s.len() implies text::is_number_char(#[trigger] s[i]) by {
        if n < 0 {
            assert(i > 0 ==> s[i] == text::decimal(m)[i - 1]);
        }
    }
    assert(!text::is_white(s[0]) && !text::is_white(s.last()));
    text::lemma_trim_is(s);
    if n < 0 {
        assert(s.skip(1) =~= text::decimal(m));
    } else {
        assert(text::is_digit(s[0]));
    }
}

proof fn lemma_first_part(a: Seq<char>, rest: Seq<char>)
    requires
        forall|i: int| 0 <= i < a.len() ==> text::is_number_char(#[trigger] a[i]),
    ensures
        text::split(a + seq![','] + rest, seq![',']) == seq![a] + text::split(rest, seq![',']),
{
    let s = a + seq![','] + rest;
    assert forall|j: int| 0 <= j < a.len() implies !text::matches_at(s, seq![','], j) by {
        assert(s[j] == a[j]);
        if text::matches_at(s, seq![','], j) {
            text::lemma_match_char(s, seq![','], j, 0);
        }
    }
    text::lemma_split_next(a, seq![','], rest);
}

proof fn lemma_only_part(a: Seq<char>)
    requires
        forall|i: int| 0 <= i < a.len() ==> text::is_number_char(#[trigger] a[i]),
    ensures
        text::split(a, seq![',']) == seq![a],
{
    assert forall|j: int| 0 <= j implies !text::matches_at(a, seq![','], j) by {
        if text::matches_at(a, seq![','], j) {
            text::lemma_match_char(a, seq![','], j, 0);
            assert(text::is_number_char(a[j]));
        }
    }
    text::lemma_split_none(a, seq![',']);
}

/// The annotated copy never takes the name of the picture, whatever its
/// extension, and neither does the spec that is kept beside the copy: the input
/// is not overwritten.
pub proof fn law_annotated_copy_is_another_file(stem: Seq<char>, extension: Seq<char>)
    ensures
        stem + "-annotated.png"@ != stem,
        stem + "-annotated.png"@ != stem + seq!['.'] + extension,
        stem + "-annotated.png"@ + ".shot.json"@ != stem,
        stem + "-annotated.png"@ + ".shot.json"@ != stem + seq!['.'] + extension,
{
    reveal_strlit("-annotated.png");
    reveal_strlit(".shot.json");
    let copy = stem + "-annotated.png"@;
    let beside = copy + ".shot.json"@;
    assert("-annotated.png"@.len() == 14);
    assert(copy[stem.len() as int] == '-');
    assert(beside[stem.len() as int] == '-');
    assert(copy.len() == stem.len() + 14);
    assert(beside.len() > stem.len());
    assert((stem + seq!['.'] + extension)[stem.len() as int] == '.');
}

/// A path names its own place, also with `./` before it, and which of two
/// paths comes first makes no difference.
pub proof fn law_same_place(a: Seq<char>, b: Seq<char>)
    ensures
        same_place(a, a),
        same_place(a, b) == same_place(b, a),
        a.len() > 0 && a[0] != '/' ==> same_place(seq!['.', '/'] + a, a),
{
    if a.len() > 0 && a[0] != '/' {
        let slash = seq!['/'];
        let dot = seq!['.'];
        let more = dot + slash + a;
        assert(more =~= seq!['.', '/'] + a);
        assert forall|j: int| 0 <= j < dot.len() implies !text::matches_at(more, slash, j) by {
            if text::matches_at(more, slash, j) {
                text::lemma_match_char(more, slash, j, 0);
            }
        }
        text::lemma_split_next(dot, slash, a);
        lemma_path_dot(text::split(a, slash));
    }
}

proof fn lemma_path_dot(parts: Seq<Seq<char>>)
    ensures
        path_parts(seq![seq!['.']] + parts) == path_parts(parts),
    decreases parts.len(),
{
    let all = seq![seq!['.']] + parts;
    if parts.len() > 0 {
        assert(all.drop_last() =~= seq![seq!['.']] + parts.drop_last());
        assert(all.last() == parts.last());
        lemma_path_dot(parts.drop_last());
    } else {
        assert(all.drop_last() =~= Seq::empty());
        assert(all.last() == seq!['.']);
        assert(path_parts(all.drop_last()) =~= Seq::empty());
    }
}

/// A recording may be 720, 1080 or 1440 high, or as it is. Its region begins
/// inside of the screen.
pub proof fn law_record_arguments(
    r: Result<Option<(u32, u32, u32, u32)>, RecordArgError>,
    resolution: Option<u32>,
    region: Option<Seq<char>>,
    v: (i32, i32, u32, u32),
)
    requires
        record_args(r, resolution, region),
        region matches Some(s) ==> region_value(s) == Some(v),
    ensures
        (r is Err && r->Err_0 is Resolution) == (resolution matches Some(n) && n != 720 && n != 1080
            && n != 1440),
        r is Ok ==> (r->Ok_0 is Some) == (region is Some),
        r matches Ok(Some(c)) ==> c.0 == v.0 && c.1 == v.1 && c.2 == v.2 && c.3 == v.3 && v.0 >= 0
            && v.1 >= 0,
        region is Some && (v.0 < 0 || v.1 < 0) ==> r is Err,
        (resolution is None || resolution->0 == 720 || resolution->0 == 1080 || resolution->0 == 1440)
            && (region is Some ==> v.0 >= 0 && v.1 >= 0) ==> r is Ok,
{
    if let Some(s) = region {
        let parts = region_parts(s);
        assert(bad_part(parts) is None);
    }
}

/// Two plain names are the same place only if they are the same name, and a
/// path that begins at the root never is one that does not.
pub proof fn law_other_names_are_other_places(a: Seq<char>, b: Seq<char>)
    requires
        a.len() > 0,
        b.len() > 0,
        !text::contains(a, seq!['/']),
        !text::contains(b, seq!['/']),
        a != seq!['.'],
        b != seq!['.'],
    ensures
        same_place(a, b) == (a == b),
        !same_place(seq!['/'] + a, b),
{
    lemma_plain_name(a);
    lemma_plain_name(b);
    assert(path_parts(seq![a])[0] == a);
    assert(path_parts(seq![b])[0] == b);
    if b[0] == '/' {
        assert(b.subrange(0, 1) =~= seq!['/']);
        text::lemma_find_from(b, seq!['/'], 0);
        assert(text::matches_at(b, seq!['/'], 0));
    }
}

proof fn lemma_plain_name(a: Seq<char>)
    requires
        a.len() > 0,
        !text::contains(a, seq!['/']),
        a != seq!['.'],
    ensures
        text::split(a, seq!['/']) == seq![a],
        path_parts(seq![a]) == seq![a],
        a[0] != '/',
{
    text::lemma_find_from(a, seq!['/'], 0);
    assert forall|j: int| 0 <= j implies !text::matches_at(a, seq!['/'], j) by {}
    text::lemma_split_none(a, seq!['/']);
    assert(seq![a].drop_last() =~= Seq::empty());
    assert(path_parts(seq![a].drop_last()) =~= Seq::empty());
    assert(path_parts(seq![a]) =~= seq![a]);
    if a[0] == '/' {
        assert(a.subrange(0, 1) =~= seq!['/']);
        assert(text::matches_at(a, seq!['/'], 0));
    }
}

/// The input is never written over: an output that is linked to it, that is the
/// same place, or whose spec would be, is refused, and no other.
pub proof fn law_input_is_never_written_over(
    output: Seq<char>,
    input: Seq<char>,
    linked: bool,
    keep_spec: bool,
)
    ensures
        linked ==> overwrites(output, input, linked, keep_spec),
        overwrites(input, input, linked, keep_spec),
        keep_spec ==> overwrites(output, output + ".shot.json"@, linked, keep_spec),
        overwrites(output, input, false, keep_spec) ==> same_place(output, input) || keep_spec
            && same_place(output + ".shot.json"@, input),
{
    law_same_place(input, input);
    law_same_place(output + ".shot.json"@, output + ".shot.json"@);
}

/// Whether asking for a region or a monitor may give `r`.
pub open spec fn target_is(
    r: Result<Target, RegionError>,
    region: Option<Seq<char>>,
    monitor: Option<usize>,
) -> bool {
    match region {
        Some(s) => match r {
            Ok(Target::Region(x, y, w, h)) => region_result(Ok((x, y, w, h)), s),
            Ok(_) => false,
            Err(e) => region_result(Err(e), s),
        },
        None => match monitor {
            Some(i) => r == Ok::<Target, RegionError>(Target::Monitor(i)),
            None => r == Ok::<Target, RegionError>(Target::Full),
        },
    }
}

/// A region is captured if one is given, else a monitor if one is, else
/// everything. What is no region is refused.
pub proof fn law_region_comes_before_monitor(
    r: Result<Target, RegionError>,
    region: Option<Seq<char>>,
    monitor: Option<usize>,
)
    requires
        target_is(r, region, monitor),
    ensures
        region matches Some(s) ==> {
            &&& region_value(s) matches Some(v) ==> (r matches Ok(Target::Region(x, y, w, h)) && x
                == v.0 && y == v.1 && w == v.2 && h == v.3)
            &&& region_value(s) is None ==> r is Err
        },
        region is None ==> (monitor matches Some(i) ==> (r matches Ok(Target::Monitor(j)) && i == j)),
        region is None && monitor is None ==> (r matches Ok(Target::Full)),
{
    if let Some(s) = region {
        let parts = region_parts(s);
        if r is Err {
            match r->Err_0 {
                RegionError::Shape(_) => {},
                _ => {
                    assert(bad_part(parts) is Some);
                },
            }
        }
    }
}

/// Whether annotating `input` may write to `r`.
pub open spec fn output_is(
    r: Result<Dest, String>,
    output: Option<String>,
    input: Seq<char>,
    linked: bool,
    keep_spec: bool,
) -> bool {
    match output {
        None => if linked {
            r is Err && r->Err_0@ == "the input is never modified: "@ + input
        } else {
            r == Ok::<Dest, String>(Dest::Default)
        },
        Some(p) => if p@ == "-"@ {
            r == Ok::<Dest, String>(Dest::Stdout)
        } else if overwrites(p@, input, linked, keep_spec) {
            r is Err && r->Err_0@ == "the input is never modified: "@ + p@
        } else {
            r == Ok::<Dest, String>(Dest::File(p))
        },
    }
}

/// Annotating never writes to its input: a file that is written is not linked
/// to it and is another place, and so is the spec beside it. A file that is
/// none of these is written.
pub proof fn law_annotating_keeps_its_input(
    r: Result<Dest, String>,
    output: Option<String>,
    input: Seq<char>,
    linked: bool,
    keep_spec: bool,
)
    requires
        output_is(r, output, input, linked, keep_spec),
    ensures
        r matches Ok(Dest::File(p)) ==> !linked && !same_place(p@, input) && (keep_spec
            ==> !same_place(p@ + ".shot.json"@, input)) && output == Some(p),
        r matches Ok(Dest::Default) ==> !linked && output is None,
        r matches Ok(Dest::Stdout) ==> (output matches Some(p) && p@ == "-"@),
        output matches Some(p) ==> (p@ != "-"@ && !linked && !same_place(p@, input) && !same_place(
            p@ + ".shot.json"@,
            input,
        ) ==> r is Ok),
        output matches Some(p) ==> (p@ == "-"@ ==> r is Ok),
        output is None && !linked ==> r is Ok,
{
}

/// Where the spec that an argument names is read from.
pub open spec fn source_is(r: SpecSource, arg: Seq<char>) -> bool {
    match r {
        SpecSource::Stdin => arg == "-"@,
        SpecSource::File(p) => arg != "-"@ && arg.len() > 0 && arg[0] == '@' && p@ == arg.skip(1),
        SpecSource::Inline(s) => arg != "-"@ && (arg.len() == 0 || arg[0] != '@') && s@ == arg,
    }
}

/// `-` reads the spec from the standard input, `@` and a path from that file,
/// and anything else is the spec itself.
pub proof fn law_spec_arguments(r: SpecSource, arg: Seq<char>, path: Seq<char>)
    requires
        source_is(r, arg),
    ensures
        arg == seq!['-'] ==> r is Stdin,
        arg == seq!['@'] + path ==> (r matches SpecSource::File(p) && p@ == path),
        arg.len() > 0 && arg[0] != '@' && arg != seq!['-'] ==> (r matches SpecSource::Inline(s) && s@
            == arg),
{
    reveal_strlit("-");
    assert("-"@ =~= seq!['-']);
    assert((seq!['@'] + path).skip(1) =~= path);
    if arg == seq!['@'] + path {
        assert(arg[0] == '@');
    }
}

} // verus!
