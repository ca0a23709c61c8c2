//! Screen recording: the size of the output, the encoder pipeline, the state
//! of a running recording, and what to do as its processes come and go.
use vstd::prelude::*;
use crate::binary::{
    law_scaled_by_whole, law_scaled_is_close, lemma_scaled_down, scale_by, scaled_by, DOUBLE,
};
use crate::error::{owned, signed_decimal, append_number, Error};
use crate::json;
use crate::text;

verus! {

/// What to record.
#[derive(Debug)]
pub struct RecordOptions {
    /// The file to write; a new one in the user's videos if there is none.
    pub output: Option<String>,
    /// Target output height (720, 1080 or 1440), or the native one. A
    /// recording is never scaled up.
    pub height: Option<u32>,
    /// The region `(x, y, w, h)` of the stream, cropped before scaling.
    pub crop: Option<(u32, u32, u32, u32)>,
    /// No microphone, the default one (`default`), or that of the given name.
    pub mic: Option<String>,
    /// Whether to record what the machine plays as well.
    pub system_audio: bool,
}

impl Default for RecordOptions {
    fn default() -> (r: RecordOptions)
        ensures
            r.output is None,
            r.height is None,
            r.crop is None,
            r.mic is None,
            !r.system_audio,
    {
        RecordOptions { output: None, height: None, crop: None, mic: None, system_audio: false }
    }
}

impl RecordOptions {
    /// Whether any sound was asked for.
    pub open spec fn wants_audio(self) -> bool {
        self.mic is Some || self.system_audio
    }

    pub fn has_audio(&self) -> (r: bool)
        ensures
            r == self.wants_audio(),
    {
        self.mic.is_some() || self.system_audio
    }
}

// ---- output size ----

/// The number of preset resolutions.
pub const RESOLUTION_COUNT: usize = 3;

/// The height of a preset resolution.
pub open spec fn preset_height(i: int) -> int {
    if i == 0 {
        720
    } else if i == 1 {
        1080
    } else {
        1440
    }
}

/// Its bitrate, in kbit/s, tuned for screen content.
pub open spec fn preset_kbps(i: int) -> int {
    if i == 0 {
        6_000
    } else if i == 1 {
        10_000
    } else {
        16_000
    }
}

pub open spec fn preset_label(i: int) -> Seq<char> {
    if i == 0 {
        "720p"@
    } else if i == 1 {
        "1080p"@
    } else {
        "1440p"@
    }
}

/// A preset resolution: its label, its height and its bitrate.
pub fn resolution(i: usize) -> (r: (&'static str, u32, u32))
    requires
        i < RESOLUTION_COUNT,
    ensures
        r.0@ == preset_label(i as int),
        r.1 == preset_height(i as int),
        r.2 == preset_kbps(i as int),
{
    if i == 0 {
        ("720p", 720, 6_000)
    } else if i == 1 {
        ("1080p", 1080, 10_000)
    } else {
        ("1440p", 1440, 16_000)
    }
}

/// The bitrate of the first preset that is at least that high, or of the
/// last one.
pub open spec fn kbps_for(height: int) -> int {
    if height <= preset_height(0) {
        preset_kbps(0)
    } else if height <= preset_height(1) {
        preset_kbps(1)
    } else {
        preset_kbps(2)
    }
}

pub fn bitrate_for(height: u32) -> (r: u32)
    ensures
        r == kbps_for(height as int),
{
    let mut i: usize = 0;
    while i < RESOLUTION_COUNT
        invariant
            i <= RESOLUTION_COUNT,
            forall|k: int| 0 <= k < i ==> #[trigger] preset_height(k) < height,
        decreases RESOLUTION_COUNT - i,
    {
        let p = resolution(i);
        if p.1 >= height {
            assert(i > 0 ==> preset_height(0) < height);
            assert(i > 1 ==> preset_height(1) < height);
            return p.2;
        }
        i += 1;
    }
    assert(preset_height(0) < height && preset_height(1) < height);
    16_000
}

/// The even number at or below `v`, at least 2.
pub open spec fn even_of(v: int) -> int {
    if v < 2 {
        2
    } else {
        v - v % 2
    }
}

pub fn even(v: u32) -> (r: u32)
    ensures
        r == even_of(v as int),
{
    if v < 2 {
        2
    } else {
        v - v % 2
    }
}

pub open spec fn at_most(a: int, b: int) -> int {
    if a < b {
        a
    } else {
        b
    }
}

/// The size of the recorded part of the stream.
pub open spec fn base_size(width: int, height: int, crop: Option<(u32, u32, u32, u32)>) -> (int, int) {
    match crop {
        Some((_, _, w, h)) => (at_most(w as int, width), at_most(h as int, height)),
        None => (width, height),
    }
}

/// The size of the output: the recorded part, scaled down to the wanted
/// height, both sides even.
pub open spec fn output_dims(
    width: int,
    height: int,
    crop: Option<(u32, u32, u32, u32)>,
    want: Option<u32>,
) -> (int, int) {
    let (bw, bh) = base_size(width, height, crop);
    let th = match want {
        Some(h) => at_most(h as int, bh),
        None => bh,
    };
    if bh == 0 {
        (2, 2)
    } else {
        (even_of(scaled_by(bw, th, bh, 1, DOUBLE as int)), even_of(th))
    }
}

/// The output size and bitrate of a recording of a stream of that size.
pub fn plan_output(
    width: u32,
    height: u32,
    crop: Option<(u32, u32, u32, u32)>,
    want: Option<u32>,
) -> (r: (u32, u32, u32))
    ensures
        (r.0 as int, r.1 as int) == output_dims(width as int, height as int, crop, want),
        r.2 == kbps_for(r.1 as int),
{
    let (bw, bh) = match crop {
        Some((_, _, w, h)) => (
            if w < width {
                w
            } else {
                width
            },
            if h < height {
                h
            } else {
                height
            },
        ),
        None => (width, height),
    };
    if bh == 0 {
        return (2, 2, bitrate_for(2));
    }
    let th: u32 = match want {
        Some(h) => if h < bh {
            h
        } else {
            bh
        },
        None => bh,
    };
    proof {
        lemma_scaled_down(bw as int, th as int, bh as int, DOUBLE as int);
    }
    let w: u128 = scale_by(bw as u64, th as u64, bh as u64, 1, DOUBLE);
    let out_w: u32 = even(w as u32);
    let out_h: u32 = even(th);
    (out_w, out_h, bitrate_for(out_h))
}

/// A recording is never scaled up, and both of its sides are even.
pub proof fn law_output_is_even_and_no_larger(
    width: int,
    height: int,
    crop: Option<(u32, u32, u32, u32)>,
    want: Option<u32>,
)
    requires
        2 <= width <= u32::MAX,
        2 <= height <= u32::MAX,
        crop matches Some((_, _, w, h)) ==> w >= 2 && h >= 2,
    ensures
        output_dims(width, height, crop, want).0 % 2 == 0,
        output_dims(width, height, crop, want).1 % 2 == 0,
        output_dims(width, height, crop, want).0 <= base_size(width, height, crop).0,
        output_dims(width, height, crop, want).1 <= base_size(width, height, crop).1,
{
    let (bw, bh) = base_size(width, height, crop);
    let th = match want {
        Some(h) => at_most(h as int, bh),
        None => bh,
    };
    lemma_scaled_down(bw, th, bh, DOUBLE as int);
}

/// The size of a stream whose reported size may be missing or empty.
pub open spec fn sane_size(size: Option<(i32, i32)>) -> (int, int) {
    match size {
        Some((w, h)) => (
            if w < 1 {
                1
            } else {
                w as int
            },
            if h < 1 {
                1
            } else {
                h as int
            },
        ),
        None => (1920, 1080),
    }
}

pub fn stream_size(size: Option<(i32, i32)>) -> (r: (u32, u32))
    ensures
        (r.0 as int, r.1 as int) == sane_size(size),
{
    match size {
        Some((w, h)) => (
            if w < 1 {
                1
            } else {
                w as u32
            },
            if h < 1 {
                1
            } else {
                h as u32
            },
        ),
        None => (1920, 1080),
    }
}

/// A stream is as large as it is reported to be, at least a pixel, and full HD
/// where nothing is reported.
pub proof fn law_reported_sizes_are_used(w: i32, h: i32)
    ensures
        w >= 1 ==> sane_size(Some((w, h))).0 == w,
        h >= 1 ==> sane_size(Some((w, h))).1 == h,
        w < 1 ==> sane_size(Some((w, h))).0 == 1,
        h < 1 ==> sane_size(Some((w, h))).1 == 1,
        sane_size(None) == (1920int, 1080int),
{
}

// ---- the pipeline ----

#[derive(Clone, Copy, PartialEq, Eq, Structural, Debug)]
pub enum Encoder {
    Gpu,
    Cpu,
}

impl Encoder {
    pub open spec fn element(self) -> Seq<char> {
        match self {
            Encoder::Gpu => "vah264enc"@,
            Encoder::Cpu => "x264enc"@,
        }
    }

    /// The name of the encoder element.
    pub fn name(&self) -> (r: &'static str)
        ensures
            r@ == self.element(),
    {
        match self {
            Encoder::Gpu => "vah264enc",
            Encoder::Cpu => "x264enc",
        }
    }

    /// The encoder to try first.
    pub fn preferred(gpu: bool) -> (r: Encoder)
        ensures
            r == (if gpu {
                Encoder::Gpu
            } else {
                Encoder::Cpu
            }),
    {
        if gpu {
            Encoder::Gpu
        } else {
            Encoder::Cpu
        }
    }
}

/// What a pipeline is made from.
#[derive(Debug)]
pub struct Pipeline {
    pub node_id: u32,
    pub width: u32,
    pub height: u32,
    pub out_w: u32,
    pub out_h: u32,
    pub bitrate_kbps: u32,
    pub encoder: Encoder,
    /// The output path, ready for the pipeline.
    pub location: String,
    /// The audio encoder element, if there is one.
    pub aac: Option<String>,
    /// Whether the voice processing element can be used.
    pub dsp: bool,
    /// The source of what the machine plays, if it is recorded.
    pub monitor: Option<String>,
}

pub open spec fn number(n: int) -> Seq<char> {
    signed_decimal(n)
}

pub open spec fn minus_or_zero(a: int, b: int) -> int {
    if a < b {
        0
    } else {
        a - b
    }
}

/// The cropping part of the pipeline.
pub open spec fn crop_text(p: Pipeline, crop: Option<(u32, u32, u32, u32)>) -> Seq<char> {
    match crop {
        Some((x, y, w, h)) => "! videocrop left="@ + number(x as int) + " top="@ + number(y as int)
            + " right="@ + number(minus_or_zero(p.width as int, x + w)) + " bottom="@ + number(
            minus_or_zero(p.height as int, y + h),
        ) + " "@,
        None => Seq::empty(),
    }
}

/// The scaling and encoding part.
pub open spec fn encode_text(p: Pipeline) -> Seq<char> {
    match p.encoder {
        Encoder::Gpu => "! vapostproc ! video/x-raw(memory:VAMemory),format=NV12,width="@ + number(
            p.out_w as int,
        ) + ",height="@ + number(p.out_h as int) + " ! identity name=vgate ! vah264enc bitrate="@
            + number(p.bitrate_kbps as int) + " ! h264parse "@,
        Encoder::Cpu => "! videoconvert ! videoscale ! video/x-raw,format=I420,width="@ + number(
            p.out_w as int,
        ) + ",height="@ + number(p.out_h as int) + " ! identity name=vgate ! x264enc bitrate="@
            + number(p.bitrate_kbps as int)
            + " speed-preset=veryfast tune=zerolatency key-int-max=120 ! h264parse "@,
    }
}

/// The voice processing part: gain control and noise suppression.
pub open spec fn dsp_text(on: bool) -> Seq<char> {
    if on {
        "! audio/x-raw,rate=48000,channels=1,format=S16LE ! webrtcdsp echo-cancel=false noise-suppression=true gain-control=true ! audioconvert "@
    } else {
        Seq::empty()
    }
}

/// The choice of a sound source: nothing for the default one.
pub open spec fn device_text(mic: Seq<char>) -> Seq<char> {
    if mic == "default"@ {
        Seq::empty()
    } else {
        " device="@ + mic
    }
}

pub open spec fn mic_text(mic: Option<Seq<char>>, dsp: bool) -> Seq<char> {
    match mic {
        Some(m) => "pulsesrc"@ + device_text(m) + " ! queue ! audioconvert ! audioresample "@
            + dsp_text(dsp) + "! volume name=vol ! amix. "@,
        None => Seq::empty(),
    }
}

pub open spec fn monitor_text(monitor: Option<Seq<char>>) -> Seq<char> {
    match monitor {
        Some(m) => "pulsesrc device="@ + m + " ! queue ! audioconvert ! audioresample ! amix. "@,
        None => Seq::empty(),
    }
}

/// The sound part: nothing without a source or without an encoder for it.
pub open spec fn audio_text(p: Pipeline, mic: Option<Seq<char>>) -> Seq<char> {
    let monitor = json::maybe(p.monitor);
    if mic is None && monitor is None {
        Seq::empty()
    } else {
        match p.aac {
            Some(aac) => "audiomixer name=amix ! audioconvert ! audioresample ! identity name=agate ! "@
                + aac@ + " bitrate=128000 ! aacparse ! mux. "@ + mic_text(mic, p.dsp)
                + monitor_text(monitor),
            None => Seq::empty(),
        }
    }
}

/// The whole pipeline.
pub open spec fn pipeline_text(
    p: Pipeline,
    crop: Option<(u32, u32, u32, u32)>,
    mic: Option<Seq<char>>,
) -> Seq<char> {
    "pipewiresrc fd=3 path="@ + number(p.node_id as int)
        + " do-timestamp=true ! queue max-size-buffers=8 "@ + crop_text(p, crop) + encode_text(p)
        + "! mux. "@ + "mp4mux name=mux ! filesink location="@ + p.location@ + " "@ + audio_text(
        p,
        mic,
    )
}

/// Cropping a stream to a region takes off as much on each side as lies beyond
/// that side: `left`, the region and `right` make up the width of the stream,
/// and `top`, the region and `bottom` its height. Where the region reaches
/// beyond the stream, nothing is taken off there.
pub proof fn law_cropping_leaves_the_region(
    p: Pipeline,
    crop: (u32, u32, u32, u32),
    mic: Option<Seq<char>>,
    left: int,
    top: int,
    right: int,
    bottom: int,
)
    requires
        left == crop.0,
        top == crop.1,
        right >= 0,
        bottom >= 0,
        left + crop.2 + right == p.width || right == 0 && left + crop.2 >= p.width,
        top + crop.3 + bottom == p.height || bottom == 0 && top + crop.3 >= p.height,
    ensures
        pipeline_text(p, Some(crop), mic) == source_text(p) + ("! videocrop left="@
            + signed_decimal(left) + " top="@ + signed_decimal(top) + " right="@ + signed_decimal(
            right,
        ) + " bottom="@ + signed_decimal(bottom) + " "@) + encoded_text(p, mic),
        pipeline_text(p, None, mic) == source_text(p) + encoded_text(
            p,
            mic,
        ),
        left + crop.2 + right == p.width && top + crop.3 + bottom == p.height ==> base_size(
            p.width as int,
            p.height as int,
            Some(crop),
        ) == (p.width - left - right, p.height - top - bottom),
{
    assert(pipeline_text(p, None, mic) =~= source_text(p) + encoded_text(
        p,
        mic,
    ));
    assert(pipeline_text(p, Some(crop), mic) =~= source_text(p) + crop_text(
        p,
        Some(crop),
    ) + encoded_text(p, mic));
}

/// The source of the pipeline.
pub open spec fn source_text(p: Pipeline) -> Seq<char> {
    "pipewiresrc fd=3 path="@ + number(p.node_id as int)
        + " do-timestamp=true ! queue max-size-buffers=8 "@
}

/// What becomes of the cropped stream.
pub open spec fn encoded_text(p: Pipeline, mic: Option<Seq<char>>) -> Seq<char> {
    encode_text(p) + "! mux. "@ + "mp4mux name=mux ! filesink location="@ + p.location@ + " "@
        + audio_text(p, mic)
}

/// Sound was asked for and there is a source, but no encoder for it.
pub open spec fn loses_audio(p: Pipeline, mic: Option<Seq<char>>) -> bool {
    (mic is Some || p.monitor is Some) && p.aac is None
}

fn push_crop(line: &mut String, p: &Pipeline, crop: Option<(u32, u32, u32, u32)>)
    ensures
        final(line)@ == old(line)@ + crop_text(*p, crop),
{
    if let Some((x, y, w, h)) = crop {
        let right: i64 = if (p.width as i64) < x as i64 + w as i64 {
            0
        } else {
            p.width as i64 - (x as i64 + w as i64)
        };
        let bottom: i64 = if (p.height as i64) < y as i64 + h as i64 {
            0
        } else {
            p.height as i64 - (y as i64 + h as i64)
        };
        line.append("! videocrop left=");
        append_number(line, x as i64);
        line.append(" top=");
        append_number(line, y as i64);
        line.append(" right=");
        append_number(line, right);
        line.append(" bottom=");
        append_number(line, bottom);
        line.append(" ");
    }
    assert(line@ =~= old(line)@ + crop_text(*p, crop));
}

fn push_encode(line: &mut String, p: &Pipeline)
    ensures
        final(line)@ == old(line)@ + encode_text(*p),
{
    match p.encoder {
        Encoder::Gpu => {
            line.append("! vapostproc ! video/x-raw(memory:VAMemory),format=NV12,width=");
            append_number(line, p.out_w as i64);
            line.append(",height=");
            append_number(line, p.out_h as i64);
            line.append(" ! identity name=vgate ! vah264enc bitrate=");
            append_number(line, p.bitrate_kbps as i64);
            line.append(" ! h264parse ");
        },
        Encoder::Cpu => {
            line.append("! videoconvert ! videoscale ! video/x-raw,format=I420,width=");
            append_number(line, p.out_w as i64);
            line.append(",height=");
            append_number(line, p.out_h as i64);
            line.append(" ! identity name=vgate ! x264enc bitrate=");
            append_number(line, p.bitrate_kbps as i64);
            line.append(
                " speed-preset=veryfast tune=zerolatency key-int-max=120 ! h264parse ",
            );
        },
    }
    assert(line@ =~= old(line)@ + encode_text(*p));
}

/// The voice processing part of a microphone's chain.
pub fn mic_dsp(on: bool) -> (r: &'static str)
    ensures
        r@ == dsp_text(on),
{
    if on {
        "! audio/x-raw,rate=48000,channels=1,format=S16LE ! webrtcdsp echo-cancel=false noise-suppression=true gain-control=true ! audioconvert "
    } else {
        proof {
            reveal_strlit("");
        }
        assert(""@ =~= Seq::empty());
        ""
    }
}

pub fn push_device(line: &mut String, mic: &str)
    ensures
        final(line)@ == old(line)@ + device_text(mic@),
{
    if !text::same_text(mic, "default") {
        line.append(" device=");
        line.append(mic);
    }
    assert(line@ =~= old(line)@ + device_text(mic@));
}

fn push_mic(line: &mut String, mic: &Option<String>, dsp: bool)
    ensures
        final(line)@ == old(line)@ + mic_text(json::maybe(*mic), dsp),
{
    if let Some(m) = mic {
        line.append("pulsesrc");
        push_device(line, m.as_str());
        line.append(" ! queue ! audioconvert ! audioresample ");
        line.append(mic_dsp(dsp));
        line.append("! volume name=vol ! amix. ");
    }
    assert(line@ =~= old(line)@ + mic_text(json::maybe(*mic), dsp));
}

fn push_audio(line: &mut String, p: &Pipeline, mic: &Option<String>)
    ensures
        final(line)@ == old(line)@ + audio_text(*p, json::maybe(*mic)),
{
    if mic.is_some() || p.monitor.is_some() {
        if let Some(aac) = &p.aac {
            line.append(
                "audiomixer name=amix ! audioconvert ! audioresample ! identity name=agate ! ",
            );
            line.append(aac.as_str());
            line.append(" bitrate=128000 ! aacparse ! mux. ");
            push_mic(line, mic, p.dsp);
            if let Some(m) = &p.monitor {
                line.append("pulsesrc device=");
                line.append(m.as_str());
                line.append(" ! queue ! audioconvert ! audioresample ! amix. ");
            }
        }
    }
    assert(line@ =~= old(line)@ + audio_text(*p, json::maybe(*mic)));
}

/// The launch line of a recording, and whether it goes without the sound that
/// was asked for because nothing can encode it.
pub fn launch_line(
    p: &Pipeline,
    crop: Option<(u32, u32, u32, u32)>,
    mic: &Option<String>,
) -> (r: (String, bool))
    ensures
        r.0@ == pipeline_text(*p, crop, json::maybe(*mic)),
        r.1 == loses_audio(*p, json::maybe(*mic)),
{
    let mut line = owned("pipewiresrc fd=3 path=");
    append_number(&mut line, p.node_id as i64);
    line.append(" do-timestamp=true ! queue max-size-buffers=8 ");
    push_crop(&mut line, p, crop);
    push_encode(&mut line, p);
    line.append("! mux. ");
    line.append("mp4mux name=mux ! filesink location=");
    line.append(p.location.as_str());
    line.append(" ");
    push_audio(&mut line, p, mic);
    let lost: bool = (mic.is_some() || p.monitor.is_some()) && p.aac.is_none();
    (line, lost)
}

pub open spec fn word_views(words: Seq<String>) -> Seq<Seq<char>> {
    words.map_values(|s: String| s@)
}

/// The words of a launch line, as a program takes them.
pub fn split_launch_line(line: &str) -> (r: Vec<String>)
    ensures
        word_views(r@) == text::words(line@),
{
    let chars = text::to_chars(line);
    let words = text::split_words(chars.as_slice());
    let ghost all = text::views(words@);
    let mut out: Vec<String> = Vec::new();
    let mut i: usize = 0;
    while i < words.len()
        invariant
            all == text::views(words@),
            i <= words@.len(),
            word_views(out@) == all.take(i as int),
        decreases words.len() - i,
    {
        let ghost before = word_views(out@);
        let s = text::from_chars(words[i].as_slice());
        out.push(s);
        i += 1;
        assert(word_views(out@) =~= before.push(s@));
        assert(all.take(i as int) =~= before.push(all[i - 1]));
    }
    assert(all.take(i as int) =~= all);
    out
}

/// A path as the pipeline reads it: in quotes if it holds white space.
pub open spec fn location_text(path: Seq<char>) -> Seq<char> {
    if text::has_white(path) {
        "\""@ + path + "\""@
    } else {
        path
    }
}

/// A path ready for the pipeline. A path that is not Unicode is refused.
pub fn shell_safe(path: Option<&str>) -> (r: Result<String, Error>)
    ensures
        match (r, path) {
            (Ok(s), Some(p)) => s@ == location_text(p@),
            (Err(e), None) => e.is_record("non-UTF8 output path"@),
            _ => false,
        },
{
    match path {
        None => Err(Error::Record(owned("non-UTF8 output path"))),
        Some(p) => {
            let chars = text::to_chars(p);
            if text::any_white(chars.as_slice()) {
                let mut s = owned("\"");
                s.append(p);
                s.append("\"");
                Ok(s)
            } else {
                Ok(owned(p))
            }
        },
    }
}

// ---- sound sources ----

/// The source of what a sink plays.
pub open spec fn monitor_of(output: Seq<char>) -> Option<Seq<char>> {
    let sink = text::trim(output);
    if sink.len() == 0 {
        None
    } else {
        Some(sink + ".monitor"@)
    }
}

/// The source of what the default sink plays, out of what names the sink.
pub fn monitor_source(output: &str) -> (r: Option<String>)
    ensures
        json::maybe(r) == monitor_of(output@),
{
    let chars = text::to_chars(output);
    let sink = text::trimmed(chars.as_slice());
    if sink.len() == 0 {
        return None;
    }
    let mut s = text::from_chars(sink.as_slice());
    s.append(".monitor");
    Some(s)
}

/// The microphones among the sources, given by name and description: those
/// with a name that is not that of a monitor. A missing description is
/// replaced by the name.
pub open spec fn microphones_of(rows: Seq<(Option<Seq<char>>, Option<Seq<char>>)>) -> Seq<
    (Seq<char>, Seq<char>),
>
    decreases rows.len(),
{
    if rows.len() == 0 {
        Seq::empty()
    } else {
        let rest = microphones_of(rows.drop_last());
        match rows.last() {
            (Some(name), note) => if text::ends_with(name, ".monitor"@) {
                rest
            } else {
                rest.push(
                    (
                        name,
                        match note {
                            Some(d) => d,
                            None => name,
                        },
                    ),
                )
            },
            (None, _) => rest,
        }
    }
}

pub open spec fn pair_views(list: Seq<(String, String)>) -> Seq<(Seq<char>, Seq<char>)> {
    list.map_values(|p: (String, String)| (p.0@, p.1@))
}

/// The microphones among sources of the given names and descriptions.
pub fn pick_microphones(rows: &Vec<(Option<String>, Option<String>)>) -> (r: Vec<
    (String, String),
>)
    ensures
        pair_views(r@) == microphones_of(json::row_views(rows@)),
{
    let mut out: Vec<(String, String)> = Vec::new();
    let ghost all = json::row_views(rows@);
    let tail = text::to_chars(".monitor");
    let mut i: usize = 0;
    while i < rows.len()
        invariant
            all == json::row_views(rows@),
            tail@ == ".monitor"@,
            i <= rows@.len(),
            pair_views(out@) == microphones_of(all.take(i as int)),
        decreases rows.len() - i,
    {
        let ghost before = pair_views(out@);
        assert(all.take(i + 1).drop_last() =~= all.take(i as int));
        assert(all.take(i + 1).last() == all[i as int]);
        if let Some(name) = &rows[i].0 {
            let chars = text::to_chars(name.as_str());
            if !text::has_suffix(chars.as_slice(), tail.as_slice()) {
                let note = match &rows[i].1 {
                    Some(d) => d.clone(),
                    None => name.clone(),
                };
                let p = (name.clone(), note);
                out.push(p);
                assert(pair_views(out@) =~= before.push((p.0@, p.1@)));
            }
        }
        i += 1;
    }
    assert(all.take(i as int) =~= all);
    out
}

/// The microphones in a list of sources in JSON. There are none in what is no
/// such list.
pub fn list_microphones(listing: &[u8]) -> (r: Vec<(String, String)>)
    ensures
        pair_views(r@) == (match json::json_rows(listing@, "name"@, "description"@) {
            Some(rows) => microphones_of(rows),
            None => Seq::empty(),
        }),
{
    match json::text_rows(listing, "name", "description") {
        Some(rows) => pick_microphones(&rows),
        None => {
            let none: Vec<(String, String)> = Vec::new();
            assert(pair_views(none@) =~= Seq::empty());
            none
        },
    }
}

/// The permission token in the text that was saved, if there is one.
pub fn restore_token(saved: &str) -> (r: Option<String>)
    ensures
        json::maybe(r) == (if text::trim(saved@).len() == 0 {
            None
        } else {
            Some(text::trim(saved@))
        }),
{
    let chars = text::to_chars(saved);
    let token = text::trimmed(chars.as_slice());
    if token.len() == 0 {
        None
    } else {
        Some(text::from_chars(token.as_slice()))
    }
}

/// Why the portal gave no stream.
pub fn portal_error(refused: bool, message: &str) -> (r: Error)
    ensures
        r.is_record(
            if refused {
                "screen recording was denied or cancelled in the portal dialog"@
            } else {
                "screencast portal: "@ + message@
            },
        ),
{
    if refused {
        Error::Record(owned("screen recording was denied or cancelled in the portal dialog"))
    } else {
        let mut m = owned("screencast portal: ");
        m.append(message);
        Error::Record(m)
    }
}

// ---- a running recording ----

/// How a recording stands. Times are nanoseconds of a clock that never goes
/// back.
#[derive(Clone, Copy, PartialEq, Eq, Structural, Debug)]
pub struct RecordingState {
    /// Whether its encoder takes commands.
    pub controllable: bool,
    pub paused: bool,
    pub muted: bool,
    /// The recorded time before the current segment.
    pub accumulated: i64,
    pub segment_start: i64,
}

/// The command that ends or begins a pause.
pub open spec fn pause_word(paused: bool) -> Seq<char> {
    if paused {
        "resume"@
    } else {
        "pause"@
    }
}

/// The command that mutes or unmutes.
pub open spec fn mute_word(muted: bool) -> Seq<char> {
    if muted {
        "mute"@
    } else {
        "unmute"@
    }
}

/// The encoder is told what the recording then does: to pause if it is paused
/// afterwards, and to mute if it is to be mute.
pub proof fn law_commands_say_what_happens(s: RecordingState, now: i64, muted: bool)
    ensures
        pause_word(s.paused) == "pause"@ <==> s.toggled(now).paused,
        pause_word(s.paused) == "resume"@ <==> !s.toggled(now).paused,
        mute_word(muted) == "mute"@ <==> muted,
        mute_word(muted) == "unmute"@ <==> !muted,
{
    reveal_strlit("pause");
    reveal_strlit("resume");
    reveal_strlit("mute");
    reveal_strlit("unmute");
    assert("pause"@.len() == 5 && "resume"@.len() == 6 && "mute"@.len() == 4 && "unmute"@.len() == 6);
}

impl RecordingState {
    /// No more was recorded than the clock has run.
    pub open spec fn wf(self) -> bool {
        0 <= self.accumulated <= self.segment_start
    }

    /// The recorded time, without paused stretches.
    pub open spec fn elapsed_at(self, now: int) -> int {
        if self.paused {
            self.accumulated as int
        } else {
            self.accumulated + (now - self.segment_start)
        }
    }

    /// After pausing or resuming.
    pub open spec fn toggled(self, now: i64) -> RecordingState {
        if self.paused {
            RecordingState { paused: false, segment_start: now, ..self }
        } else {
            RecordingState {
                paused: true,
                accumulated: self.elapsed_at(now as int) as i64,
                segment_start: now,
                ..self
            }
        }
    }

    /// How a recording stands that begins now.
    pub open spec fn begun(controllable: bool, now: i64) -> RecordingState {
        RecordingState {
            controllable,
            paused: false,
            muted: false,
            accumulated: 0,
            segment_start: now,
        }
    }

    /// A recording that begins now.
    pub fn new(controllable: bool, now: i64) -> (r: RecordingState)
        requires
            0 <= now,
        ensures
            r == RecordingState::begun(controllable, now),
            r.wf(),
    {
        RecordingState {
            controllable,
            paused: false,
            muted: false,
            accumulated: 0,
            segment_start: now,
        }
    }

    /// Recorded time, without paused stretches.
    pub fn elapsed(&self, now: i64) -> (r: i64)
        requires
            self.wf(),
            self.segment_start <= now,
        ensures
            r == self.elapsed_at(now as int),
            0 <= r,
            !self.paused ==> r <= now,
    {
        if self.paused {
            self.accumulated
        } else {
            self.accumulated + (now - self.segment_start)
        }
    }

    /// Whether pausing and muting are possible.
    pub fn can_control(&self) -> (r: bool)
        ensures
            r == self.controllable,
    {
        self.controllable
    }

    pub fn is_paused(&self) -> (r: bool)
        ensures
            r == self.paused,
    {
        self.paused
    }

    pub fn is_muted(&self) -> (r: bool)
        ensures
            r == self.muted,
    {
        self.muted
    }

    /// The command that toggles the pause, for an encoder that takes commands.
    pub fn pause_command(&self) -> (r: Result<&'static str, Error>)
        ensures
            match r {
                Ok(c) => self.controllable && c@ == pause_word(self.paused),
                Err(e) => !self.controllable && e.is_record("recording is not controllable"@),
            },
    {
        if !self.controllable {
            return Err(Error::Record(owned("recording is not controllable")));
        }
        Ok(
            if self.paused {
                "resume"
            } else {
                "pause"
            },
        )
    }

    /// The command that mutes or unmutes the microphone.
    pub fn mute_command(&self, muted: bool) -> (r: Result<&'static str, Error>)
        ensures
            match r {
                Ok(c) => self.controllable && c@ == mute_word(muted),
                Err(e) => !self.controllable && e.is_record("recording is not controllable"@),
            },
    {
        if !self.controllable {
            return Err(Error::Record(owned("recording is not controllable")));
        }
        Ok(
            if muted {
                "mute"
            } else {
                "unmute"
            },
        )
    }

    /// Pause or resume, once the command was sent. The state stays as it is if
    /// it could not be sent.
    pub fn toggle_pause(&mut self, sent: Result<(), String>, now: i64) -> (r: Result<(), Error>)
        requires
            old(self).wf(),
            old(self).segment_start <= now,
        ensures
            sent_result(r, *old(self), sent),
            *final(self) == (if r is Ok {
                old(self).toggled(now)
            } else {
                *old(self)
            }),
            final(self).wf(),
    {
        let done = self.delivered(sent);
        if done.is_ok() {
            if self.paused {
                self.segment_start = now;
                self.paused = false;
            } else {
                let e: i64 = self.elapsed(now);
                self.accumulated = e;
                self.segment_start = now;
                self.paused = true;
            }
        }
        done
    }

    /// Mute or unmute, once the command was sent.
    pub fn set_muted(&mut self, muted: bool, sent: Result<(), String>) -> (r: Result<(), Error>)
        ensures
            sent_result(r, *old(self), sent),
            *final(self) == (if r is Ok {
                RecordingState { muted, ..*old(self) }
            } else {
                *old(self)
            }),
    {
        let done = self.delivered(sent);
        if done.is_ok() {
            self.muted = muted;
        }
        done
    }

    fn delivered(&self, sent: Result<(), String>) -> (r: Result<(), Error>)
        ensures
            sent_result(r, *self, sent),
    {
        if !self.controllable {
            return Err(Error::Record(owned("recording is not controllable")));
        }
        match sent {
            Ok(()) => Ok(()),
            Err(e) => {
                let mut m = owned("controller command failed: ");
                m.append(e.as_str());
                Err(Error::Record(m))
            },
        }
    }
}

/// Whether a command to a recording may end with `r`.
pub open spec fn sent_result(
    r: Result<(), Error>,
    state: RecordingState,
    sent: Result<(), String>,
) -> bool {
    if !state.controllable {
        r is Err && r->Err_0.is_record("recording is not controllable"@)
    } else {
        match sent {
            Ok(_) => r is Ok,
            Err(e) => r is Err && r->Err_0.is_record("controller command failed: "@ + e@),
        }
    }
}

/// A paused stretch does not count as recorded: paused at `a` and resumed at
/// `b`, a recording stands still in between, and goes on from there.
pub proof fn law_paused_time_is_not_recorded(s: RecordingState, a: i64, b: i64, c: int)
    requires
        s.wf(),
        !s.paused,
        s.segment_start <= a <= b <= c,
    ensures
        s.toggled(a).elapsed_at(b as int) == s.elapsed_at(a as int),
        s.toggled(a).toggled(b).elapsed_at(c) == s.elapsed_at(a as int) + (c - b),
        !s.toggled(a).toggled(b).paused,
{
}

/// How an encoder stands after it was started.
#[derive(Debug)]
pub enum Startup {
    Running,
    /// The GPU encoder gave up: use the other one, and tell this.
    RetryOnCpu(String),
    Failed(Error),
}

/// What to do about an encoder: one that still runs is kept. A GPU encoder
/// that ended at once is replaced by the CPU one; any other end is a failure.
pub open spec fn startup_is(s: Startup, exit: Option<Seq<char>>, encoder: Encoder) -> bool {
    match exit {
        None => s is Running,
        Some(status) => match encoder {
            Encoder::Gpu => s is RetryOnCpu && s->RetryOnCpu_0@ == "GPU pipeline exited at startup ("@
                + status + "); falling back to CPU x264"@,
            Encoder::Cpu => s is Failed && s->Failed_0.is_record(
                "encoder exited at startup: "@ + status,
            ),
        },
    }
}

pub open spec fn maybe_str(s: Option<&str>) -> Option<Seq<char>> {
    match s {
        Some(s) => Some(s@),
        None => None,
    }
}

/// What to do about an encoder, by how it ended if it did.
pub fn after_startup(exit: Option<&str>, encoder: Encoder) -> (r: Startup)
    ensures
        startup_is(r, maybe_str(exit), encoder),
{
    match exit {
        None => Startup::Running,
        Some(status) => match encoder {
            Encoder::Gpu => {
                let mut m = owned("GPU pipeline exited at startup (");
                m.append(status);
                m.append("); falling back to CPU x264");
                Startup::RetryOnCpu(m)
            },
            Encoder::Cpu => {
                let mut m = owned("encoder exited at startup: ");
                m.append(status);
                Startup::Failed(Error::Record(m))
            },
        },
    }
}

/// What is known of a process.
#[derive(Clone, Copy, PartialEq, Eq, Structural, Debug)]
pub enum Poll {
    Exited,
    Running,
    Unknown,
}

/// What to do while an encoder finishes its file.
#[derive(Clone, Copy, PartialEq, Eq, Structural, Debug)]
pub enum StopStep {
    Finished,
    Kill,
    Wait,
}

/// How long an encoder may take to finish, in nanoseconds.
pub const STOP_TIMEOUT: i64 = 10_000_000_000;

/// What to do about an encoder that was asked to stop so long ago.
pub open spec fn stop_step_of(poll: Poll, waited: int) -> StopStep {
    match poll {
        Poll::Exited => StopStep::Finished,
        Poll::Running => if waited > STOP_TIMEOUT {
            StopStep::Kill
        } else {
            StopStep::Wait
        },
        Poll::Unknown => StopStep::Wait,
    }
}

/// An encoder has ten seconds to finish. It is killed only if it runs longer,
/// and is finished only when it has ended.
pub proof fn law_encoder_has_time_to_finish(poll: Poll, waited: int)
    ensures
        stop_step_of(poll, waited) == StopStep::Finished <==> poll == Poll::Exited,
        stop_step_of(poll, waited) == StopStep::Kill <==> poll == Poll::Running && waited
            > 10_000_000_000,
{
}

/// The next step while stopping: an encoder that still runs after the timeout
/// is killed.
pub fn stop_step(poll: Poll, waited: i64) -> (r: StopStep)
    ensures
        r == stop_step_of(poll, waited as int),
{
    match poll {
        Poll::Exited => StopStep::Finished,
        Poll::Running => if waited > STOP_TIMEOUT {
            StopStep::Kill
        } else {
            StopStep::Wait
        },
        Poll::Unknown => StopStep::Wait,
    }
}

/// Whether a stopped recording left its file.
pub fn stop_result(written: bool) -> (r: Result<(), Error>)
    ensures
        match r {
            Ok(_) => written,
            Err(e) => !written && e.is_record("recording file was not produced"@),
        },
{
    if written {
        Ok(())
    } else {
        Err(Error::Record(owned("recording file was not produced")))
    }
}

/// The arguments of an encoder that takes no commands.
pub fn plain_arguments(line: &str) -> (r: Vec<String>)
    ensures
        word_views(r@) == seq!["-e"@, "-q"@] + text::words(line@),
{
    let mut args: Vec<String> = Vec::new();
    args.push(owned("-e"));
    args.push(owned("-q"));
    let words = split_launch_line(line);
    let ghost all = word_views(words@);
    let mut i: usize = 0;
    assert(word_views(args@) =~= seq!["-e"@, "-q"@] + all.take(0));
    while i < words.len()
        invariant
            all == word_views(words@),
            i <= words@.len(),
            word_views(args@) == seq!["-e"@, "-q"@] + all.take(i as int),
        decreases words.len() - i,
    {
        let ghost before = word_views(args@);
        args.push(words[i].clone());
        i += 1;
        assert(word_views(args@) =~= before.push(all[i - 1]));
        assert(seq!["-e"@, "-q"@] + all.take(i as int) =~= before.push(all[i - 1]));
    }
    assert(all.take(i as int) =~= all);
    args
}

/// The words of a pipeline are whole: none is empty or holds white space.
pub proof fn law_words_hold_no_space(s: Seq<char>, i: int)
    requires
        0 <= i < text::words(s).len(),
    ensures
        text::words(s)[i].len() > 0,
        !text::has_white(text::words(s)[i]),
    decreases s.len(),
{
    let t = text::trim_start(s);
    text::lemma_trim_start_len(s);
    text::lemma_word_len(t);
    let n = text::word_len(t) as int;
    if i == 0 {
        lemma_word_is_whole(t);
        assert(text::words(s)[0] == t.take(n));
    } else {
        assert(text::words(s)[i] == text::words(t.skip(n))[i - 1]);
        law_words_hold_no_space(t.skip(n), i - 1);
    }
}

proof fn lemma_word_is_whole(t: Seq<char>)
    ensures
        !text::has_white(t.take(text::word_len(t) as int)),
    decreases t.len(),
{
    text::lemma_word_len(t);
    let n = text::word_len(t) as int;
    if n > 0 {
        let rest = t.drop_first();
        lemma_word_is_whole(rest);
        text::lemma_word_len(rest);
        assert forall|k: int| 0 <= k < n implies !text::is_white(#[trigger] t.take(n)[k]) by {
            if k > 0 {
                assert(t.take(n)[k] == rest.take(n - 1)[k - 1]);
            }
        }
    }
}

/// A recording is as high as was wanted, but no higher than the recorded part,
/// and keeps its proportions: both sides are cut to even numbers. One that is
/// not scaled is the recorded part itself.
pub proof fn law_output_keeps_proportions(
    width: int,
    height: int,
    crop: Option<(u32, u32, u32, u32)>,
    want: Option<u32>,
)
    requires
        2 <= width <= u32::MAX,
        2 <= height <= u32::MAX,
        crop matches Some((_, _, w, h)) ==> w >= 2 && h >= 2,
        want matches Some(n) ==> n >= 2,
    ensures
        ({
            let (bw, bh) = match crop {
                Some((_, _, w, h)) => (
                    if w < width {
                        w as int
                    } else {
                        width
                    },
                    if h < height {
                        h as int
                    } else {
                        height
                    },
                ),
                None => (width, height),
            };
            let (ow, oh) = output_dims(width, height, crop, want);
            let th = if want matches Some(n) && n < bh {
                want->0 as int
            } else {
                bh
            };
            &&& oh <= th <= oh + 1 && oh % 2 == 0 && ow % 2 == 0
            &&& ow == 2 || -2 * bh < ow * bh - bw * th < bh
            &&& th == bh ==> ow <= bw <= ow + 1
        }),
{
    let (bw, bh) = base_size(width, height, crop);
    let th = match want {
        Some(h) => at_most(h as int, bh),
        None => bh,
    };
    let w = scaled_by(bw, th, bh, 1, DOUBLE as int);
    let h = DOUBLE as int;
    lemma_scaled_down(bw, th, bh, h);
    law_scaled_is_close(bw, th, bh, 1, h);
    assert(0 <= bw * th <= 0x1_0000_0000 * bh) by (nonlinear_arith)
        requires
            0 <= bw <= 0x1_0000_0000,
            0 <= th <= bh,
    ;
    let off = w * bh - bw * th;
    assert(-bh < off < bh) by (nonlinear_arith)
        requires
            -(h * bh + 3 * (bw * th)) <= 2 * h * off <= h * bh + 3 * (bw * th),
            0 <= bw * th <= 0x1_0000_0000 * bh,
            h == 0x10_0000_0000_0000,
            bh > 0,
    ;
    let ow = even_of(w);
    if w >= 2 {
        assert(w - 1 <= ow <= w);
        assert(w * bh - bh <= ow * bh <= w * bh) by (nonlinear_arith)
            requires
                w - 1 <= ow <= w,
                bh > 0,
        ;
    }
    if th == bh {
        law_scaled_by_whole(bw, th, bh, h, 1);
    }
}

/// The bitrate rises with the height: it is that of the lowest preset that is
/// high enough.
pub proof fn law_bitrate_suits_the_height(a: int, b: int)
    requires
        a <= b,
    ensures
        kbps_for(a) <= kbps_for(b),
        a <= 720 ==> kbps_for(a) == 6_000,
        720 < a <= 1080 ==> kbps_for(a) == 10_000,
        a > 1080 ==> kbps_for(a) == 16_000,
{
}

/// `part` stands somewhere in `s`.
pub open spec fn holds(s: Seq<char>, part: Seq<char>) -> bool {
    exists|a: Seq<char>, b: Seq<char>| s == #[trigger] ((a + part) + b)
}

proof fn lemma_holds(s: Seq<char>, a: Seq<char>, part: Seq<char>, b: Seq<char>)
    requires
        s =~= a + part + b,
    ensures
        holds(s, part),
{
    assert(s == (a + part) + b);
}

proof fn lemma_holds_inside(a: Seq<char>, s: Seq<char>, b: Seq<char>, part: Seq<char>)
    requires
        holds(s, part),
    ensures
        holds(a + s + b, part),
{
    let (x, y) = choose|x: Seq<char>, y: Seq<char>| s == #[trigger] ((x + part) + y);
    lemma_holds(a + s + b, a + x, part, y + b);
}

#[verifier::spinoff_prover]
proof fn lemma_scaler_ends()
    ensures
        "! vapostproc ! video/x-raw(memory:VAMemory),format=NV12,width="@
            == "! vapostproc ! video/x-raw(memory:VAMemory),format=NV12,"@ + "width="@,
        "! videoconvert ! videoscale ! video/x-raw,format=I420,width="@
            == "! videoconvert ! videoscale ! video/x-raw,format=I420,"@ + "width="@,
{
    reveal_strlit("! vapostproc ! video/x-raw(memory:VAMemory),format=NV12,width=");
    reveal_strlit("! vapostproc ! video/x-raw(memory:VAMemory),format=NV12,");
    reveal_strlit("! videoconvert ! videoscale ! video/x-raw,format=I420,width=");
    reveal_strlit("! videoconvert ! videoscale ! video/x-raw,format=I420,");
    reveal_strlit("width=");
    assert("! vapostproc ! video/x-raw(memory:VAMemory),format=NV12,width="@
        =~= "! vapostproc ! video/x-raw(memory:VAMemory),format=NV12,"@ + "width="@);
    assert("! videoconvert ! videoscale ! video/x-raw,format=I420,width="@
        =~= "! videoconvert ! videoscale ! video/x-raw,format=I420,"@ + "width="@);
}

#[verifier::spinoff_prover]
proof fn lemma_encoder_ends()
    ensures
        " ! identity name=vgate ! vah264enc bitrate="@ == " "@ + "! identity name=vgate ! "@
            + "vah264enc bitrate="@,
        " ! identity name=vgate ! x264enc bitrate="@ == " "@ + "! identity name=vgate ! "@
            + "x264enc bitrate="@,
{
    reveal_strlit(" ! identity name=vgate ! vah264enc bitrate=");
    reveal_strlit(" ! identity name=vgate ! x264enc bitrate=");
    reveal_strlit("! identity name=vgate ! ");
    reveal_strlit("vah264enc bitrate=");
    reveal_strlit("x264enc bitrate=");
    reveal_strlit(" ");
    assert(" ! identity name=vgate ! vah264enc bitrate="@ =~= " "@ + "! identity name=vgate ! "@
        + "vah264enc bitrate="@);
    assert(" ! identity name=vgate ! x264enc bitrate="@ =~= " "@ + "! identity name=vgate ! "@
        + "x264enc bitrate="@);
}

#[verifier::spinoff_prover]
proof fn lemma_parser_begins()
    ensures
        " ! h264parse "@ == " "@ + "! h264parse "@,
        " speed-preset=veryfast tune=zerolatency key-int-max=120 ! h264parse "@ == " "@
            + "speed-preset=veryfast tune=zerolatency key-int-max=120 ! h264parse "@,
        " do-timestamp=true ! queue max-size-buffers=8 "@ == " "@
            + "do-timestamp=true ! queue max-size-buffers=8 "@,
        "mp4mux name=mux ! filesink location="@ == "mp4mux name=mux ! "@ + "filesink location="@,
{
    reveal_strlit(" ");
    reveal_strlit(" ! h264parse ");
    reveal_strlit("! h264parse ");
    reveal_strlit(" speed-preset=veryfast tune=zerolatency key-int-max=120 ! h264parse ");
    reveal_strlit("speed-preset=veryfast tune=zerolatency key-int-max=120 ! h264parse ");
    reveal_strlit(" do-timestamp=true ! queue max-size-buffers=8 ");
    reveal_strlit("do-timestamp=true ! queue max-size-buffers=8 ");
    reveal_strlit("mp4mux name=mux ! filesink location=");
    reveal_strlit("mp4mux name=mux ! ");
    reveal_strlit("filesink location=");
    assert(" ! h264parse "@ =~= " "@ + "! h264parse "@);
    assert(" speed-preset=veryfast tune=zerolatency key-int-max=120 ! h264parse "@ =~= " "@
        + "speed-preset=veryfast tune=zerolatency key-int-max=120 ! h264parse "@);
    assert(" do-timestamp=true ! queue max-size-buffers=8 "@ =~= " "@
        + "do-timestamp=true ! queue max-size-buffers=8 "@);
    assert("mp4mux name=mux ! filesink location="@ =~= "mp4mux name=mux ! "@
        + "filesink location="@);
}

/// A part of scaling to `w` by `h` and encoding at `k` with an encoder.
#[verifier::spinoff_prover]
proof fn lemma_scaled_and_encoded(
    t: Seq<char>,
    open: Seq<char>,
    name: Seq<char>,
    close: Seq<char>,
    w: Seq<char>,
    h: Seq<char>,
    k: Seq<char>,
)
    requires
        t == open + "width="@ + w + ",height="@ + h + (" "@ + "! identity name=vgate ! "@ + name) + k
            + (" "@ + close),
    ensures
        holds(t, "width="@ + w + ",height="@ + h + " "@),
        holds(t, name + k + " "@),
{
    let sp = " "@;
    let gate = "! identity name=vgate ! "@;
    let size = "width="@ + w + ",height="@ + h + sp;
    let rate = name + k + sp;
    assert(t =~= open + size + (gate + rate + close));
    lemma_holds(t, open, size, gate + rate + close);
    assert(t =~= (open + size + gate) + rate + close);
    lemma_holds(t, open + size + gate, rate, close);
}

#[verifier::spinoff_prover]
proof fn lemma_encode_holds(p: Pipeline)
    ensures
        holds(
            encode_text(p),
            "width="@ + signed_decimal(p.out_w as int) + ",height="@ + signed_decimal(
                p.out_h as int,
            ) + " "@,
        ),
        holds(
            encode_text(p),
            (match p.encoder {
                Encoder::Gpu => "vah264enc bitrate="@,
                Encoder::Cpu => "x264enc bitrate="@,
            }) + signed_decimal(p.bitrate_kbps as int) + " "@,
        ),
{
    lemma_scaler_ends();
    lemma_encoder_ends();
    lemma_parser_begins();
    let (w, h, k) = (
        signed_decimal(p.out_w as int),
        signed_decimal(p.out_h as int),
        signed_decimal(p.bitrate_kbps as int),
    );
    match p.encoder {
        Encoder::Gpu => {
            lemma_scaled_and_encoded(
                encode_text(p),
                "! vapostproc ! video/x-raw(memory:VAMemory),format=NV12,"@,
                "vah264enc bitrate="@,
                "! h264parse "@,
                w,
                h,
                k,
            );
        },
        Encoder::Cpu => {
            lemma_scaled_and_encoded(
                encode_text(p),
                "! videoconvert ! videoscale ! video/x-raw,format=I420,"@,
                "x264enc bitrate="@,
                "speed-preset=veryfast tune=zerolatency key-int-max=120 ! h264parse "@,
                w,
                h,
                k,
            );
        },
    }
}

/// The pipeline reads the stream of its node, scales to the output's size,
/// encodes at its bitrate with its encoder, and writes to its file.
#[verifier::spinoff_prover]
pub proof fn law_pipeline_does_what_was_planned(
    p: Pipeline,
    crop: Option<(u32, u32, u32, u32)>,
    mic: Option<Seq<char>>,
)
    ensures
        ({
            let line = pipeline_text(p, crop, mic);
            &&& holds(line, "pipewiresrc fd=3 path="@ + signed_decimal(p.node_id as int) + " "@)
            &&& holds(
                line,
                "width="@ + signed_decimal(p.out_w as int) + ",height="@ + signed_decimal(
                    p.out_h as int,
                ) + " "@,
            )
            &&& holds(line, "filesink location="@ + p.location@ + " "@)
            &&& p.encoder == Encoder::Gpu ==> holds(
                line,
                "vah264enc bitrate="@ + signed_decimal(p.bitrate_kbps as int) + " "@,
            )
            &&& p.encoder == Encoder::Cpu ==> holds(
                line,
                "x264enc bitrate="@ + signed_decimal(p.bitrate_kbps as int) + " "@,
            )
        }),
{
    let line = pipeline_text(p, crop, mic);
    let sp = " "@;
    let node = signed_decimal(p.node_id as int);
    let head = source_text(p) + crop_text(p, crop);
    let sound = audio_text(p, mic);
    let tail = "! mux. "@ + "mp4mux name=mux ! filesink location="@ + p.location@ + sp + sound;
    assert(line =~= head + encode_text(p) + tail);
    lemma_encode_holds(p);
    lemma_holds_inside(
        head,
        encode_text(p),
        tail,
        "width="@ + signed_decimal(p.out_w as int) + ",height="@ + signed_decimal(p.out_h as int)
            + sp,
    );
    lemma_holds_inside(
        head,
        encode_text(p),
        tail,
        (match p.encoder {
            Encoder::Gpu => "vah264enc bitrate="@,
            Encoder::Cpu => "x264enc bitrate="@,
        }) + signed_decimal(p.bitrate_kbps as int) + sp,
    );
    lemma_parser_begins();
    let late = "do-timestamp=true ! queue max-size-buffers=8 "@;
    lemma_holds(
        source_text(p),
        Seq::empty(),
        "pipewiresrc fd=3 path="@ + node + sp,
        late,
    );
    let rest = crop_text(p, crop) + encode_text(p) + tail;
    lemma_holds_inside(Seq::empty(), source_text(p), rest, "pipewiresrc fd=3 path="@ + node + sp);
    assert(line =~= Seq::empty() + source_text(p) + rest);
    lemma_holds(
        line,
        head + encode_text(p) + "! mux. "@ + "mp4mux name=mux ! "@,
        "filesink location="@ + p.location@ + sp,
        sound,
    );
}

#[verifier::spinoff_prover]
proof fn lemma_sound_words()
    ensures
        " bitrate=128000 ! aacparse ! mux. "@ == " bitrate=128000 "@ + "! aacparse ! mux. "@,
        "pulsesrc device="@ == "pulsesrc"@ + " device="@,
        "pulsesrc ! "@ == "pulsesrc"@ + " ! "@,
        " ! queue ! audioconvert ! audioresample "@ == " ! "@
            + "queue ! audioconvert ! audioresample "@,
        " ! "@ == " "@ + "! "@,
        " ! queue ! audioconvert ! audioresample ! amix. "@ == " "@
            + "! queue ! audioconvert ! audioresample ! amix. "@,
{
    reveal_strlit(" bitrate=128000 ! aacparse ! mux. ");
    reveal_strlit(" bitrate=128000 ");
    reveal_strlit("! aacparse ! mux. ");
    reveal_strlit("pulsesrc");
    reveal_strlit(" device=");
    reveal_strlit("pulsesrc device=");
    reveal_strlit("pulsesrc ! ");
    reveal_strlit(" ! ");
    reveal_strlit("! ");
    reveal_strlit(" ");
    reveal_strlit(" ! queue ! audioconvert ! audioresample ");
    reveal_strlit("queue ! audioconvert ! audioresample ");
    reveal_strlit(" ! queue ! audioconvert ! audioresample ! amix. ");
    reveal_strlit("! queue ! audioconvert ! audioresample ! amix. ");
    assert(" bitrate=128000 ! aacparse ! mux. "@ =~= " bitrate=128000 "@ + "! aacparse ! mux. "@);
    assert("pulsesrc device="@ =~= "pulsesrc"@ + " device="@);
    assert("pulsesrc ! "@ =~= "pulsesrc"@ + " ! "@);
    assert(" ! queue ! audioconvert ! audioresample "@ =~= " ! "@
        + "queue ! audioconvert ! audioresample "@);
    assert(" ! "@ =~= " "@ + "! "@);
    assert(" ! queue ! audioconvert ! audioresample ! amix. "@ =~= " "@
        + "! queue ! audioconvert ! audioresample ! amix. "@);
}

#[verifier::spinoff_prover]
proof fn lemma_mic_holds(m: Seq<char>, dsp: bool)
    ensures
        m != "default"@ ==> holds(mic_text(Some(m), dsp), "pulsesrc device="@ + m + " "@),
        m == "default"@ ==> holds(mic_text(Some(m), dsp), "pulsesrc ! "@),
        holds(mic_text(Some(m), dsp), "! volume name=vol ! amix. "@),
{
    lemma_sound_words();
    let t = mic_text(Some(m), dsp);
    let vol = "! volume name=vol ! amix. "@;
    let queue = "queue ! audioconvert ! audioresample "@;
    lemma_holds(
        t,
        "pulsesrc"@ + device_text(m) + " ! queue ! audioconvert ! audioresample "@ + dsp_text(dsp),
        vol,
        Seq::empty(),
    );
    if m == "default"@ {
        lemma_holds(t, Seq::empty(), "pulsesrc ! "@, queue + dsp_text(dsp) + vol);
    } else {
        lemma_holds(
            t,
            Seq::empty(),
            "pulsesrc device="@ + m + " "@,
            "! "@ + queue + dsp_text(dsp) + vol,
        );
    }
}

#[verifier::spinoff_prover]
proof fn lemma_audio_holds(p: Pipeline, mic: Option<Seq<char>>)
    requires
        p.aac is Some,
        mic is Some || p.monitor is Some,
    ensures
        holds(audio_text(p, mic), p.aac->0@ + " bitrate=128000 "@),
        mic matches Some(m) ==> {
            &&& m != "default"@ ==> holds(audio_text(p, mic), "pulsesrc device="@ + m + " "@)
            &&& m == "default"@ ==> holds(audio_text(p, mic), "pulsesrc ! "@)
            &&& holds(audio_text(p, mic), "! volume name=vol ! amix. "@)
        },
        p.monitor matches Some(m) ==> holds(audio_text(p, mic), "pulsesrc device="@ + m@ + " "@),
{
    let text = audio_text(p, mic);
    let sp = " "@;
    let aac = p.aac->0;
    let monitor = json::maybe(p.monitor);
    let open = "audiomixer name=amix ! audioconvert ! audioresample ! identity name=agate ! "@;
    let rate = " bitrate=128000 ! aacparse ! mux. "@;
    let (mt, pt) = (mic_text(mic, p.dsp), monitor_text(monitor));
    let before = open + aac@ + rate;
    assert(text == before + mt + pt);
    lemma_sound_words();
    lemma_holds(text, open, aac@ + " bitrate=128000 "@, "! aacparse ! mux. "@ + mt + pt);
    if let Some(m) = mic {
        lemma_mic_holds(m, p.dsp);
        lemma_holds_inside(before, mt, pt, "! volume name=vol ! amix. "@);
        if m == "default"@ {
            lemma_holds_inside(before, mt, pt, "pulsesrc ! "@);
        } else {
            lemma_holds_inside(before, mt, pt, "pulsesrc device="@ + m + sp);
        }
    }
    if let Some(m) = p.monitor {
        lemma_holds(
            text,
            before + mt,
            "pulsesrc device="@ + m@ + sp,
            "! queue ! audioconvert ! audioresample ! amix. "@,
        );
    }
}

proof fn lemma_holds_at_end(a: Seq<char>, s: Seq<char>, part: Seq<char>)
    requires
        holds(s, part),
    ensures
        holds(a + s, part),
{
    lemma_holds_inside(a, s, Seq::empty(), part);
    assert(a + s + Seq::empty() =~= a + s);
}

/// A pipeline has sound if and only if there is a source and an encoder for it:
/// the microphone, whose volume can be set, from the device of its name unless
/// it is the default one, and what the machine plays, from its monitor.
#[verifier::spinoff_prover]
pub proof fn law_pipeline_has_the_wanted_sound(
    p: Pipeline,
    crop: Option<(u32, u32, u32, u32)>,
    mic: Option<Seq<char>>,
)
    ensures
        mic is None && p.monitor is None ==> audio_text(p, mic).len() == 0,
        p.aac is None ==> audio_text(p, mic).len() == 0,
        loses_audio(p, mic) == ((mic is Some || p.monitor is Some) && p.aac is None),
        p.aac matches Some(aac) ==> {
            let line = pipeline_text(p, crop, mic);
            &&& mic is Some || p.monitor is Some ==> holds(line, aac@ + " bitrate=128000 "@)
            &&& mic matches Some(m) ==> {
                &&& m != "default"@ ==> holds(line, "pulsesrc device="@ + m + " "@)
                &&& m == "default"@ ==> holds(line, "pulsesrc ! "@)
                &&& holds(line, "! volume name=vol ! amix. "@)
            }
            &&& p.monitor matches Some(m) ==> holds(line, "pulsesrc device="@ + m@ + " "@)
        },
{
    let line = pipeline_text(p, crop, mic);
    let sound = audio_text(p, mic);
    let head = "pipewiresrc fd=3 path="@ + number(p.node_id as int)
        + " do-timestamp=true ! queue max-size-buffers=8 "@ + crop_text(p, crop) + encode_text(p)
        + "! mux. "@ + "mp4mux name=mux ! filesink location="@ + p.location@ + " "@;
    assert(line == head + sound);
    if p.aac is Some && (mic is Some || p.monitor is Some) {
        lemma_audio_holds(p, mic);
        lemma_holds_at_end(head, sound, p.aac->0@ + " bitrate=128000 "@);
        if let Some(m) = mic {
            lemma_holds_at_end(head, sound, "! volume name=vol ! amix. "@);
            if m == "default"@ {
                lemma_holds_at_end(head, sound, "pulsesrc ! "@);
            } else {
                lemma_holds_at_end(head, sound, "pulsesrc device="@ + m + " "@);
            }
        }
        if let Some(m) = p.monitor {
            lemma_holds_at_end(head, sound, "pulsesrc device="@ + m@ + " "@);
        }
    }
}

/// A recording's clock runs with time unless it is paused, from zero on.
pub proof fn law_recorded_time_runs_with_the_clock(s: RecordingState, a: int, b: int)
    ensures
        !s.paused ==> s.elapsed_at(b) - s.elapsed_at(a) == b - a,
        s.paused ==> s.elapsed_at(b) == s.elapsed_at(a),
        s.accumulated == 0 ==> s.elapsed_at(s.segment_start as int) == 0,
        s.toggled(s.segment_start).paused == !s.paused,
        s.toggled(s.segment_start).muted == s.muted,
        s.toggled(s.segment_start).controllable == s.controllable,
{
}

/// The microphones are all the sources with a name that does not end in
/// `.monitor`, each with its description, or its name where it has none, and
/// nothing else.
pub proof fn law_microphones_are_no_monitors(
    rows: Seq<(Option<Seq<char>>, Option<Seq<char>>)>,
    i: int,
    k: int,
)
    ensures
        0 <= i < rows.len() ==> (rows[i].0 matches Some(name) ==> !text::ends_with(
            name,
            ".monitor"@,
        ) ==> exists|j: int|
            0 <= j < microphones_of(rows).len() && (#[trigger] microphones_of(rows)[j]).0 == name
                && microphones_of(rows)[j].1 == (match rows[i].1 {
                Some(d) => d,
                None => name,
            })),
        0 <= k < microphones_of(rows).len() ==> !text::ends_with(
            microphones_of(rows)[k].0,
            ".monitor"@,
        ) && exists|j: int|
            0 <= j < rows.len() && (#[trigger] rows[j]).0 == Some(microphones_of(rows)[k].0),
        microphones_of(rows).len() <= rows.len(),
    decreases rows.len(),
{
    if rows.len() > 0 {
        let rest = rows.drop_last();
        let n = rows.len() - 1;
        assert(rows[n] == rows.last());
        law_microphones_are_no_monitors(rest, i, k);
        let (old_list, list) = (microphones_of(rest), microphones_of(rows));
        if 0 <= i < n {
            assert(rest[i] == rows[i]);
            if let Some(name) = rows[i].0 {
                if !text::ends_with(name, ".monitor"@) {
                    let j = choose|j: int|
                        0 <= j < old_list.len() && (#[trigger] old_list[j]).0 == name && old_list[j].1
                            == (match rest[i].1 {
                            Some(d) => d,
                            None => name,
                        });
                    assert(list[j] == old_list[j]);
                }
            }
        } else if i == n {
            if let Some(name) = rows[i].0 {
                if !text::ends_with(name, ".monitor"@) {
                    assert(list[old_list.len() as int].0 == name);
                }
            }
        }
        if 0 <= k < old_list.len() {
            assert(list[k] == old_list[k]);
            let j = choose|j: int|
                0 <= j < rest.len() && (#[trigger] rest[j]).0 == Some(old_list[k].0);
            assert(rows[j] == rest[j]);
        }
    }
}

/// The source of what a sink plays is named after the sink and is no
/// microphone.
pub proof fn law_monitor_is_named_after_its_sink(output: Seq<char>)
    ensures
        monitor_of(output) is Some == (text::trim(output).len() > 0),
        monitor_of(output) matches Some(m) ==> m == text::trim(output) + ".monitor"@
            && text::ends_with(m, ".monitor"@),
{
    let sink = text::trim(output);
    let m = sink + ".monitor"@;
    assert(m.subrange(sink.len() as int, m.len() as int) =~= ".monitor"@);
}

/// A path stands in quotes in the pipeline if and only if it holds white space.
pub proof fn law_paths_with_space_are_quoted(path: Seq<char>)
    ensures
        !text::has_white(path) ==> location_text(path) == path,
        text::has_white(path) ==> location_text(path) == seq!['"'] + path + seq!['"'],
{
    reveal_strlit("\"");
    assert("\""@ =~= seq!['"']);
}

/// Voice processing is part of a microphone's chain if and only if it can be
/// used: it suppresses noise and controls the gain.
pub proof fn law_voice_is_processed_if_possible(m: Seq<char>)
    ensures
        dsp_text(false).len() == 0,
        holds(
            mic_text(Some(m), true),
            "webrtcdsp echo-cancel=false noise-suppression=true gain-control=true "@,
        ),
        mic_text(None, true).len() == 0,
{
    lemma_voice_words();
    let t = mic_text(Some(m), true);
    lemma_holds(
        t,
        "pulsesrc"@ + device_text(m) + " ! queue ! audioconvert ! audioresample "@
            + "! audio/x-raw,rate=48000,channels=1,format=S16LE ! "@,
        "webrtcdsp echo-cancel=false noise-suppression=true gain-control=true "@,
        "! audioconvert "@ + "! volume name=vol ! amix. "@,
    );
}

#[verifier::spinoff_prover]
proof fn lemma_voice_words()
    ensures
        dsp_text(true) == "! audio/x-raw,rate=48000,channels=1,format=S16LE ! "@
            + "webrtcdsp echo-cancel=false noise-suppression=true gain-control=true "@
            + "! audioconvert "@,
{
    reveal_strlit(
        "! audio/x-raw,rate=48000,channels=1,format=S16LE ! webrtcdsp echo-cancel=false noise-suppression=true gain-control=true ! audioconvert ",
    );
    reveal_strlit("! audio/x-raw,rate=48000,channels=1,format=S16LE ! ");
    reveal_strlit("webrtcdsp echo-cancel=false noise-suppression=true gain-control=true ");
    reveal_strlit("! audioconvert ");
    assert(dsp_text(true) =~= "! audio/x-raw,rate=48000,channels=1,format=S16LE ! "@
        + "webrtcdsp echo-cancel=false noise-suppression=true gain-control=true "@
        + "! audioconvert "@);
}

/// A recording begins at once, with sound, and has lasted as long as it is
/// since.
pub proof fn law_recording_begins_at_once(controllable: bool, now: i64, later: int)
    ensures
        ({
            let s = RecordingState::begun(controllable, now);
            &&& !s.paused && !s.muted && s.controllable == controllable
            &&& s.elapsed_at(now as int) == 0
            &&& s.elapsed_at(later) == later - now
        }),
{
}

} // verus!
