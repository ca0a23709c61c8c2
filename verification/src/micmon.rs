//! The microphone check: its pipeline, and the levels it reports.
use vstd::prelude::*;
use crate::error::owned;
use crate::record::{device_text, dsp_text, mic_dsp, push_device};
use crate::text;

verus! {

/// Everything below this reads as silence, in billionths of a decibel.
pub const FLOOR_DB: i64 = -60_000_000_000;

/// The pipeline of a microphone check.
pub open spec fn check_text(device: Option<Seq<char>>, dsp: bool, monitor: bool) -> Seq<char> {
    "pulsesrc"@ + (match device {
        Some(d) => device_text(d),
        None => Seq::empty(),
    }) + " buffer-time=50000 latency-time=10000 ! queue ! audioconvert ! audioresample "@ + dsp_text(
        dsp,
    ) + "! level interval=50000000 ! audioconvert ! audioresample ! "@ + (if monitor {
        "autoaudiosink sync=false"@
    } else {
        "fakesink sync=false"@
    })
}

/// The pipeline that meters `device` (the default one if it is `default` or
/// missing), and with `monitor` plays it back.
pub fn check_line(device: Option<&str>, dsp: bool, monitor: bool) -> (r: String)
    ensures
        r@ == check_text(
            match device {
                Some(d) => Some(d@),
                None => None,
            },
            dsp,
            monitor,
        ),
{
    let mut line = owned("pulsesrc");
    if let Some(d) = device {
        push_device(&mut line, d);
    }
    line.append(" buffer-time=50000 latency-time=10000 ! queue ! audioconvert ! audioresample ");
    line.append(mic_dsp(dsp));
    line.append("! level interval=50000000 ! audioconvert ! audioresample ! ");
    if monitor {
        line.append("autoaudiosink sync=false");
    } else {
        line.append("fakesink sync=false");
    }
    assert(line@ =~= check_text(
        match device {
            Some(d) => Some(d@),
            None => None,
        },
        dsp,
        monitor,
    ));
    line
}

/// The first entry of the list `key< a, b, ... >` in a line.
pub open spec fn list_head(line: Seq<char>, key: Seq<char>) -> Option<Seq<char>> {
    match text::split_once(line, key) {
        Some((_, rest)) => match (text::find(rest, seq!['<']), text::find(rest, seq!['>'])) {
            (Some(a), Some(b)) => if a + 1 <= b {
                Some(text::trim(text::split(rest.subrange(a + 1, b), seq![','])[0]))
            } else {
                None
            },
            _ => None,
        },
        None => None,
    }
}

/// A level in billionths of a decibel. Minus infinity is silence.
pub open spec fn level_value(s: Seq<char>) -> Option<int> {
    if text::lower(s) == "-inf"@ || text::lower(s) == "-infinity"@ {
        Some(FLOOR_DB as int)
    } else {
        match text::parse_billionths(s) {
            Some(v) => if i64::MIN <= v <= i64::MAX {
                Some(v)
            } else {
                None
            },
            None => None,
        }
    }
}

/// The level of the first channel under `key`.
pub open spec fn level_of(line: Seq<char>, key: Seq<char>) -> Option<int> {
    match list_head(line, key) {
        Some(s) => level_value(s),
        None => None,
    }
}

fn find_head(line: &[char], key: &[char]) -> (r: Option<Vec<char>>)
    ensures
        match r {
            Some(s) => list_head(line@, key@) == Some(s@),
            None => list_head(line@, key@) is None,
        },
{
    let lt: Vec<char> = vec!['<'];
    let gt: Vec<char> = vec!['>'];
    let comma: Vec<char> = vec![','];
    assert(lt@ =~= seq!['<']);
    assert(gt@ =~= seq!['>']);
    assert(comma@ =~= seq![',']);
    match text::split_at_first(line, key) {
        None => None,
        Some((_, rest)) => match (
            text::find_chars(rest.as_slice(), lt.as_slice(), 0),
            text::find_chars(rest.as_slice(), gt.as_slice(), 0),
        ) {
            (Some(a), Some(b)) => {
                if a >= b {
                    return None;
                }
                let list = text::copy_range(rest.as_slice(), a + 1, b);
                let items = text::split_chars(list.as_slice(), comma.as_slice());
                assert(text::views(items@)[0] == items@[0]@);
                Some(text::trimmed(items[0].as_slice()))
            },
            _ => None,
        },
    }
}

/// The first channel's value of a `key=(GValueArray)< v0, v1, ... >` field of
/// a level message, in billionths of a decibel.
pub fn first_db(line: &str, key: &str) -> (r: Option<i64>)
    ensures
        match r {
            Some(v) => level_of(line@, key@) == Some(v as int),
            None => level_of(line@, key@) is None,
        },
{
    let l = text::to_chars(line);
    let k = text::to_chars(key);
    match find_head(l.as_slice(), k.as_slice()) {
        None => None,
        Some(s) => {
            let low = text::lowered(s.as_slice());
            let short = text::to_chars("-inf");
            let long = text::to_chars("-infinity");
            if text::same_chars(low.as_slice(), short.as_slice()) || text::same_chars(
                low.as_slice(),
                long.as_slice(),
            ) {
                return Some(FLOOR_DB);
            }
            match text::read_billionths(s.as_slice()) {
                Some(v) => if v < i64::MIN as i128 || v > i64::MAX as i128 {
                    None
                } else {
                    Some(v as i64)
                },
                None => None,
            }
        },
    }
}

/// The levels (average and peak) after a line of the meter's output: those of
/// a level message that has both, else the old ones.
pub fn next_level(level: (i64, i64), line: &str) -> (r: (i64, i64))
    ensures
        r == level_after(level, line@),
{
    let l = text::to_chars(line);
    let mark = text::to_chars("level,");
    if !text::has_chars(l.as_slice(), mark.as_slice()) {
        return level;
    }
    match (first_db(line, "rms="), first_db(line, "peak=")) {
        (Some(rms), Some(peak)) => (rms, peak),
        _ => level,
    }
}

/// The level after a line of the meter: that which it tells, if it tells one.
pub open spec fn level_after(level: (i64, i64), line: Seq<char>) -> (i64, i64) {
    match (level_of(line, "rms="@), level_of(line, "peak="@)) {
        (Some(rms), Some(peak)) => if text::contains(line, "level,"@) {
            (rms as i64, peak as i64)
        } else {
            level
        },
        _ => level,
    }
}

/// A line that tells both the mean and the peak gives the level, the mean
/// first. Any other line leaves it as it was.
pub proof fn law_levels_come_from_their_lines(level: (i64, i64), line: Seq<char>, rms: i64, peak: i64)
    ensures
        text::contains(line, "level,"@) && level_of(line, "rms="@) == Some(rms as int) && level_of(
            line,
            "peak="@,
        ) == Some(peak as int) ==> level_after(level, line) == (rms, peak),
        !text::contains(line, "level,"@) || level_of(line, "rms="@) is None || level_of(
            line,
            "peak="@,
        ) is None ==> level_after(level, line) == level,
{
}

/// The value of a key is the first of the list that follows it in angle
/// brackets.
pub proof fn law_first_of_the_list_is_read(
    before: Seq<char>,
    key: Seq<char>,
    note: Seq<char>,
    head: Seq<char>,
    more: Seq<char>,
    after: Seq<char>,
)
    requires
        key.len() > 0,
        forall|j: int|
            0 <= j < before.len() ==> !text::matches_at(
                before + key + (note + seq!['<'] + head + more + seq!['>'] + after),
                key,
                j,
            ),
        forall|j: int| 0 <= j < note.len() ==> note[j] != '<' && note[j] != '>',
        forall|j: int| 0 <= j < head.len() ==> head[j] != '>' && head[j] != ',',
        forall|j: int| 0 <= j < more.len() ==> more[j] != '>',
        more.len() == 0 || more[0] == ',',
    ensures
        list_head(before + key + (note + seq!['<'] + head + more + seq!['>'] + after), key) == Some(
            text::trim(head),
        ),
{
    let rest = note + seq!['<'] + head + more + seq!['>'] + after;
    text::lemma_split_next(before, key, rest);
    let a = note.len() as int;
    let b = (note + seq!['<'] + head + more).len() as int;
    assert(rest.subrange(a, a + 1) =~= seq!['<']);
    assert(rest.subrange(b, b + 1) =~= seq!['>']);
    assert forall|j: int| 0 <= j < a implies !text::matches_at(rest, seq!['<'], j) by {
        if text::matches_at(rest, seq!['<'], j) {
            text::lemma_match_char(rest, seq!['<'], j, 0);
        }
    }
    assert forall|j: int| 0 <= j < b implies !text::matches_at(rest, seq!['>'], j) by {
        if text::matches_at(rest, seq!['>'], j) {
            text::lemma_match_char(rest, seq!['>'], j, 0);
            if j < a {
                assert(rest[j] == note[j]);
            } else if j > a && j < a + 1 + head.len() {
                assert(rest[j] == head[j - a - 1]);
            } else if j > a {
                assert(rest[j] == more[j - a - 1 - head.len()]);
            }
        }
    }
    text::lemma_find_is(rest, seq!['<'], a);
    text::lemma_find_is(rest, seq!['>'], b);
    let inner = rest.subrange(a + 1, b);
    assert(inner =~= head + more);
    if more.len() == 0 {
        assert(inner =~= head);
        assert forall|j: int| 0 <= j implies !text::matches_at(head, seq![','], j) by {
            if text::matches_at(head, seq![','], j) {
                text::lemma_match_char(head, seq![','], j, 0);
            }
        }
        text::lemma_split_none(head, seq![',']);
    } else {
        let tail = more.skip(1);
        assert(inner =~= head + seq![','] + tail);
        assert forall|j: int| 0 <= j < head.len() implies !text::matches_at(
            head + seq![','] + tail,
            seq![','],
            j,
        ) by {
            if text::matches_at(head + seq![','] + tail, seq![','], j) {
                text::lemma_match_char(head + seq![','] + tail, seq![','], j, 0);
                assert((head + seq![','] + tail)[j] == head[j]);
            }
        }
        text::lemma_split_next(head, seq![','], tail);
    }
}

/// Silence is the lowest level, and any other number is its own.
pub proof fn law_silence_is_the_floor(s: Seq<char>, v: int)
    requires
        i64::MIN <= v <= i64::MAX,
    ensures
        text::lower(s) == "-inf"@ ==> level_value(s) == Some(-60_000_000_000int),
        text::lower(s) != "-inf"@ && text::lower(s) != "-infinity"@ && text::parse_billionths(s)
            == Some(v) ==> level_value(s) == Some(v),
{
}

/// The check reads the picked device, measures its level twenty times a second
/// and plays it only if it is to be heard.
pub proof fn law_check_listens_to_the_device(device: Option<Seq<char>>, dsp: bool, monitor: bool)
    ensures
        ({
            let line = check_text(device, dsp, monitor);
            &&& crate::record::holds(line, "! level interval=50000000 "@)
            &&& monitor ==> crate::record::holds(line, "autoaudiosink sync=false"@)
            &&& !monitor ==> crate::record::holds(line, "fakesink sync=false"@)
            &&& device matches Some(d) ==> (d != "default"@ ==> crate::record::holds(
                line,
                "pulsesrc"@ + " device="@ + d,
            ))
        }),
{
    reveal_strlit("! level interval=50000000 ! audioconvert ! audioresample ! ");
    reveal_strlit("! level interval=50000000 ");
    let line = check_text(device, dsp, monitor);
    let level = "! level interval=50000000 ! audioconvert ! audioresample ! "@;
    let short = "! level interval=50000000 "@;
    let source = match device {
        Some(d) => device_text(d),
        None => Seq::empty(),
    };
    let buffer = " buffer-time=50000 latency-time=10000 ! queue ! audioconvert ! audioresample "@;
    let sink = if monitor {
        "autoaudiosink sync=false"@
    } else {
        "fakesink sync=false"@
    };
    let head = "pulsesrc"@ + source + buffer + dsp_text(dsp);
    assert(line =~= head + level + sink);
    assert(level =~= short + level.skip(short.len() as int));
    let rest = level.skip(short.len() as int) + sink;
    assert(line =~= (head + short) + rest);
    assert(crate::record::holds(line, short));
    assert(line =~= (head + level + sink) + Seq::empty());
    assert(line == ((head + level) + sink) + Seq::empty());
    assert(crate::record::holds(line, sink));
    if let Some(d) = device {
        if d != "default"@ {
            let part = "pulsesrc"@ + " device="@ + d;
            let tail = buffer + dsp_text(dsp) + level + sink;
            assert(line =~= (Seq::empty() + part) + tail);
            assert(crate::record::holds(line, part));
        }
    }
}

} // verus!
