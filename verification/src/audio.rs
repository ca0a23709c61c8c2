//! Waveform peaks of an audio track.
use vstd::prelude::*;
use crate::video::SECOND;

verus! {

/// The waveform of a track: the lowest and the highest sample of each
/// stretch, and the duration in nanoseconds. Without audio it is empty.
#[derive(Debug)]
pub struct PeakData {
    pub peaks: Vec<(i16, i16)>,
    pub duration: i64,
}

pub const MIN_BUCKETS: usize = 1000;

pub const MAX_BUCKETS: usize = 2000;

/// The number of stretches to aim for.
pub open spec fn bucket_count(target: int) -> int {
    if target < MIN_BUCKETS {
        MIN_BUCKETS as int
    } else if target > MAX_BUCKETS {
        MAX_BUCKETS as int
    } else {
        target
    }
}

/// The number of samples in a stretch.
pub open spec fn bucket_size(samples: int, target: int) -> int {
    let n = samples / bucket_count(target);
    if n < 1 {
        1
    } else {
        n
    }
}

/// The lowest sample, at most zero.
pub open spec fn lowest(s: Seq<i16>) -> i16
    decreases s.len(),
{
    if s.len() == 0 {
        0
    } else {
        let rest = lowest(s.drop_last());
        if s.last() < rest {
            s.last()
        } else {
            rest
        }
    }
}

/// The highest sample, at least zero.
pub open spec fn highest(s: Seq<i16>) -> i16
    decreases s.len(),
{
    if s.len() == 0 {
        0
    } else {
        let rest = highest(s.drop_last());
        if s.last() > rest {
            s.last()
        } else {
            rest
        }
    }
}

/// The peaks of consecutive stretches of `size` samples, the last of which may
/// be shorter.
pub open spec fn peaks_of(s: Seq<i16>, size: int) -> Seq<(i16, i16)>
    decreases s.len(),
{
    if s.len() == 0 || size <= 0 {
        Seq::empty()
    } else if s.len() <= size {
        seq![(lowest(s), highest(s))]
    } else {
        seq![(lowest(s.take(size)), highest(s.take(size)))] + peaks_of(s.skip(size), size)
    }
}

/// The duration of that many samples at a rate per second, in nanoseconds.
pub open spec fn samples_ns(samples: int, rate: int) -> int {
    samples * SECOND / (if rate < 1 {
        1
    } else {
        rate
    })
}

/// The peaks of a stretch lie around every sample in it.
pub proof fn law_peaks_bound_samples(s: Seq<i16>, i: int)
    requires
        0 <= i < s.len(),
    ensures
        lowest(s) <= s[i] <= highest(s),
        lowest(s) <= 0 <= highest(s),
    decreases s.len(),
{
    reveal_with_fuel(lowest, 2);
    reveal_with_fuel(highest, 2);
    if i < s.len() - 1 {
        assert(s.drop_last()[i] == s[i]);
        law_peaks_bound_samples(s.drop_last(), i);
    } else if s.len() > 1 {
        law_peaks_bound_samples(s.drop_last(), 0);
    }
}

fn range_peak(samples: &Vec<i16>, from: usize, to: usize) -> (r: (i16, i16))
    requires
        from <= to <= samples@.len(),
    ensures
        r == (
            lowest(samples@.subrange(from as int, to as int)),
            highest(samples@.subrange(from as int, to as int)),
        ),
{
    let mut lo: i16 = 0;
    let mut hi: i16 = 0;
    let mut i: usize = from;
    while i < to
        invariant
            from <= i <= to <= samples@.len(),
            lo == lowest(samples@.subrange(from as int, i as int)),
            hi == highest(samples@.subrange(from as int, i as int)),
        decreases to - i,
    {
        let s: i16 = samples[i];
        assert(samples@.subrange(from as int, i + 1).drop_last() =~= samples@.subrange(
            from as int,
            i as int,
        ));
        if s < lo {
            lo = s;
        }
        if s > hi {
            hi = s;
        }
        i += 1;
    }
    (lo, hi)
}

/// The waveform of a track of mono samples, in about `target_buckets`
/// stretches (1000 to 2000).
pub fn peak_data(samples: &Vec<i16>, sample_rate: u32, target_buckets: usize) -> (r: PeakData)
    requires
        samples_ns(samples@.len() as int, sample_rate as int) <= i64::MAX,
    ensures
        r.peaks@ == peaks_of(
            samples@,
            bucket_size(samples@.len() as int, target_buckets as int),
        ),
        r.duration == samples_ns(samples@.len() as int, sample_rate as int),
{
    let buckets: usize = if target_buckets < MIN_BUCKETS {
        MIN_BUCKETS
    } else if target_buckets > MAX_BUCKETS {
        MAX_BUCKETS
    } else {
        target_buckets
    };
    let n: usize = samples.len();
    let size: usize = if n / buckets < 1 {
        1
    } else {
        n / buckets
    };
    let mut peaks: Vec<(i16, i16)> = Vec::new();
    let mut at: usize = 0;
    assert(samples@.skip(0) =~= samples@);
    assert(peaks@ + peaks_of(samples@, size as int) =~= peaks_of(samples@, size as int));
    while at < n
        invariant
            n == samples@.len(),
            size > 0,
            at <= n,
            peaks@ + peaks_of(samples@.skip(at as int), size as int) == peaks_of(
                samples@,
                size as int,
            ),
        decreases n - at,
    {
        let ghost rest = samples@.skip(at as int);
        let ghost before = peaks@;
        let to: usize = if n - at <= size {
            n
        } else {
            at + size
        };
        peaks.push(range_peak(samples, at, to));
        proof {
            if n - at <= size {
                assert(samples@.subrange(at as int, to as int) =~= rest);
                assert(samples@.skip(to as int).len() == 0);
                assert(peaks_of(samples@.skip(to as int), size as int).len() == 0);
            } else {
                assert(samples@.subrange(at as int, to as int) =~= rest.take(size as int));
                assert(samples@.skip(to as int) =~= rest.skip(size as int));
            }
            assert(peaks@ + peaks_of(samples@.skip(to as int), size as int) =~= before + peaks_of(
                rest,
                size as int,
            ));
        }
        at = to;
    }
    assert(peaks_of(samples@.skip(at as int), size as int).len() == 0);
    assert(peaks@ + peaks_of(samples@.skip(at as int), size as int) =~= peaks@);
    let rate: u32 = if sample_rate < 1 {
        1
    } else {
        sample_rate
    };
    let duration: u128 = n as u128 * SECOND as u128 / rate as u128;
    PeakData { peaks, duration: duration as i64 }
}

/// The lowest and the highest sample are samples, or zero.
pub proof fn law_peaks_are_reached(s: Seq<i16>)
    ensures
        lowest(s) == 0 || exists|i: int| 0 <= i < s.len() && #[trigger] s[i] == lowest(s),
        highest(s) == 0 || exists|i: int| 0 <= i < s.len() && #[trigger] s[i] == highest(s),
    decreases s.len(),
{
    if s.len() > 0 {
        let rest = s.drop_last();
        law_peaks_are_reached(rest);
        assert(s[s.len() - 1] == s.last());
        if lowest(s) != 0 && lowest(s) != s.last() {
            let i = choose|i: int| 0 <= i < rest.len() && #[trigger] rest[i] == lowest(rest);
            assert(s[i] == rest[i]);
        }
        if highest(s) != 0 && highest(s) != s.last() {
            let i = choose|i: int| 0 <= i < rest.len() && #[trigger] rest[i] == highest(rest);
            assert(s[i] == rest[i]);
        }
    }
}

/// Peak `k` is that of the samples from `k * size` on, `size` of them or as
/// many as are left. No sample is left out.
pub proof fn law_peaks_take_samples_in_turn(s: Seq<i16>, size: int, k: int)
    requires
        size > 0,
        0 <= k < peaks_of(s, size).len(),
    ensures
        (peaks_of(s, size).len() - 1) * size < s.len() <= peaks_of(s, size).len() * size,
        0 <= k * size < s.len(),
        ({
            let to = if (k + 1) * size < s.len() {
                (k + 1) * size
            } else {
                s.len() as int
            };
            let bucket = s.subrange(k * size, to);
            peaks_of(s, size)[k] == (lowest(bucket), highest(bucket))
        }),
    decreases s.len(),
{
    let all = peaks_of(s, size);
    if s.len() <= size {
        assert(s.subrange(0, s.len() as int) =~= s);
        assert(k == 0 && all.len() == 1);
        assert(k * size == 0 && (k + 1) * size == size && (all.len() - 1) * size == 0 && all.len()
            * size == size) by (nonlinear_arith)
            requires
                k == 0,
                all.len() == 1,
        ;
    } else {
        let rest = s.skip(size);
        let more = peaks_of(rest, size);
        assert(all == seq![(lowest(s.take(size)), highest(s.take(size)))] + more);
        assert(more.len() > 0);
        let n = more.len() as int;
        assert(all.len() == n + 1);
        law_peaks_take_samples_in_turn(
            rest,
            size,
            if k > 0 {
                k - 1
            } else {
                0
            },
        );
        assert((n + 1) * size == n * size + size && (n + 1 - 1) * size == (n - 1) * size + size)
            by (nonlinear_arith);
        if k > 0 {
            assert(k * size == (k - 1) * size + size && (k + 1) * size == k * size + size)
                by (nonlinear_arith);
            let to = if (k + 1) * size < s.len() {
                (k + 1) * size
            } else {
                s.len() as int
            };
            assert(rest.subrange((k - 1) * size, to - size) =~= s.subrange(k * size, to));
            assert(all[k] == more[k - 1]);
        } else {
            assert(k * size == 0 && (k + 1) * size == size) by (nonlinear_arith)
                requires
                    k == 0,
            ;
            assert(s.subrange(0, size) =~= s.take(size));
        }
    }
}

/// There are at least a thousand peaks of a sound that has as many samples, and
/// its duration is that of its samples, cut to a nanosecond.
pub proof fn law_duration_is_that_of_the_samples(samples: int, rate: int, target: int)
    requires
        samples >= 0,
        rate >= 1,
    ensures
        samples_ns(samples, rate) * rate <= samples * 1_000_000_000 < (samples_ns(samples, rate) + 1)
            * rate,
        1000 <= bucket_count(target) <= 2000,
        1000 <= target <= 2000 ==> bucket_count(target) == target,
        bucket_size(samples, target) >= 1,
        samples >= 2000 ==> bucket_size(samples, target) * bucket_count(target) <= samples < (
        bucket_size(samples, target) + 1) * bucket_count(target),
{
    let n = samples_ns(samples, rate);
    let v = samples * SECOND;
    assert(n * rate <= v < (n + 1) * rate) by (nonlinear_arith)
        requires
            n == v / rate,
            rate >= 1,
    ;
    let c = bucket_count(target);
    let q = samples / c;
    assert(q * c <= samples < (q + 1) * c) by (nonlinear_arith)
        requires
            q == samples / c,
            c >= 1,
    ;
    if samples >= 2000 {
        assert(q >= 1) by (nonlinear_arith)
            requires
                samples < (q + 1) * c,
                samples >= 2000,
                1 <= c <= 2000,
        ;
    }
}

} // verus!
