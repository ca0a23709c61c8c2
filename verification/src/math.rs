//! Whole-number arithmetic: floors, bounds and decimal fractions.
use vstd::prelude::*;
use crate::binary::{
    double_quotient, half_even, lemma_nearest_even, lemma_quotient_close, quotient, DOUBLE,
};
use crate::text;

verus! {

/// The largest whole number at or below `a / b`.
pub fn floor_div(a: i128, b: i128) -> (r: i128)
    requires
        b > 0,
        a > i128::MIN,
        b - a <= i128::MAX,
    ensures
        r == a as int / b as int,
{
    if a >= 0 {
        a / b
    } else {
        let q: i128 = (b - 1 - a) / b;
        proof {
            lemma_floor_negative(a as int, b as int);
        }
        0 - q
    }
}

proof fn lemma_floor_negative(a: int, b: int)
    requires
        b > 0,
        a < 0,
    ensures
        a / b == -((b - 1 - a) / b),
        0 <= (b - 1 - a) / b <= b - 1 - a,
{
    let q = (b - 1 - a) / b;
    assert(a / b == -q && 0 <= q <= b - 1 - a) by (nonlinear_arith)
        requires
            b > 0,
            a < 0,
            q == (b - 1 - a) / b,
    ;
}

pub open spec fn min_of(a: int, b: int) -> int {
    if a < b {
        a
    } else {
        b
    }
}

pub open spec fn max_of(a: int, b: int) -> int {
    if a < b {
        b
    } else {
        a
    }
}

pub open spec fn abs_of(a: int) -> int {
    if a < 0 {
        -a
    } else {
        a
    }
}

pub fn min_i64(a: i64, b: i64) -> (r: i64)
    ensures
        r == min_of(a as int, b as int),
{
    if a < b {
        a
    } else {
        b
    }
}

pub fn max_i64(a: i64, b: i64) -> (r: i64)
    ensures
        r == max_of(a as int, b as int),
{
    if a < b {
        b
    } else {
        a
    }
}

pub fn abs_i64(a: i64) -> (r: i64)
    requires
        a > i64::MIN,
    ensures
        r == abs_of(a as int),
{
    if a < 0 {
        0 - a
    } else {
        a
    }
}

/// The nearest whole number to `a / b` for `a >= 0`; halves are rounded up.
pub open spec fn nearest(a: int, b: int) -> int {
    (2 * a + b) / (2 * b)
}

/// The nearest whole number to `a / b` for `a >= 0`; halves are rounded to the
/// even one.
pub open spec fn nearest_even(a: int, b: int) -> int {
    let q = a / b;
    let rest = 2 * (a % b);
    if rest > b || (rest == b && q % 2 == 1) {
        q + 1
    } else {
        q
    }
}

/// `n / unit`, kept to 53 binary digits, with `places` decimals (`power` is ten
/// to that), rounded to the nearest; halves to the even last digit.
pub open spec fn fixed_text(n: int, unit: int, power: int, places: nat) -> Seq<char> {
    let (m, e) = quotient(abs_of(n), unit, DOUBLE as int);
    let v = nearest_even(m * power, e);
    let sign = if n < 0 {
        seq!['-']
    } else {
        Seq::empty()
    };
    if places == 0 {
        sign + text::decimal(v as nat)
    } else {
        sign + text::decimal((v / power) as nat) + seq!['.'] + text::zero_pad(
            text::decimal((v % power) as nat),
            places,
        )
    }
}

/// The text of `n / unit` with `places` decimals.
pub fn fixed_chars(n: i64, unit: i64, power: u64, places: usize) -> (r: Vec<char>)
    requires
        0 < unit <= 0x1000_0000_0000,
        0 < power <= 1_000_000,
        abs_of(n as int) * power <= 0x1000_0000_0000_0000 * unit,
    ensures
        r@ == fixed_text(n as int, unit as int, power as int, places as nat),
{
    let size: u64 = if n < 0 {
        (0 - n as i128) as u64
    } else {
        n as u64
    };
    let (m, e) = double_quotient(size, unit as u64);
    proof {
        assert(0 <= m * power <= 0x2_0000_0000_0000_0000 * 1_000_000) by (nonlinear_arith)
            requires
                0 <= m <= 0x2_0000_0000_0000_0000,
                0 < power <= 1_000_000,
        ;
    }
    let a: u128 = m * power as u128;
    let v: u128 = half_even(a, e);
    proof {
        lemma_nearest_even(a as int, e as int);
        lemma_fixed(size as int, unit as int, power as int, m as int, e as int, v as int);
    }
    let mut out: Vec<char> = Vec::new();
    if n < 0 {
        out.push('-');
    }
    if places == 0 {
        let d = text::decimal_chars(v as u64);
        text::append_chars(&mut out, d.as_slice());
    } else {
        let v: u64 = v as u64;
        let whole = text::decimal_chars(v / power);
        text::append_chars(&mut out, whole.as_slice());
        out.push('.');
        let part = text::padded_chars(v % power, places);
        text::append_chars(&mut out, part.as_slice());
    }
    assert(out@ =~= fixed_text(n as int, unit as int, power as int, places as nat));
    out
}

proof fn lemma_fixed(n: int, unit: int, power: int, m: int, e: int, v: int)
    requires
        0 < unit,
        0 < power,
        0 < e,
        0 <= n,
        n * power <= 0x1000_0000_0000_0000 * unit,
        m * unit <= 2 * (n * e),
        v * e <= m * power + e,
    ensures
        v <= 0x2000_0000_0000_0001,
{
    // m * power <= 2 * n * power / unit * e
    assert((m * power) * unit <= 2 * ((n * power) * e)) by (nonlinear_arith)
        requires
            m * unit <= 2 * (n * e),
            power > 0,
    {
        assert((m * unit) * power <= (2 * (n * e)) * power);
    }
    assert((n * power) * e <= (0x1000_0000_0000_0000 * unit) * e) by (nonlinear_arith)
        requires
            n * power <= 0x1000_0000_0000_0000 * unit,
            e > 0,
    ;
    assert(m * power <= 0x2000_0000_0000_0000 * e) by (nonlinear_arith)
        requires
            (m * power) * unit <= 2 * ((0x1000_0000_0000_0000 * unit) * e),
            unit > 0,
    {
        assert((m * power) * unit <= (0x2000_0000_0000_0000 * e) * unit);
    }
    assert(v <= 0x2000_0000_0000_0001) by (nonlinear_arith)
        requires
            v * e <= 0x2000_0000_0000_0000 * e + e,
            e > 0,
    ;
}

/// Seconds with one decimal, of a time in nanoseconds.
pub open spec fn seconds_text(t: int) -> Seq<char> {
    fixed_text(t, 1_000_000_000, 10, 1)
}

pub fn seconds_chars(t: i64) -> (r: Vec<char>)
    ensures
        r@ == seconds_text(t as int),
{
    fixed_chars(t, 1_000_000_000, 10, 1)
}

/// A number of units is written as the nearest decimal: where it lies closer
/// than half of the last digit to `k` of them, `k` is shown, with a point
/// before its last digits and a sign if it is negative.
pub proof fn law_fixed_text_shows_the_nearest(n: int, unit: int, power: int, places: nat, k: int)
    requires
        0 < unit,
        0 < power,
        0 <= k,
        abs_of(n) * power <= 0x100_0000_0000 * unit,
        -999 * unit <= 2000 * (abs_of(n) * power - k * unit) <= 999 * unit,
    ensures
        fixed_text(n, unit, power, places) == (if n < 0 {
            seq!['-']
        } else {
            Seq::empty()
        }) + (if places == 0 {
            text::decimal(k as nat)
        } else {
            text::decimal((k / power) as nat) + seq!['.'] + text::zero_pad(
                text::decimal((k % power) as nat),
                places,
            )
        }),
{
    let a = abs_of(n);
    let half = DOUBLE as int;
    assert(a <= a * power) by (nonlinear_arith)
        requires
            a >= 0,
            power >= 1,
    ;
    assert(a < unit * half) by (nonlinear_arith)
        requires
            a <= 0x100_0000_0000 * unit,
            half == 0x10_0000_0000_0000,
            unit > 0,
    ;
    lemma_quotient_close(a, unit, half);
    let (m, e) = quotient(a, unit, half);
    let v = nearest_even(m * power, e);
    assert(m * power >= 0) by (nonlinear_arith)
        requires
            m >= 0,
            power > 0,
    ;
    let p = m * power;
    let q = p / e;
    assert(p == q * e + p % e && 0 <= p % e < e) by (nonlinear_arith)
        requires
            q == p / e,
            e >= 1,
    ;
    assert((q + 1) * e == q * e + e) by (nonlinear_arith);
    assert(-e <= 2 * (v * e - p) <= e);
    lemma_shows(a, unit, power, half, m, e, v, k);
    assert(fixed_text(n, unit, power, places) =~= (if n < 0 {
        seq!['-']
    } else {
        Seq::empty()
    }) + (if places == 0 {
        text::decimal(k as nat)
    } else {
        text::decimal((k / power) as nat) + seq!['.'] + text::zero_pad(
            text::decimal((k % power) as nat),
            places,
        )
    }));
}

#[verifier::spinoff_prover]
proof fn lemma_shows(
    a: int,
    unit: int,
    power: int,
    half: int,
    m: int,
    e: int,
    v: int,
    k: int,
)
    requires
        0 <= a,
        0 < unit,
        0 < power,
        1 <= e,
        0 <= m,
        half == 0x10_0000_0000_0000,
        -unit <= 2 * (m * unit - a * e) <= unit,
        a > 0 ==> a * e >= unit * half,
        -e <= 2 * (v * e - m * power) <= e,
        a * power <= 0x100_0000_0000 * unit,
        -999 * unit <= 2000 * (a * power - k * unit) <= 999 * unit,
    ensures
        v == k,
{
    let gap = v * unit - a * power;
    let (x, y) = (v * e - m * power, m * unit - a * e);
    assert(e * gap == unit * x + power * y) by (nonlinear_arith)
        requires
            gap == v * unit - a * power,
            x == v * e - m * power,
            y == m * unit - a * e,
    ;
    assert(-(unit * e) <= 2 * (unit * x) <= unit * e) by (nonlinear_arith)
        requires
            -e <= 2 * x <= e,
            unit > 0,
    ;
    if a == 0 {
        assert(a * e == 0 && a * power == 0) by (nonlinear_arith)
            requires
                a == 0,
        ;
        assert(m == 0) by (nonlinear_arith)
            requires
                -unit <= 2 * (m * unit) <= unit,
                unit > 0,
                m >= 0,
        ;
        assert(v == 0) by (nonlinear_arith)
            requires
                -e <= 2 * (v * e - m * power) <= e,
                m == 0,
                e >= 1,
        ;
        assert(k == 0) by (nonlinear_arith)
            requires
                -999 * unit <= 2000 * (0 - k * unit) <= 999 * unit,
                unit > 0,
        ;
    } else {
        assert(-(power * unit) <= 2 * (power * y) <= power * unit) by (nonlinear_arith)
            requires
                -unit <= 2 * y <= unit,
                power > 0,
        ;
        assert((power * unit) * half <= (a * power) * e) by (nonlinear_arith)
            requires
                unit * half <= a * e,
                power > 0,
        ;
        assert((a * power) * e <= (0x100_0000_0000 * unit) * e) by (nonlinear_arith)
            requires
                a * power <= 0x100_0000_0000 * unit,
                e >= 1,
        ;
        let ue = unit * e;
        assert((0x100_0000_0000 * unit) * e == 0x100_0000_0000 * ue) by (nonlinear_arith)
            requires
                ue == unit * e,
        ;
        assert(0x1000 * (power * unit) <= ue);
        assert(-(4097 * ue) <= 8192 * (e * gap) <= 4097 * ue);
        let (up, down) = (4097 * unit - 8192 * gap, 4097 * unit + 8192 * gap);
        assert(e * up == 4097 * ue - 8192 * (e * gap) && e * down == 4097 * ue + 8192 * (e * gap))
            by (nonlinear_arith)
            requires
                up == 4097 * unit - 8192 * gap,
                down == 4097 * unit + 8192 * gap,
                ue == unit * e,
        ;
        assert(up >= 0) by (nonlinear_arith)
            requires
                e * up >= 0,
                e >= 1,
        ;
        assert(down >= 0) by (nonlinear_arith)
            requires
                e * down >= 0,
                e >= 1,
        ;
        let off = a * power - k * unit;
        assert((v - k) * unit == gap + off) by (nonlinear_arith)
            requires
                gap == v * unit - a * power,
                off == a * power - k * unit,
        ;
        let d = v - k;
        assert(-unit < d * unit < unit);
        assert(d == 0) by (nonlinear_arith)
            requires
                -unit < d * unit < unit,
        ;
    }
}

} // verus!
