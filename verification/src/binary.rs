//! Fractions kept to a number of binary digits: every quotient and product is
//! rounded to the nearest one that has so many, halves to the even last digit.
//! A number of digits is given as the smallest number that has it.
use vstd::prelude::*;
use crate::math::{nearest, nearest_even};

verus! {

/// The smallest number of 53 binary digits.
pub const DOUBLE: u64 = 4_503_599_627_370_496;

/// The smallest number of 24 binary digits.
pub const SINGLE: u64 = 8_388_608;

/// `n / d` for a quotient with too few digits before the point, as a
/// numerator of so many digits and a power of two.
pub open spec fn widened(n: int, d: int, half: int) -> (int, int)
    decreases 2 * (d * half) - n,
{
    if n <= 0 || n >= d * half {
        (nearest_even(n, d), 1)
    } else {
        let (m, e) = widened(2 * n, d, half);
        (m, 2 * e)
    }
}

/// `n / d` for a quotient with enough digits before the point: those that
/// are too many become zeros.
pub open spec fn narrowed(n: int, d: int, half: int) -> int
    decreases n - d,
{
    if d <= 0 || half <= 0 || n < 2 * (d * half) {
        nearest_even(n, d)
    } else {
        proof {
            assert(n >= 2 * d) by (nonlinear_arith)
                requires
                    n >= 2 * (d * half),
                    d > 0,
                    half >= 1,
            ;
        }
        2 * narrowed(n, 2 * d, half)
    }
}

/// A whole number cut to so many digits.
pub open spec fn cut_whole(n: int, half: int) -> int {
    narrowed(n, 1, half)
}

/// The quotient of two positive numbers, as a fraction.
pub open spec fn quotient(n: int, d: int, half: int) -> (int, int) {
    if n <= 0 {
        (0, 1)
    } else if n < d * half {
        widened(n, d, half)
    } else {
        (narrowed(n, d, half), 1)
    }
}

/// `a / unit * (n / (d / unit))`, rounded to a whole number after each step
/// was kept to so many digits. Halves are rounded up.
pub open spec fn scaled_by(a: int, n: int, d: int, unit: int, half: int) -> int {
    let (m, e) = quotient(cut_whole(n, half) * unit, cut_whole(d, half), half);
    nearest(cut_whole(cut_whole(a, half) * m, half), e * unit)
}

/// A power of two.
pub open spec fn is_power(e: int) -> bool
    decreases e,
{
    e == 1 || (e > 1 && e % 2 == 0 && is_power(e / 2))
}

pub proof fn lemma_nearest_even(n: int, d: int)
    requires
        0 <= n,
        0 < d,
    ensures
        0 <= nearest_even(n, d),
        n - d <= nearest_even(n, d) * d <= n + d,
        nearest_even(n, d) <= n + 1,
        d == 1 ==> nearest_even(n, d) == n,
        n >= d ==> nearest_even(n, d) >= 1,
{
    let q = n / d;
    assert(0 <= q <= n && n == q * d + n % d && 0 <= n % d < d && (n >= d ==> q >= 1))
        by (nonlinear_arith)
        requires
            0 <= n,
            0 < d,
            q == n / d,
    ;
    assert((q + 1) * d == q * d + d) by (nonlinear_arith);
}

/// Rounding does not pass a whole number.
proof fn lemma_nearest_even_within(n: int, d: int, k: int)
    requires
        0 <= n <= d * k,
        0 < d,
    ensures
        nearest_even(n, d) <= k,
{
    let q = n / d;
    let rest = n % d;
    assert(n == q * d + rest && 0 <= rest < d && q <= k) by (nonlinear_arith)
        requires
            0 <= n <= d * k,
            0 < d,
            q == n / d,
            rest == n % d,
    ;
    if q == k {
        assert(rest == 0) by (nonlinear_arith)
            requires
                n == q * d + rest,
                n <= d * k,
                q == k,
                0 <= rest,
        ;
    }
}

proof fn lemma_narrowed(n: int, d: int, half: int)
    requires
        d <= n,
        0 < d,
        0 < half,
    ensures
        1 <= narrowed(n, d, half),
        narrowed(n, d, half) * d <= 2 * n,
    decreases n - d,
{
    lemma_nearest_even(n, d);
    if n >= 2 * (d * half) {
        assert(n >= 2 * d) by (nonlinear_arith)
            requires
                n >= 2 * (d * half),
                d > 0,
                half >= 1,
        ;
        lemma_narrowed(n, 2 * d, half);
        let r = narrowed(n, 2 * d, half);
        assert((2 * r) * d == r * (2 * d)) by (nonlinear_arith);
    }
}

proof fn lemma_cut_whole(n: int, half: int)
    requires
        0 <= n,
        0 < half,
    ensures
        0 <= cut_whole(n, half) <= 2 * n,
        n > 0 ==> cut_whole(n, half) >= 1,
        n < 2 * half ==> cut_whole(n, half) == n,
{
    lemma_nearest_even(n, 1);
    if n > 0 {
        lemma_narrowed(n, 1, half);
    }
}

proof fn lemma_widened(n: int, d: int, half: int)
    requires
        0 < n < 2 * (d * half),
        0 < d,
        0 < half,
    ensures
        ({
            let (m, e) = widened(n, d, half);
            1 <= m <= 2 * half && 1 <= e <= 2 * (d * half) && is_power(e)
        }),
        n * widened(n, d, half).1 < 2 * (d * half),
        widened(n, d, half).0 * d <= 2 * (n * widened(n, d, half).1),
    decreases 2 * (d * half) - n,
{
    if n >= d * half {
        assert(d <= d * half && d * (2 * half) == 2 * (d * half)) by (nonlinear_arith)
            requires
                d > 0,
                half >= 1,
        ;
        lemma_nearest_even(n, d);
        lemma_nearest_even_within(n, d, 2 * half);
    } else {
        lemma_widened(2 * n, d, half);
        let e = widened(2 * n, d, half).1;
        assert((2 * e) / 2 == e && (2 * e) % 2 == 0);
        assert(is_power(2 * e));
        assert((2 * n) * e == n * (2 * e) && 2 * e <= n * (2 * e)) by (nonlinear_arith)
            requires
                n >= 1,
                e >= 1,
        ;
    }
}

/// A quotient of at most `k` stays so.
proof fn lemma_widened_ratio(n: int, d: int, half: int, k: int)
    requires
        0 < n <= d * k,
        0 < d,
        0 < half,
    ensures
        widened(n, d, half).0 <= k * widened(n, d, half).1,
    decreases 2 * (d * half) - n,
{
    if n >= d * half {
        lemma_nearest_even_within(n, d, k);
    } else {
        assert(2 * n <= d * (2 * k)) by (nonlinear_arith)
            requires
                n <= d * k,
        ;
        lemma_widened_ratio(2 * n, d, half, 2 * k);
        let e = widened(2 * n, d, half).1;
        assert((2 * k) * e == k * (2 * e)) by (nonlinear_arith);
    }
}

/// Cutting a number to so many digits does not pass one that has no more.
proof fn lemma_no_passing(n: int, d: int, half: int, a: int, c: int)
    requires
        0 <= n <= (a * c) * d,
        0 < d,
        0 < half,
        0 <= a < 2 * half,
        is_power(c),
    ensures
        narrowed(n, d, half) <= a * c,
    decreases c,
{
    if n < 2 * (d * half) {
        assert((a * c) * d == d * (a * c)) by (nonlinear_arith);
        lemma_nearest_even_within(n, d, a * c);
    } else {
        if c == 1 {
            assert((a * 1) * d < 2 * (d * half)) by (nonlinear_arith)
                requires
                    a < 2 * half,
                    d > 0,
            ;
        }
        let h = c / 2;
        assert(c == 2 * h);
        assert((a * c) * d == (a * h) * (2 * d) && a * c == 2 * (a * h)) by (nonlinear_arith)
            requires
                c == 2 * h,
        ;
        lemma_no_passing(n, 2 * d, half, a, h);
    }
}

/// Scaling gives nothing negative.
pub proof fn lemma_scaled_by(a: int, n: int, d: int, unit: int, half: int)
    requires
        0 <= a,
        0 <= n,
        0 < d,
        0 < unit,
        0 < half,
    ensures
        0 <= scaled_by(a, n, d, unit, half),
{
    lemma_cut_whole(a, half);
    lemma_cut_whole(n, half);
    lemma_cut_whole(d, half);
    let (a2, d2) = (cut_whole(a, half), cut_whole(d, half));
    let n2 = cut_whole(n, half) * unit;
    assert(0 <= n2) by (nonlinear_arith)
        requires
            n2 == cut_whole(n, half) * unit,
            0 <= cut_whole(n, half),
            0 < unit,
    ;
    let (m, e) = quotient(n2, d2, half);
    if n2 > 0 {
        assert(d2 <= d2 * half) by (nonlinear_arith)
            requires
                d2 > 0,
                half >= 1,
        ;
        if n2 < d2 * half {
            lemma_widened(n2, d2, half);
        } else {
            lemma_narrowed(n2, d2, half);
        }
    }
    assert(0 <= a2 * m && 0 < e * unit) by (nonlinear_arith)
        requires
            0 <= a2,
            0 <= m,
            1 <= e,
            1 <= unit,
    ;
    lemma_cut_whole(a2 * m, half);
    let (q, b) = (cut_whole(a2 * m, half), e * unit);
    assert(nearest(q, b) >= 0) by (nonlinear_arith)
        requires
            q >= 0,
            b > 0,
            nearest(q, b) == (2 * q + b) / (2 * b),
    ;
}

/// Scaling down makes nothing larger.
pub proof fn lemma_scaled_down(a: int, n: int, d: int, half: int)
    requires
        0 <= a < 2 * half,
        0 <= n <= d < 2 * half,
        0 < d,
        0 < half,
    ensures
        0 <= scaled_by(a, n, d, 1, half) <= a,
{
    lemma_cut_whole(a, half);
    lemma_cut_whole(n, half);
    lemma_cut_whole(d, half);
    let (m, e) = quotient(n, d, half);
    if n > 0 {
        assert(d <= d * half) by (nonlinear_arith)
            requires
                d > 0,
                half >= 1,
        ;
        if n < d * half {
            lemma_widened(n, d, half);
            lemma_widened_ratio(n, d, half, 1);
        } else {
            lemma_nearest_even(n, d);
            lemma_nearest_even_within(n, d, 1);
        }
    }
    assert(0 <= a * m <= (a * e) * 1) by (nonlinear_arith)
        requires
            0 <= m <= e,
            0 <= a,
    ;
    lemma_cut_whole(a * m, half);
    lemma_no_passing(a * m, 1, half, a, e);
    let q = cut_whole(a * m, half);
    assert(0 <= nearest(q, e) <= a) by (nonlinear_arith)
        requires
            0 <= q <= a * e,
            e >= 1,
            nearest(q, e) == (2 * q + e) / (2 * e),
    ;
}

proof fn lemma_half_off(n: int, d: int)
    requires
        0 <= n,
        0 < d,
    ensures
        -d <= 2 * (nearest_even(n, d) * d - n) <= d,
{
    let q = n / d;
    assert(n == q * d + n % d && 0 <= n % d < d) by (nonlinear_arith)
        requires
            0 < d,
            q == n / d,
    ;
    assert((q + 1) * d == q * d + d) by (nonlinear_arith);
}

proof fn lemma_widened_close(n: int, d: int, half: int)
    requires
        0 < n < 2 * (d * half),
        0 < d,
        0 < half,
    ensures
        ({
            let (m, e) = widened(n, d, half);
            &&& -d <= 2 * (m * d - n * e) <= d
            &&& n * e >= d * half
        }),
    decreases 2 * (d * half) - n,
{
    if n >= d * half {
        lemma_half_off(n, d);
    } else {
        lemma_widened_close(2 * n, d, half);
        let e = widened(2 * n, d, half).1;
        assert((2 * n) * e == n * (2 * e)) by (nonlinear_arith);
    }
}

proof fn lemma_narrowed_close(n: int, d: int, half: int)
    requires
        0 <= n,
        0 < d,
        0 < half,
        n >= d * half || d == 1,
    ensures
        -n <= 2 * half * (narrowed(n, d, half) * d - n) <= n,
    decreases n - d,
{
    if n < 2 * (d * half) {
        let off = narrowed(n, d, half) * d - n;
        lemma_half_off(n, d);
        if n >= d * half {
            assert(-n <= 2 * half * off <= n) by (nonlinear_arith)
                requires
                    -d <= 2 * off <= d,
                    n >= d * half,
                    half > 0,
            ;
        } else {
            lemma_nearest_even(n, 1);
            assert(off == 0);
            assert(2 * half * off == 0) by (nonlinear_arith)
                requires
                    off == 0,
            ;
        }
    } else {
        assert(n >= 2 * d && n >= (2 * d) * half) by (nonlinear_arith)
            requires
                n >= 2 * (d * half),
                d > 0,
                half >= 1,
        ;
        lemma_narrowed_close(n, 2 * d, half);
        let r = narrowed(n, 2 * d, half);
        assert((2 * r) * d == r * (2 * d)) by (nonlinear_arith);
    }
}

/// Scaling by `n / d` gives the nearest whole number to `a * n / d`, up to so
/// many digits of it.
pub proof fn law_scaled_is_close(a: int, n: int, d: int, unit: int, half: int)
    requires
        0 <= a < 2 * half,
        0 <= n < 2 * half,
        0 < d < 2 * half,
        0 < unit,
        n * unit < d * half,
    ensures
        -(half * d + 3 * (a * n)) <= 2 * half * (scaled_by(a, n, d, unit, half) * d - a * n) <= half
            * d + 3 * (a * n),
{
    lemma_cut_whole(a, half);
    lemma_cut_whole(n, half);
    lemma_cut_whole(d, half);
    let nu = n * unit;
    let (m, e) = quotient(nu, d, half);
    let x = scaled_by(a, n, d, unit, half);
    if n == 0 {
        assert(nu == 0) by (nonlinear_arith)
            requires
                nu == n * unit,
                n == 0,
        ;
        assert(a * m == 0 && a * n == 0 && e * unit == unit) by (nonlinear_arith)
            requires
                m == 0,
                n == 0,
                e == 1,
        ;
        lemma_cut_whole(0, half);
        assert(nearest(0, unit) == 0) by (nonlinear_arith)
            requires
                unit > 0,
                nearest(0, unit) == (2 * 0 + unit) / (2 * unit),
        ;
        assert(2 * half * (x * d - a * n) == 0 && half * d >= 0) by (nonlinear_arith)
            requires
                x == 0,
                a * n == 0,
                half > 0,
                d > 0,
        ;
    } else {
        assert(nu > 0) by (nonlinear_arith)
            requires
                nu == n * unit,
                n > 0,
                unit > 0,
        ;
        lemma_widened(nu, d, half);
        lemma_widened_close(nu, d, half);
        let v = a * m;
        assert(v >= 0) by (nonlinear_arith)
            requires
                v == a * m,
                a >= 0,
                m >= 0,
        ;
        lemma_narrowed_close(v, 1, half);
        let r = cut_whole(v, half);
        lemma_cut_whole(v, half);
        let eu = e * unit;
        assert(eu > 0) by (nonlinear_arith)
            requires
                eu == e * unit,
                e >= 1,
                unit > 0,
        ;
        assert(-eu <= 2 * (x * eu - r) <= eu) by (nonlinear_arith)
            requires
                x == (2 * r + eu) / (2 * eu),
                eu > 0,
        ;
        lemma_close_enough(a, n, d, unit, half, m, e, r, x);
    }
}

proof fn lemma_close_enough(
    a: int,
    n: int,
    d: int,
    unit: int,
    half: int,
    m: int,
    e: int,
    r: int,
    x: int,
)
    requires
        0 <= a,
        0 < n,
        0 < d,
        0 < unit,
        0 < half,
        1 <= e,
        0 <= m <= 2 * half,
        -(e * unit) <= 2 * (x * (e * unit) - r) <= e * unit,
        -(a * m) <= 2 * half * (r - a * m) <= a * m,
        -d <= 2 * (m * d - (n * unit) * e) <= d,
        (n * unit) * e >= d * half,
    ensures
        -(half * d + 3 * (a * n)) <= 2 * half * (x * d - a * n) <= half * d + 3 * (a * n),
{
    let eu = e * unit;
    assert(eu > 0) by (nonlinear_arith)
        requires
            eu == e * unit,
            e >= 1,
            unit > 0,
    ;
    assert((n * unit) * e == n * eu) by (nonlinear_arith)
        requires
            eu == e * unit,
    ;
    assert(a * m <= 2 * half * a) by (nonlinear_arith)
        requires
            0 <= a,
            m <= 2 * half,
    ;
    // the middle step is off by no more than a
    let off = r - a * m;
    assert(-a <= off <= a) by (nonlinear_arith)
        requires
            -(2 * half * a) <= 2 * half * off <= 2 * half * a,
            half > 0,
    ;
    let one = x * eu - r;
    let three = m * d - n * eu;
    // eu * (x d - a n) in three parts
    assert(eu * (x * d - a * n) == d * one + d * off + a * three) by (nonlinear_arith)
        requires
            one == x * eu - r,
            off == r - a * m,
            three == m * d - n * eu,
    ;
    assert(-(d * eu) <= 2 * (d * one) <= d * eu) by (nonlinear_arith)
        requires
            -eu <= 2 * one <= eu,
            d > 0,
    ;
    assert(-(d * a) <= d * off <= d * a) by (nonlinear_arith)
        requires
            -a <= off <= a,
            d > 0,
    ;
    assert(-(a * d) <= 2 * (a * three) <= a * d) by (nonlinear_arith)
        requires
            -d <= 2 * three <= d,
            a >= 0,
    ;
    assert(d * a == a * d) by (nonlinear_arith);
    let gap = eu * (x * d - a * n);
    assert(-(d * eu + 3 * (a * d)) <= 2 * gap <= d * eu + 3 * (a * d));
    assert(a * (d * half) <= a * (n * eu)) by (nonlinear_arith)
        requires
            d * half <= n * eu,
            a >= 0,
    ;
    let y = x * d - a * n;
    assert(half * (3 * (a * d)) == 3 * (a * (d * half)) && a * (n * eu) == eu * (a * n))
        by (nonlinear_arith);
    assert(half * (2 * gap) <= half * (d * eu) + 3 * (eu * (a * n)) && -(half * (d * eu) + 3 * (eu
        * (a * n))) <= half * (2 * gap)) by (nonlinear_arith)
        requires
            -(d * eu + 3 * (a * d)) <= 2 * gap <= d * eu + 3 * (a * d),
            half > 0,
            half * (3 * (a * d)) <= 3 * (eu * (a * n)),
    ;
    assert(half * (2 * gap) == eu * (2 * half * y)) by (nonlinear_arith)
        requires
            gap == eu * y,
    ;
    let top = half * d + 3 * (a * n);
    assert(half * (d * eu) + 3 * (eu * (a * n)) == eu * top) by (nonlinear_arith)
        requires
            top == half * d + 3 * (a * n),
    ;
    assert(-top <= 2 * half * y <= top) by (nonlinear_arith)
        requires
            -(eu * top) <= eu * (2 * half * y) <= eu * top,
            eu > 0,
    ;
}

proof fn lemma_widened_exact(n: int, d: int, half: int, k: int)
    requires
        n == d * k,
        0 < k,
        0 < d,
        0 < half,
    ensures
        widened(n, d, half).0 == k * widened(n, d, half).1,
    decreases 2 * (d * half) - n,
{
    assert(n > 0) by (nonlinear_arith)
        requires
            n == d * k,
            d > 0,
            k > 0,
    ;
    if n >= d * half {
        assert(n / d == k && n % d == 0) by (nonlinear_arith)
            requires
                n == d * k,
                d > 0,
        ;
    } else {
        assert(2 * n == d * (2 * k)) by (nonlinear_arith)
            requires
                n == d * k,
        ;
        lemma_widened_exact(2 * n, d, half, 2 * k);
        let e = widened(2 * n, d, half).1;
        assert((2 * k) * e == k * (2 * e)) by (nonlinear_arith);
    }
}

proof fn lemma_narrowed_exact(n: int, d: int, half: int, a: int, c: int)
    requires
        n == (a * c) * d,
        0 < d,
        0 < half,
        0 <= a < 2 * half,
        is_power(c),
    ensures
        narrowed(n, d, half) == a * c,
    decreases c,
{
    if n < 2 * (d * half) {
        assert(n / d == a * c && n % d == 0) by (nonlinear_arith)
            requires
                n == (a * c) * d,
                d > 0,
        ;
    } else {
        if c == 1 {
            assert((a * 1) * d < 2 * (d * half)) by (nonlinear_arith)
                requires
                    a < 2 * half,
                    d > 0,
            ;
        }
        let h = c / 2;
        assert(c == 2 * h);
        assert((a * c) * d == (a * h) * (2 * d) && a * c == 2 * (a * h)) by (nonlinear_arith)
            requires
                c == 2 * h,
        ;
        lemma_narrowed_exact(n, 2 * d, half, a, h);
    }
}

/// Scaling by a whole number multiplies.
pub proof fn law_scaled_by_whole(a: int, n: int, d: int, half: int, k: int)
    requires
        n == d * k,
        0 <= a,
        0 < k,
        0 < d,
        0 < half,
        a < 2 * half,
        a * k < 2 * half,
        n < 2 * half,
        n < d * half,
    ensures
        scaled_by(a, n, d, 1, half) == a * k,
{
    assert(d <= n) by (nonlinear_arith)
        requires
            n == d * k,
            k >= 1,
            d > 0,
    ;
    lemma_cut_whole(a, half);
    lemma_cut_whole(n, half);
    lemma_cut_whole(d, half);
    lemma_widened(n, d, half);
    lemma_widened_exact(n, d, half, k);
    let (m, e) = widened(n, d, half);
    assert(a * m == ((a * k) * e) * 1 && 0 <= a * k) by (nonlinear_arith)
        requires
            m == k * e,
            0 <= a,
            0 < k,
    ;
    lemma_narrowed_exact(a * m, 1, half, a * k, e);
    let q = (a * k) * e;
    let whole = a * k;
    assert(nearest(q, e) == whole) by (nonlinear_arith)
        requires
            q == whole * e,
            e >= 1,
            nearest(q, e) == (2 * q + e) / (2 * e),
    ;
}

/// A quotient of fewer digits before the point than are kept is off by no more
/// than half of its last one.
pub proof fn lemma_quotient_close(n: int, d: int, half: int)
    requires
        0 <= n < d * half,
        0 < d,
        0 < half,
    ensures
        ({
            let (m, e) = quotient(n, d, half);
            &&& 0 <= m && 1 <= e
            &&& -d <= 2 * (m * d - n * e) <= d
            &&& n > 0 ==> n * e >= d * half
        }),
{
    if n > 0 {
        lemma_widened(n, d, half);
        lemma_widened_close(n, d, half);
    }
}

/// Where a unit of the one length is so many of the other, scaling only rounds
/// to whole units.
pub proof fn law_scaled_one_to_one(a: int, n: int, d: int, unit: int, half: int)
    requires
        n * unit == d,
        0 <= a < 2 * half,
        0 < n,
        0 < unit,
        1 < half,
        d < 2 * half,
    ensures
        scaled_by(a, n, d, unit, half) == nearest(a, unit),
        2 * a - unit < 2 * unit * scaled_by(a, n, d, unit, half) <= 2 * a + unit,
{
    assert(n <= d && 0 < d && d < d * half) by (nonlinear_arith)
        requires
            n * unit == d,
            n > 0,
            unit >= 1,
            half > 1,
    ;
    lemma_cut_whole(a, half);
    lemma_cut_whole(n, half);
    lemma_cut_whole(d, half);
    lemma_widened(d, d, half);
    lemma_widened_exact(d, d, half, 1);
    let (m, e) = widened(d, d, half);
    assert(a * m == (a * e) * 1) by (nonlinear_arith)
        requires
            m == 1 * e,
    ;
    lemma_narrowed_exact(a * m, 1, half, a, e);
    let q = a * e;
    let x = 2 * a + unit;
    let y = 2 * unit;
    assert(2 * q + e * unit == x * e && 2 * (e * unit) == y * e) by (nonlinear_arith)
        requires
            q == a * e,
            x == 2 * a + unit,
            y == 2 * unit,
    ;
    let r = (x * e) / (y * e);
    assert(r == x / y) by (nonlinear_arith)
        requires
            r == (x * e) / (y * e),
            e >= 1,
            y >= 1,
            x >= 0,
    {
        let k = x / y;
        assert(k * y <= x < (k + 1) * y);
        assert(k * (y * e) <= x * e);
        assert(x * e < (k + 1) * (y * e));
    }
    assert(y * (x / y) <= x < y * (x / y) + y) by (nonlinear_arith)
        requires
            y >= 1,
    ;
}

pub fn half_even(a: u128, b: u128) -> (r: u128)
    requires
        0 < b <= 0x8000_0000_0000_0000_0000_0000_0000_0000,
        a < 0x8000_0000_0000_0000_0000_0000_0000_0000,
    ensures
        r == nearest_even(a as int, b as int),
{
    let q: u128 = a / b;
    let part: u128 = a % b;
    let rest: u128 = b - part;
    if part > rest || (part == rest && q % 2 == 1) {
        q + 1
    } else {
        q
    }
}

/// A quotient with enough digits before the point.
fn narrow(n: u128, d: u128, half: u64) -> (r: u128)
    requires
        0 < d <= n <= 0x2000_0000_0000_0000_0000_0000_0000_0000,
        half == DOUBLE || half == SINGLE,
    ensures
        r == narrowed(n as int, d as int, half as int),
        1 <= r,
        r * d <= 2 * n,
{
    proof {
        lemma_narrowed(n as int, d as int, half as int);
    }
    let mut x: u128 = d;
    let mut by: u128 = 1;
    while n / (2 * half as u128) >= x
        invariant
            half == DOUBLE || half == SINGLE,
            0 < d <= x <= n <= 0x2000_0000_0000_0000_0000_0000_0000_0000,
            1 <= by,
            x == d * by,
            narrowed(n as int, d as int, half as int) == by * narrowed(
                n as int,
                x as int,
                half as int,
            ),
        decreases n - x,
    {
        let ghost (n0, x0, h, b0) = (n as int, x as int, half as int, by as int);
        proof {
            assert(n0 >= 2 * (x0 * h)) by (nonlinear_arith)
                requires
                    n0 / (2 * h) >= x0,
                    h > 0,
                    n0 >= 0,
            ;
            assert(2 * x0 <= n0) by (nonlinear_arith)
                requires
                    n0 >= 2 * (x0 * h),
                    x0 > 0,
                    h >= 1,
            ;
            let r = narrowed(n0, 2 * x0, h);
            assert(b0 * (2 * r) == (b0 * 2) * r) by (nonlinear_arith);
            assert(b0 <= d * b0 && d * (2 * b0) == 2 * (d * b0)) by (nonlinear_arith)
                requires
                    d >= 1,
                    b0 >= 1,
            ;
        }
        x = 2 * x;
        by = 2 * by;
    }
    let ghost (n0, x0, h) = (n as int, x as int, half as int);
    proof {
        assert(n0 < 2 * (x0 * h)) by (nonlinear_arith)
            requires
                n0 / (2 * h) < x0,
                h > 0,
                n0 >= 0,
        ;
        lemma_narrowed(n0, d as int, h);
        let r = narrowed(n0, d as int, h);
        assert(r <= r * d) by (nonlinear_arith)
            requires
                r >= 1,
                d >= 1,
        ;
    }
    let q: u128 = half_even(n, x);
    by * q
}

/// A quotient with too few digits before the point.
fn widen(n: u128, d: u128, half: u64) -> (r: (u128, u128))
    requires
        0 < n < d * half,
        0 < d <= 0x1000_0000_0000,
        half == DOUBLE || half == SINGLE,
    ensures
        (r.0 as int, r.1 as int) == widened(n as int, d as int, half as int),
        1 <= r.0 <= 2 * half,
        1 <= r.1,
        n * r.1 < 2 * (d * half),
        r.1 < 2 * (d * half),
        r.0 * d <= 2 * (n * r.1),
{
    let ghost (n0, d0, h) = (n as int, d as int, half as int);
    proof {
        lemma_widened(n0, d0, h);
        assert(d0 * h <= 0x1000_0000_0000 * 0x10_0000_0000_0000) by (nonlinear_arith)
            requires
                0 < d0 <= 0x1000_0000_0000,
                0 < h <= 0x10_0000_0000_0000,
        ;
    }
    let limit: u128 = d * half as u128;
    let mut x: u128 = n;
    let mut e: u128 = 1;
    while x < limit
        invariant
            half == DOUBLE || half == SINGLE,
            n0 == n && d0 == d && h == half,
            0 < d,
            limit == d0 * h,
            limit <= 0x1000_0000_0000 * 0x10_0000_0000_0000,
            0 < x < 2 * limit,
            1 <= e <= x,
            widened(n0, d0, h) == (widened(x as int, d0, h).0, e * widened(x as int, d0, h).1),
        decreases 2 * limit - x,
    {
        proof {
            let (m, k) = widened(2 * x as int, d0, h);
            assert(e * (2 * k) == (2 * e) * k) by (nonlinear_arith);
        }
        x = 2 * x;
        e = 2 * e;
    }
    let m: u128 = half_even(x, d);
    assert(widened(x as int, d0, h) == (nearest_even(x as int, d0), 1int));
    proof {
        assert(e * 1 == e);
        assert(e <= n0 * e) by (nonlinear_arith)
            requires
                n0 >= 1,
                e >= 0,
        ;
    }
    (m, e)
}

/// The quotient of two numbers, as a fraction of 53 binary digits.
pub fn double_quotient(n: u64, d: u64) -> (r: (u128, u128))
    requires
        0 < d <= 0x1000_0000_0000,
    ensures
        (r.0 as int, r.1 as int) == quotient(n as int, d as int, DOUBLE as int),
        r.0 <= 0x2_0000_0000_0000_0000,
        1 <= r.1 <= 0x1000_0000_0000 * 0x20_0000_0000_0000,
        r.0 * d <= 2 * (n * r.1),
{
    proof {
        assert(d <= d * DOUBLE <= 0x1000_0000_0000 * 0x10_0000_0000_0000) by (nonlinear_arith)
            requires
                0 < d <= 0x1000_0000_0000,
                DOUBLE == 0x10_0000_0000_0000,
        ;
    }
    if n == 0 {
        (0, 1)
    } else if (n as u128) < d as u128 * DOUBLE as u128 {
        widen(n as u128, d as u128, DOUBLE)
    } else {
        let m: u128 = narrow(n as u128, d as u128, DOUBLE);
        assert(m <= m * d) by (nonlinear_arith)
            requires
                m >= 1,
                d >= 1,
        ;
        (m, 1)
    }
}

/// Nanoseconds in seconds: the whole ones and the fraction added up.
pub open spec fn seconds_of(t: int) -> (int, int) {
    let (m, e) = quotient(t % 1_000_000_000, 1_000_000_000, DOUBLE as int);
    (cut_whole(t / 1_000_000_000 * e + m, DOUBLE as int), e)
}

/// Nanoseconds in tenths of a second, rounded to a whole number. Halves are
/// rounded up.
pub open spec fn tenths_of(t: int) -> int {
    let (m, e) = seconds_of(t);
    nearest(cut_whole(m * 10, DOUBLE as int), e)
}

/// A time in tenths of a second is the nearest number of them, up to ten
/// microseconds.
pub proof fn law_tenths_are_nearest(t: int)
    requires
        0 <= t <= i64::MAX,
    ensures
        -50_010_000 <= tenths_of(t) * 100_000_000 - t <= 50_010_000,
{
    let h = DOUBLE as int;
    let (s, ns) = (t / 1_000_000_000, t % 1_000_000_000);
    let (q, e) = quotient(ns, 1_000_000_000, h);
    let v = s * e + q;
    let v2 = cut_whole(v, h);
    let w = cut_whole(v2 * 10, h);
    let r = nearest(w, e);
    if ns == 0 {
        assert(v == s) by (nonlinear_arith)
            requires
                v == s * e + q,
                e == 1,
                q == 0,
        ;
        lemma_cut_whole(v, h);
        lemma_cut_whole(v2 * 10, h);
        assert(e == 1 && w == 10 * s);
        assert((2 * w + 1) / 2 == w);
    } else {
        lemma_widened(ns, 1_000_000_000, h);
        lemma_widened_close(ns, 1_000_000_000, h);
        assert(v >= 0) by (nonlinear_arith)
            requires
                v == s * e + q,
                s >= 0,
                e >= 1,
                q >= 0,
        ;
        lemma_cut_whole(v, h);
        lemma_narrowed_close(v, 1, h);
        lemma_cut_whole(v2 * 10, h);
        lemma_narrowed_close(v2 * 10, 1, h);
        assert(-e <= 2 * (r * e - w) <= e) by (nonlinear_arith)
            requires
                r == (2 * w + e) / (2 * e),
                e >= 1,
        ;
        assert(ns * e <= 1_000_000_000 * e) by (nonlinear_arith)
            requires
                ns <= 1_000_000_000,
                e >= 1,
        ;
        assert(e >= h);
        assert(v * 1_000_000_000 - t * e == q * 1_000_000_000 - ns * e) by (nonlinear_arith)
            requires
                v == s * e + q,
                t == s * 1_000_000_000 + ns,
        ;
        let gap = r * 1_000_000_000 - 10 * t;
        let (a, b, c, d) = (r * e - w, w - 10 * v2, v2 - v, v * 1_000_000_000 - t * e);
        let u = 1_000_000_000int;
        assert(e * gap == u * a + u * b + 10 * u * c + 10 * d) by (nonlinear_arith)
            requires
                gap == r * u - 10 * t,
                a == r * e - w,
                b == w - 10 * v2,
                c == v2 - v,
                d == v * u - t * e,
        ;
        assert(-(10 * v2) <= 2 * h * b <= 10 * v2);
        assert(-v <= 2 * h * c <= v);
        assert(t * e <= 0x8000_0000_0000_0000 * e) by (nonlinear_arith)
            requires
                t <= 0x8000_0000_0000_0000,
                e >= 1,
        ;
        // 2 h |u b| + 2 h |10 u c| <= 30 u v <= 30 (t e + u)
        let rest = u * b + 10 * u * c;
        assert(-(30 * (u * v)) <= 2 * h * rest <= 30 * (u * v)) by (nonlinear_arith)
            requires
                rest == u * b + 10 * u * c,
                -(10 * v2) <= 2 * h * b <= 10 * v2,
                -v <= 2 * h * c <= v,
                0 <= v2 <= 2 * v,
                u == 1_000_000_000,
        ;
        assert(30 * (u * v) <= 2 * h * (31_000 * e)) by {
            assert(u * v <= 0x8000_0000_0000_0000 * e + u);
        }
        assert(-(31_000 * e) <= rest <= 31_000 * e) by (nonlinear_arith)
            requires
                -(2 * h * (31_000 * e)) <= 2 * h * rest <= 2 * h * (31_000 * e),
                h > 0,
        ;
        assert(-(500_000_000 * e + 31_000 * e + e) <= e * gap <= 500_000_000 * e + 31_000 * e + e);
        assert(-500_031_001 <= gap <= 500_031_001) by (nonlinear_arith)
            requires
                -(500_031_001 * e) <= e * gap <= 500_031_001 * e,
                e > 0,
        ;
    }
}

fn cut(n: u128) -> (r: u128)
    requires
        n <= 0x2000_0000_0000_0000_0000_0000_0000_0000,
    ensures
        r == cut_whole(n as int, DOUBLE as int),
        r <= 2 * n,
{
    proof {
        lemma_cut_whole(n as int, DOUBLE as int);
    }
    if n == 0 {
        0
    } else {
        narrow(n, 1, DOUBLE)
    }
}

/// Nanoseconds in tenths of a second.
pub fn tenths_by(t: i64) -> (r: i64)
    requires
        0 <= t,
    ensures
        r == tenths_of(t as int),
{
    let secs: u128 = (t / 1_000_000_000) as u128;
    let nanos: u128 = (t % 1_000_000_000) as u128;
    let (m, e): (u128, u128) = if nanos == 0 {
        (0, 1)
    } else {
        widen(nanos, 1_000_000_000, DOUBLE)
    };
    let ghost bound: int = 2 * (1_000_000_000 * DOUBLE);
    proof {
        if nanos > 0 {
            lemma_widened_ratio(nanos as int, 1_000_000_000, DOUBLE as int, 1);
        }
        assert(e <= bound && m <= e);
        assert(0 <= secs * e <= 9_223_372_037 * bound) by (nonlinear_arith)
            requires
                0 <= secs <= 9_223_372_036,
                1 <= e <= bound,
        ;
    }
    let sum: u128 = secs * e + m;
    assert(sum <= 9_223_372_037 * e) by (nonlinear_arith)
        requires
            sum == secs * e + m,
            m <= e,
            secs <= 9_223_372_036,
    ;
    let whole: u128 = cut(sum);
    let ten: u128 = cut(whole * 10);
    let r: u128 = (2 * ten + e) / (2 * e);
    assert(0 <= r <= 400_000_000_000) by (nonlinear_arith)
        requires
            r == (2 * ten + e) as int / (2 * e) as int,
            0 <= ten <= 40 * sum,
            sum <= 9_223_372_037 * e,
            e >= 1,
    ;
    r as i64
}

/// `a / unit * (n / (d / unit))` as a whole number, every step kept to so many
/// digits.
pub fn scale_by(a: u64, n: u64, d: u64, unit: u64, half: u64) -> (r: u128)
    requires
        a <= 0x2_0000_0000,
        n <= 0x1_0000_0000,
        0 < d <= 0x2_0000_0000,
        0 < unit <= 256,
        half == DOUBLE || half == SINGLE,
    ensures
        r == scaled_by(a as int, n as int, d as int, unit as int, half as int),
{
    let ghost h = half as int;
    proof {
        lemma_cut_whole(a as int, h);
        lemma_cut_whole(n as int, h);
        lemma_cut_whole(d as int, h);
        lemma_nearest_even(0, 1);
    }
    let a2: u128 = if a == 0 {
        0
    } else {
        narrow(a as u128, 1, half)
    };
    let d2: u128 = narrow(d as u128, 1, half);
    if n == 0 {
        assert(cut_whole(0, h) * unit == 0) by (nonlinear_arith)
            requires
                cut_whole(0, h) == 0,
        ;
        assert(a2 * 0 == 0);
        assert(nearest(0, 1 * unit as int) == 0) by (nonlinear_arith)
            requires
                unit > 0,
                nearest(0, 1 * unit as int) == (2 * 0 + 1 * unit as int) / (2 * (1 * unit as int)),
        ;
        return 0;
    }
    let n1: u128 = narrow(n as u128, 1, half);
    proof {
        assert(1 <= n1 * unit <= 0x200_0000_0000) by (nonlinear_arith)
            requires
                1 <= n1 <= 0x2_0000_0000,
                1 <= unit <= 256,
        ;
    }
    let n2: u128 = n1 * unit as u128;
    proof {
        assert(d2 <= d2 * h <= 0x4_0000_0000 * 0x10_0000_0000_0000) by (nonlinear_arith)
            requires
                1 <= d2 <= 0x4_0000_0000,
                1 <= h <= 0x10_0000_0000_0000,
        ;
    }
    let (m, e): (u128, u128) = if n2 < d2 * half as u128 {
        widen(n2, d2, half)
    } else {
        (narrow(n2, d2, half), 1)
    };
    proof {
        assert(m <= 0x40_0000_0000_0000) by {
            if n2 >= d2 * half {
                assert(m <= m * d2) by (nonlinear_arith)
                    requires
                        m >= 1,
                        d2 >= 1,
                ;
            }
        }
        assert(0 <= a2 * m <= 0x4_0000_0000 * 0x40_0000_0000_0000) by (nonlinear_arith)
            requires
                0 <= a2 <= 0x4_0000_0000,
                1 <= m <= 0x40_0000_0000_0000,
        ;
        assert(e <= 2 * (0x4_0000_0000 * 0x10_0000_0000_0000));
        assert(1 <= e * unit <= 512 * (0x4_0000_0000 * 0x10_0000_0000_0000)) by (nonlinear_arith)
            requires
                1 <= e <= 2 * (0x4_0000_0000 * 0x10_0000_0000_0000),
                1 <= unit <= 256,
        ;
        lemma_cut_whole(a2 * m, h);
    }
    let p: u128 = a2 * m;
    let q: u128 = if p == 0 {
        0
    } else {
        narrow(p, 1, half)
    };
    let b: u128 = e * unit as u128;
    (2 * q + b) / (2 * b)
}

} // verus!
