//! Positions in a window, and pictures fitted into it. Lengths are 1/256
//! pixels.
use vstd::prelude::*;
use crate::math::floor_div;

verus! {

/// A position in the window.
#[derive(Clone, Copy, PartialEq, Eq, Structural, Debug)]
pub struct Pos {
    pub x: i32,
    pub y: i32,
}

/// The size of the window.
#[derive(Clone, Copy, PartialEq, Eq, Structural, Debug)]
pub struct Extent {
    pub w: i32,
    pub h: i32,
}

/// A picture fitted into an area: where it lies there, how large it is shown,
/// and the scale as a fraction.
#[derive(Clone, Copy, PartialEq, Eq, Structural, Debug)]
pub struct Fit {
    pub ox: i128,
    pub oy: i128,
    pub dw: i128,
    pub dh: i128,
    pub num: i64,
    pub den: i64,
}

/// The scale that fits a picture of `iw` by `ih` pixels into an area of `cw`
/// by `ch`, at most `cap`. A side without pixels sets no bound.
pub open spec fn fit_scale(cw: int, ch: int, iw: int, ih: int, cap: Option<int>) -> (int, int) {
    let s = if iw == 0 {
        (ch, ih * 256)
    } else if ih == 0 || cw * ih <= ch * iw {
        (cw, iw * 256)
    } else {
        (ch, ih * 256)
    };
    match cap {
        Some(c) => if s.0 > c * s.1 {
            (c, 1)
        } else {
            s
        },
        None => s,
    }
}

/// A picture has a scale in an area: it is not empty, and a side without pixels
/// has room.
pub open spec fn has_scale(cw: int, ch: int, iw: int, ih: int) -> bool {
    (iw > 0 || ih > 0) && (iw == 0 ==> cw >= 0) && (ih == 0 ==> ch >= 0)
}

/// A picture in the middle of an area, as large as fits. The scale is not
/// positive in an area without extent.
pub open spec fn fitted(cw: int, ch: int, iw: int, ih: int, cap: Option<int>) -> Option<Fit> {
    if !has_scale(cw, ch, iw, ih) {
        None
    } else {
        let (num, den) = fit_scale(cw, ch, iw, ih, cap);
        let dw = iw * 256 * num / den;
        let dh = ih * 256 * num / den;
        Some(
            Fit {
                ox: ((cw - dw) / 2) as i128,
                oy: ((ch - dh) / 2) as i128,
                dw: dw as i128,
                dh: dh as i128,
                num: num as i64,
                den: den as i64,
            },
        )
    }
}

/// How large positions and lengths of a fit get.
pub const FIT_LIMIT: i128 = 0x400_0000_0000_0000_0000;

impl Fit {
    /// The fit has a scale that can be computed with.
    pub open spec fn wf(self) -> bool {
        &&& -0x1_0000_0000 <= self.num <= 0x1_0000_0000
        &&& 0 < self.den <= 0x200_0000_0000
        &&& -FIT_LIMIT <= self.ox <= FIT_LIMIT
        &&& -FIT_LIMIT <= self.oy <= FIT_LIMIT
        &&& -FIT_LIMIT <= self.dw <= FIT_LIMIT
        &&& -FIT_LIMIT <= self.dh <= FIT_LIMIT
    }

    /// Where a length of the picture ends in the area.
    pub open spec fn scaled(self, v: int) -> int {
        v * self.num / self.den as int
    }

    /// A distance of the area as a fraction of the picture's unit. Negative
    /// scales turn the direction round.
    pub open spec fn unscaled(self, v: int) -> (int, int) {
        if self.num < 0 {
            (-v * self.den, -(self.num as int))
        } else {
            (v * self.den, self.num as int)
        }
    }

    /// A length of the picture in the area.
    pub fn scale(&self, v: i64) -> (r: i128)
        requires
            self.wf(),
        ensures
            r == self.scaled(v as int),
            -0x8000_0000_0000_0000 * 0x1_0000_0000 <= r <= 0x8000_0000_0000_0000 * 0x1_0000_0000,
            0 <= v <= 0x100_0000_0000 ==> -FIT_LIMIT <= r <= FIT_LIMIT,
    {
        proof {
            lemma_scaled(*self, v as int, 0x8000_0000_0000_0000);
            if 0 <= v <= 0x100_0000_0000 {
                lemma_scaled(*self, v as int, 0x100_0000_0000);
            }
        }
        floor_div(v as i128 * self.num as i128, self.den as i128)
    }

    /// The point of a picture of `iw` by `ih` pixels at a position of the
    /// area, or nothing beside the picture.
    pub fn to_picture(&self, x: i64, y: i64, iw: u32, ih: u32) -> (r: Option<(i64, i64)>)
        requires
            self.wf(),
            -0x1_0000_0000 <= x <= 0x1_0000_0000,
            -0x1_0000_0000 <= y <= 0x1_0000_0000,
        ensures
            picture_point(r, *self, x as int, y as int, iw as int, ih as int),
    {
        if self.num == 0 {
            return None;
        }
        match (self.axis(x as i128 - self.ox, iw), self.axis(y as i128 - self.oy, ih)) {
            (Some(px), Some(py)) => Some((px, py)),
            _ => None,
        }
    }

    /// A distance of the area in the picture's unit, or nothing beside a side
    /// of so many pixels.
    fn axis(&self, v: i128, side: u32) -> (r: Option<i64>)
        requires
            self.wf(),
            self.num != 0,
            -2 * FIT_LIMIT <= v <= 2 * FIT_LIMIT,
        ensures
            axis_point(r, self.unscaled(v as int), side as int),
    {
        let d: i128 = if self.num < 0 {
            0 - self.num as i128
        } else {
            self.num as i128
        };
        let a: i128 = if self.num < 0 {
            0 - v
        } else {
            v
        };
        proof {
            let (b, e, l) = (a as int, self.den as int, 2 * FIT_LIMIT);
            assert(-l * 0x200_0000_0000 <= b * e <= l * 0x200_0000_0000) by (nonlinear_arith)
                requires
                    -l <= b <= l,
                    0 < e <= 0x200_0000_0000,
            ;
            assert(0 <= side * 256 * d <= 0x100_0000_0000 * 0x1_0000_0000) by (nonlinear_arith)
                requires
                    0 <= side <= 0xffff_ffff,
                    0 < d <= 0x1_0000_0000,
            ;
        }
        let n: i128 = a * self.den as i128;
        let most: i128 = side as i128 * 256 * d;
        if n < 0 || n > most {
            None
        } else {
            let q: i128 = n / d;
            assert(0 <= q <= side * 256) by (nonlinear_arith)
                requires
                    q == n as int / d as int,
                    0 <= n <= side * 256 * d,
                    d > 0,
            ;
            Some(q as i64)
        }
    }
}

proof fn lemma_scaled(f: Fit, v: int, most: int)
    requires
        f.wf(),
        -most <= v <= most,
    ensures
        -most * 0x1_0000_0000 <= v * f.num <= most * 0x1_0000_0000,
        -most * 0x1_0000_0000 <= f.scaled(v) <= most * 0x1_0000_0000,
{
    let (b, d) = (f.num as int, f.den as int);
    assert(-most * 0x1_0000_0000 <= v * b <= most * 0x1_0000_0000) by (nonlinear_arith)
        requires
            -most <= v <= most,
            -0x1_0000_0000 <= b <= 0x1_0000_0000,
    ;
    let p = v * b;
    let l = most * 0x1_0000_0000;
    assert(-l <= p / d <= l) by (nonlinear_arith)
        requires
            -l <= p <= l,
            d > 0,
    ;
}

/// Whether a coordinate `n.0 / n.1` of a picture may give `r`: nothing beside
/// a side of so many pixels.
pub open spec fn axis_point(r: Option<i64>, n: (int, int), side: int) -> bool {
    let inside = 0 <= n.0 <= side * 256 * n.1;
    match r {
        Some(q) => inside && q == n.0 / n.1,
        None => !inside,
    }
}

/// Whether looking up a position may give `r`. Nothing can be looked up at a
/// scale of zero.
pub open spec fn picture_point(r: Option<(i64, i64)>, f: Fit, x: int, y: int, iw: int, ih: int) -> bool {
    let (a, b) = (f.unscaled(x - f.ox), f.unscaled(y - f.oy));
    let inside = f.num != 0 && 0 <= a.0 <= iw * 256 * a.1 && 0 <= b.0 <= ih * 256 * b.1;
    match r {
        Some(q) => inside && q.0 == a.0 / a.1 && q.1 == b.0 / b.1,
        None => !inside,
    }
}

/// A point that was looked up lies on the picture.
pub proof fn lemma_point_inside(r: Option<(i64, i64)>, f: Fit, x: int, y: int, iw: int, ih: int)
    requires
        picture_point(r, f, x, y, iw, ih),
    ensures
        r matches Some(q) ==> 0 <= q.0 <= iw * 256 && 0 <= q.1 <= ih * 256,
{
    if let Some(q) = r {
        let (a, b) = (f.unscaled(x - f.ox), f.unscaled(y - f.oy));
        assert(0 <= a.0 / a.1 <= iw * 256) by (nonlinear_arith)
            requires
                0 <= a.0 <= iw * 256 * a.1,
                a.1 > 0,
        ;
        assert(0 <= b.0 / b.1 <= ih * 256) by (nonlinear_arith)
            requires
                0 <= b.0 <= ih * 256 * b.1,
                b.1 > 0,
        ;
    }
}

proof fn lemma_fit(cw: int, ch: int, iw: int, ih: int, cap: Option<int>)
    requires
        0 < cw <= 0x8000_0000,
        0 < ch <= 0x8000_0000,
        0 < iw <= u32::MAX,
        0 < ih <= u32::MAX,
        cap matches Some(c) ==> 0 < c <= 16,
    ensures
        ({
            let (num, den) = fit_scale(cw, ch, iw, ih, cap);
            &&& 0 < num <= 0x8000_0000
            &&& 0 < den <= 0x100_0000_0000
            &&& 0 <= iw * 256 * num / den <= cw
            &&& 0 <= ih * 256 * num / den <= ch
        }),
{
    let s = if cw * ih <= ch * iw {
        (cw, iw * 256)
    } else {
        (ch, ih * 256)
    };
    let (num, den) = fit_scale(cw, ch, iw, ih, cap);
    // num / den <= cw / (iw * 256) and <= ch / (ih * 256)
    assert(s.0 * (iw * 256) <= cw * s.1 && s.0 * (ih * 256) <= ch * s.1) by (nonlinear_arith)
        requires
            s == (if cw * ih <= ch * iw {
                (cw, iw * 256)
            } else {
                (ch, ih * 256)
            }),
    ;
    assert(num * (iw * 256) <= cw * den && num * (ih * 256) <= ch * den) by {
        if (num, den) != s {
            let c = cap->0;
            assert(c * (iw * 256) <= cw && c * (ih * 256) <= ch) by (nonlinear_arith)
                requires
                    s.0 * (iw * 256) <= cw * s.1,
                    s.0 * (ih * 256) <= ch * s.1,
                    s.0 > c * s.1,
                    s.1 > 0,
                    c > 0,
                    iw > 0,
                    ih > 0,
            {
                assert(c * s.1 * (iw * 256) <= s.0 * (iw * 256));
                assert(c * s.1 * (ih * 256) <= s.0 * (ih * 256));
                assert(s.1 * (c * (iw * 256)) <= s.1 * cw);
                assert(s.1 * (c * (ih * 256)) <= s.1 * ch);
            }
        }
    }
    assert(iw * 256 * num == num * (iw * 256) && ih * 256 * num == num * (ih * 256))
        by (nonlinear_arith);
    let (a, b) = (iw * 256 * num, ih * 256 * num);
    assert(0 <= a && 0 <= b) by (nonlinear_arith)
        requires
            a == iw * 256 * num,
            b == ih * 256 * num,
            0 < iw,
            0 < ih,
            0 < num,
    ;
    assert(0 <= a / den <= cw && 0 <= b / den <= ch) by (nonlinear_arith)
        requires
            0 <= a <= cw * den,
            0 <= b <= ch * den,
            den > 0,
    ;
}

proof fn lemma_shown(side: int, num: int, den: int)
    requires
        0 <= side <= u32::MAX,
        -0x1_0000_0000 <= num <= 0x1_0000_0000,
        0 < den,
    ensures
        -0x100_0000_0000 * 0x1_0000_0000 <= side * 256 * num <= 0x100_0000_0000 * 0x1_0000_0000,
        -0x100_0000_0000 * 0x1_0000_0000 <= side * 256 * num / den <= 0x100_0000_0000
            * 0x1_0000_0000,
{
    assert(-0x100_0000_0000 * 0x1_0000_0000 <= side * 256 * num <= 0x100_0000_0000
        * 0x1_0000_0000) by (nonlinear_arith)
        requires
            0 <= side <= 0xffff_ffff,
            -0x1_0000_0000 <= num <= 0x1_0000_0000,
    ;
    let p = side * 256 * num;
    let l: int = 0x100_0000_0000int * 0x1_0000_0000;
    assert(-l <= p / den <= l) by (nonlinear_arith)
        requires
            -l <= p <= l,
            den > 0,
    ;
}

/// Fit a picture of `iw` by `ih` pixels into an area of `cw` by `ch`, scaled up
/// at most `cap` times.
pub fn fit_picture(cw: i64, ch: i64, iw: u32, ih: u32, cap: Option<i64>) -> (r: Option<Fit>)
    requires
        -0x1_0000_0000 <= cw <= 0x8000_0000,
        -0x1_0000_0000 <= ch <= 0x8000_0000,
        cap matches Some(c) ==> 0 < c <= 16,
    ensures
        r == fitted(
            cw as int,
            ch as int,
            iw as int,
            ih as int,
            match cap {
                Some(c) => Some(c as int),
                None => None,
            },
        ),
        r matches Some(f) ==> f.wf() && f.dw == f.scaled(iw * 256) && f.dh == f.scaled(ih * 256),
{
    if (iw == 0 && ih == 0) || (iw == 0 && cw < 0) || (ih == 0 && ch < 0) {
        return None;
    }
    proof {
        assert(-0x1_0000_0000 * 0x1_0000_0000 <= cw * ih <= 0x8000_0000 * 0x1_0000_0000
            && -0x1_0000_0000 * 0x1_0000_0000 <= ch * iw <= 0x8000_0000 * 0x1_0000_0000)
            by (nonlinear_arith)
            requires
                -0x1_0000_0000 <= cw <= 0x8000_0000,
                -0x1_0000_0000 <= ch <= 0x8000_0000,
                0 <= iw <= 0xffff_ffff,
                0 <= ih <= 0xffff_ffff,
        ;
    }
    let (mut num, mut den): (i64, i64) = if iw == 0 {
        (ch, ih as i64 * 256)
    } else if ih == 0 || cw as i128 * ih as i128 <= ch as i128 * iw as i128 {
        (cw, iw as i64 * 256)
    } else {
        (ch, ih as i64 * 256)
    };
    if let Some(c) = cap {
        proof {
            assert(0 <= c * den <= 16 * 0x100_0000_0000) by (nonlinear_arith)
                requires
                    0 < c <= 16,
                    0 < den <= 0x100_0000_0000,
            ;
        }
        if num as i128 > c as i128 * den as i128 {
            num = c;
            den = 1;
        }
    }
    proof {
        lemma_shown(iw as int, num as int, den as int);
        lemma_shown(ih as int, num as int, den as int);
    }
    let dw: i128 = floor_div(iw as i128 * 256 * num as i128, den as i128);
    let dh: i128 = floor_div(ih as i128 * 256 * num as i128, den as i128);
    Some(
        Fit {
            ox: floor_div(cw as i128 - dw, 2),
            oy: floor_div(ch as i128 - dh, 2),
            dw,
            dh,
            num,
            den,
        },
    )
}

/// A fitted picture lies inside its area, and every point of the picture
/// inside of where it is shown.
pub proof fn law_fit_lies_inside(cw: int, ch: int, iw: int, ih: int, cap: Option<int>, v: int)
    requires
        0 < cw <= 0x8000_0000,
        0 < ch <= 0x8000_0000,
        0 < iw <= u32::MAX,
        0 < ih <= u32::MAX,
        cap matches Some(c) ==> 0 < c <= 16,
        0 <= v <= iw * 256,
    ensures
        ({
            let f = fitted(cw, ch, iw, ih, cap)->0;
            &&& fitted(cw, ch, iw, ih, cap) is Some
            &&& 0 <= f.ox && f.ox + f.dw <= cw
            &&& 0 <= f.oy && f.oy + f.dh <= ch
            &&& 0 <= f.scaled(v) <= f.dw
        }),
{
    lemma_fit(cw, ch, iw, ih, cap);
    let (num, den) = fit_scale(cw, ch, iw, ih, cap);
    assert(0 <= v * num <= iw * 256 * num) by (nonlinear_arith)
        requires
            0 <= v <= iw * 256,
            num > 0,
    ;
    assert(0 <= v * num / den <= iw * 256 * num / den) by (nonlinear_arith)
        requires
            0 <= v * num <= iw * 256 * num,
            den > 0,
    ;
}

/// A fitted picture lies in the middle of its area, keeps its proportions, and
/// is as large as fits: it fills the area on one side, unless it is shown at
/// the largest scale.
pub proof fn law_fit_is_centred_and_full(cw: int, ch: int, iw: int, ih: int, cap: Option<int>)
    requires
        0 < cw <= 0x8000_0000,
        0 < ch <= 0x8000_0000,
        0 < iw <= u32::MAX,
        0 < ih <= u32::MAX,
        cap matches Some(c) ==> 0 < c <= 16,
    ensures
        fitted(cw, ch, iw, ih, cap) matches Some(f) && {
            &&& 0 <= cw - f.dw - 2 * f.ox <= 1
            &&& 0 <= ch - f.dh - 2 * f.oy <= 1
            &&& f.num > 0 && f.den > 0
            &&& f.dw * f.den <= iw * 256 * f.num < (f.dw + 1) * f.den
            &&& f.dh * f.den <= ih * 256 * f.num < (f.dh + 1) * f.den
            &&& f.dw == cw || f.dh == ch || (cap matches Some(c) && f.dw == c * iw * 256 && f.dh == c
                * ih * 256)
            &&& cap matches Some(c) ==> f.num <= c * f.den
        },
{
    lemma_fit(cw, ch, iw, ih, cap);
    let (num, den) = fit_scale(cw, ch, iw, ih, cap);
    let (a, b) = (iw * 256 * num, ih * 256 * num);
    lemma_floor(a, den);
    lemma_floor(b, den);
    let s = if cw * ih <= ch * iw {
        (cw, iw * 256)
    } else {
        (ch, ih * 256)
    };
    if (num, den) == s {
        if cw * ih <= ch * iw {
            lemma_whole(iw * 256, cw);
        } else {
            lemma_whole(ih * 256, ch);
        }
    } else {
        let c = cap->0;
        assert(iw * 256 * c == c * iw * 256 && ih * 256 * c == c * ih * 256) by (nonlinear_arith);
    }
}

/// A position of the window gives a point if and only if it lies on the shown
/// picture; the point is shown at that position again, up to one unit of the
/// picture.
pub proof fn law_point_is_shown_where_it_was(
    r: Option<(i64, i64)>,
    f: Fit,
    x: int,
    y: int,
    iw: int,
    ih: int,
)
    requires
        f.wf(),
        f.num > 0,
        iw >= 0,
        ih >= 0,
        picture_point(r, f, x, y, iw, ih),
    ensures
        r is Some == (0 <= (x - f.ox) * f.den <= iw * 256 * f.num && 0 <= (y - f.oy) * f.den <= ih
            * 256 * f.num),
        r matches Some(q) ==> {
            &&& q.0 * f.num <= (x - f.ox) * f.den < (q.0 + 1) * f.num
            &&& q.1 * f.num <= (y - f.oy) * f.den < (q.1 + 1) * f.num
            &&& f.ox + f.scaled(q.0 as int) <= x <= f.ox + f.scaled(q.0 + 1)
            &&& f.oy + f.scaled(q.1 as int) <= y <= f.oy + f.scaled(q.1 + 1)
        },
{
    if let Some(q) = r {
        lemma_back(x - f.ox, f.num as int, f.den as int);
        lemma_back(y - f.oy, f.num as int, f.den as int);
    }
}

proof fn lemma_back(v: int, num: int, den: int)
    requires
        num > 0,
        den > 0,
    ensures
        v * den / num * num <= v * den < (v * den / num + 1) * num,
        v * den / num * num / den <= v <= (v * den / num + 1) * num / den,
{
    let q = v * den / num;
    assert(q * num <= v * den < (q + 1) * num) by (nonlinear_arith)
        requires
            q == v * den / num,
            num > 0,
    ;
    let (a, b) = (q * num, (q + 1) * num);
    assert(a / den <= v) by (nonlinear_arith)
        requires
            a <= v * den,
            den > 0,
    ;
    assert(v <= b / den) by (nonlinear_arith)
        requires
            v * den <= b,
            den > 0,
    ;
}

proof fn lemma_floor(v: int, d: int)
    requires
        d > 0,
    ensures
        v / d * d <= v < (v / d + 1) * d,
{
    let q = v / d;
    assert(q * d <= v < (q + 1) * d) by (nonlinear_arith)
        requires
            q == v / d,
            d > 0,
    ;
}

proof fn lemma_whole(d: int, k: int)
    requires
        d > 0,
    ensures
        d * k / d == k,
{
    let v = d * k;
    assert(v / d == k) by (nonlinear_arith)
        requires
            v == d * k,
            d > 0,
    ;
}

/// A picture that is fitted into an area has a scale that can be computed with.
pub proof fn lemma_fit_is_wf(cw: int, ch: int, iw: int, ih: int, cap: Option<int>)
    requires
        0 < cw <= 0x8000_0000,
        0 < ch <= 0x8000_0000,
        0 < iw <= u32::MAX,
        0 < ih <= u32::MAX,
        cap matches Some(c) ==> 0 < c <= 16,
    ensures
        fitted(cw, ch, iw, ih, cap) matches Some(f) && f.wf(),
{
    lemma_fit(cw, ch, iw, ih, cap);
}

} // verus!
