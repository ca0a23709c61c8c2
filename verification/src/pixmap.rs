//! Images as rows of premultiplied RGBA pixels.
use vstd::prelude::*;
use crate::color::Rgba;
use crate::error::Error;

verus! {

/// An image: `width * height` pixels of four bytes, row by row.
#[derive(Debug)]
pub struct Pixmap {
    pub width: u32,
    pub height: u32,
    pub data: Vec<u8>,
}

/// What an image holds.
#[verifier::ext_equal]
pub struct PixmapView {
    pub width: u32,
    pub height: u32,
    pub data: Seq<u8>,
}

/// The widest image.
pub const MAX_WIDTH: u32 = 536_870_911;

/// The number of bytes of an image of that size.
pub open spec fn byte_len(width: int, height: int) -> int {
    width * height * 4
}

/// An image can have that size: it is not empty, and neither too wide nor too
/// large for the memory.
pub open spec fn size_ok(width: int, height: int) -> bool {
    0 < width <= MAX_WIDTH && 0 < height && byte_len(width, height) <= usize::MAX
}

impl PixmapView {
    pub open spec fn wf(self) -> bool {
        size_ok(self.width as int, self.height as int) && self.data.len() == byte_len(
            self.width as int,
            self.height as int,
        )
    }

    /// Byte `c` of the pixel at `(x, y)`.
    pub open spec fn at(self, x: int, y: int, c: int) -> u8 {
        self.data[(y * self.width + x) * 4 + c]
    }

    /// The rectangle lies inside the image and is not empty.
    pub open spec fn has_region(self, x: int, y: int, w: int, h: int) -> bool {
        0 <= x && 0 <= y && 0 < w && 0 < h && x + w <= self.width && y + h <= self.height
    }

    /// The pixels of a rectangle.
    pub open spec fn region(self, x: int, y: int, w: u32, h: u32) -> PixmapView {
        PixmapView {
            width: w,
            height: h,
            data: Seq::new(
                byte_len(w as int, h as int) as nat,
                |i: int| self.data[((y + i / (w * 4)) * self.width + x) * 4 + i % (w * 4)],
            ),
        }
    }
}

impl View for Pixmap {
    type V = PixmapView;

    open spec fn view(&self) -> PixmapView {
        PixmapView { width: self.width, height: self.height, data: self.data@ }
    }
}

/// What is decoded from a PNG, or the message of the failure.
pub uninterp spec fn png_decoded(bytes: Seq<u8>) -> Result<(u32, u32, Seq<u8>), Seq<char>>;

/// What an image is encoded to, or the message of the failure.
pub uninterp spec fn png_encoded(width: u32, height: u32, data: Seq<u8>) -> Result<
    Seq<u8>,
    Seq<char>,
>;

/// `tiny_skia::Pixmap::decode_png` and the `Display` text of its error. The
/// result depends on the bytes alone. An image that comes back has a size that
/// an image can have, and as many bytes as that takes. Which pixels a PNG
/// holds is not stated.
#[verifier::external_body]
fn tiny_decode(bytes: &[u8]) -> (r: Result<Pixmap, String>)
    ensures
        match r {
            Ok(p) => png_decoded(bytes@) == Ok::<(u32, u32, Seq<u8>), Seq<char>>(
                (p.width, p.height, p.data@),
            ) && p@.wf(),
            Err(m) => png_decoded(bytes@) == Err::<(u32, u32, Seq<u8>), Seq<char>>(m@),
        },
{
    match tiny_skia::Pixmap::decode_png(bytes) {
        Ok(p) => Ok(Pixmap { width: p.width(), height: p.height(), data: p.take() }),
        Err(e) => Err(e.to_string()),
    }
}

/// `tiny_skia::PixmapRef::encode_png` and the `Display` text of its error. The
/// result depends on the size and the bytes of the image alone; what the
/// encoder writes is not stated.
#[verifier::external_body]
fn tiny_encode(p: &Pixmap) -> (r: Result<Vec<u8>, String>)
    requires
        p@.wf(),
    ensures
        match r {
            Ok(b) => png_encoded(p.width, p.height, p.data@) == Ok::<Seq<u8>, Seq<char>>(b@),
            Err(m) => png_encoded(p.width, p.height, p.data@) == Err::<Seq<u8>, Seq<char>>(m@),
        },
{
    match tiny_skia::PixmapRef::from_bytes(&p.data, p.width, p.height).unwrap().encode_png() {
        Ok(b) => Ok(b),
        Err(e) => Err(e.to_string()),
    }
}

proof fn lemma_sizes(w: int, h: int, a: int, b: int)
    requires
        0 <= w <= a,
        0 <= h <= b,
    ensures
        0 <= byte_len(w, h) <= byte_len(a, b),
{
    assert(0 <= w * h * 4 <= a * b * 4) by (nonlinear_arith)
        requires
            0 <= w <= a,
            0 <= h <= b,
    ;
}

/// The number of bytes of an image of that size, if it can have it.
fn room(width: u32, height: u32) -> (r: Option<usize>)
    ensures
        match r {
            Some(n) => size_ok(width as int, height as int) && n == byte_len(
                width as int,
                height as int,
            ),
            None => !size_ok(width as int, height as int),
        },
{
    if width == 0 || height == 0 || width > MAX_WIDTH {
        return None;
    }
    proof {
        lemma_sizes(width as int, height as int, u32::MAX as int, u32::MAX as int);
    }
    let n: u128 = width as u128 * height as u128 * 4;
    if n > usize::MAX as u128 {
        None
    } else {
        Some(n as usize)
    }
}

fn zeros(n: usize) -> (r: Vec<u8>)
    ensures
        r@ == Seq::new(n as nat, |i: int| 0u8),
{
    let mut out: Vec<u8> = Vec::new();
    while out.len() < n
        invariant
            out@.len() <= n,
            out@ == Seq::new(out@.len(), |i: int| 0u8),
        decreases n - out@.len(),
    {
        out.push(0);
    }
    out
}

impl Pixmap {
    /// A transparent image, if it can have that size.
    pub fn new(width: u32, height: u32) -> (r: Option<Pixmap>)
        ensures
            match r {
                Some(p) => p@.wf() && p@ == (PixmapView {
                    width,
                    height,
                    data: Seq::new(
                        byte_len(width as int, height as int) as nat,
                        |i: int| 0u8,
                    ),
                }),
                None => true,
            },
            (r is Some) == size_ok(width as int, height as int),
    {
        match room(width, height) {
            Some(n) => Some(Pixmap { width, height, data: zeros(n) }),
            None => None,
        }
    }

    /// An image of the bytes from `from` on, if it can have that size.
    pub fn from_bytes(width: u32, height: u32, bytes: &[u8], from: usize) -> (r: Option<Pixmap>)
        requires
            size_ok(width as int, height as int) ==> from + byte_len(width as int, height as int)
                <= bytes@.len(),
        ensures
            match r {
                Some(p) => p@.wf() && p@ == (PixmapView {
                    width,
                    height,
                    data: bytes@.subrange(
                        from as int,
                        from + byte_len(width as int, height as int),
                    ),
                }),
                None => true,
            },
            (r is Some) == size_ok(width as int, height as int),
    {
        match room(width, height) {
            Some(n) => {
                let mut data: Vec<u8> = Vec::new();
                let ghost all = bytes@.subrange(from as int, from + n);
                let total: usize = bytes.len();
                let mut i: usize = 0;
                while i < n
                    invariant
                        i <= n,
                        total == bytes@.len(),
                        from + n <= total,
                        all == bytes@.subrange(from as int, from + n),
                        data@ == all.take(i as int),
                    decreases n - i,
                {
                    data.push(bytes[from + i]);
                    i += 1;
                    assert(data@ =~= all.take(i as int));
                }
                assert(all.take(i as int) =~= all);
                Some(Pixmap { width, height, data })
            },
            None => None,
        }
    }

    /// The same image.
    pub fn duplicate(&self) -> (r: Pixmap)
        ensures
            r@ == self@,
    {
        let mut data: Vec<u8> = Vec::new();
        let mut i: usize = 0;
        while i < self.data.len()
            invariant
                i <= self.data@.len(),
                data@ == self.data@.take(i as int),
            decreases self.data.len() - i,
        {
            data.push(self.data[i]);
            i += 1;
            assert(data@ =~= self.data@.take(i as int));
        }
        assert(self.data@.take(i as int) =~= self.data@);
        Pixmap { width: self.width, height: self.height, data }
    }

    /// Decode a PNG.
    pub fn decode_png(bytes: &[u8]) -> (r: Result<Pixmap, Error>)
        ensures
            match (r, png_decoded(bytes@)) {
                (Ok(p), Ok((w, h, data))) => p@ == (PixmapView { width: w, height: h, data })
                    && p@.wf(),
                (Err(Error::Image(m)), Err(e)) => m@ == e,
                _ => false,
            },
    {
        match tiny_decode(bytes) {
            Ok(p) => Ok(p),
            Err(m) => Err(Error::Image(m)),
        }
    }

    /// Encode as PNG.
    pub fn encode_png(&self) -> (r: Result<Vec<u8>, Error>)
        requires
            self@.wf(),
        ensures
            match (r, png_encoded(self.width, self.height, self@.data)) {
                (Ok(b), Ok(c)) => b@ == c,
                (Err(Error::Image(m)), Err(e)) => m@ == e,
                _ => false,
            },
    {
        match tiny_encode(self) {
            Ok(b) => Ok(b),
            Err(m) => Err(Error::Image(m)),
        }
    }
}

/// Whether a crop may return `r`.
pub open spec fn crop_result(
    r: Result<Pixmap, Error>,
    src: PixmapView,
    x: i32,
    y: i32,
    w: u32,
    h: u32,
) -> bool {
    match r {
        Ok(p) => src.has_region(x as int, y as int, w as int, h as int) && p@.wf() && p@
            == src.region(x as int, y as int, w, h),
        Err(e) => !src.has_region(x as int, y as int, w as int, h as int) && e
            == Error::RegionOutOfBounds(x, y, w, h, src.width, src.height),
    }
}

/// Copy a rectangle out of an image.
pub fn crop(src: &Pixmap, x: i32, y: i32, w: u32, h: u32) -> (r: Result<Pixmap, Error>)
    requires
        src@.wf(),
    ensures
        crop_result(r, src@, x, y, w, h),
{
    let sw: u32 = src.width;
    let sh: u32 = src.height;
    if x < 0 || y < 0 || w == 0 || h == 0 || x as u64 + w as u64 > sw as u64 || y as u64
        + h as u64 > sh as u64 {
        return Err(Error::RegionOutOfBounds(x, y, w, h, sw, sh));
    }
    proof {
        lemma_sizes(w as int, h as int, sw as int, sh as int);
    }
    let ghost view = src@.region(x as int, y as int, w, h);
    let stride: usize = w as usize * 4;
    let mut data: Vec<u8> = Vec::new();
    let mut row: u32 = 0;
    assert(view.data.len() == stride * h) by (nonlinear_arith)
        requires
            view.data.len() == byte_len(w as int, h as int),
            stride == w * 4,
    ;
    assert(data@ =~= view.data.take(0));
    while row < h
        invariant
            src@.wf(),
            sw == src.width,
            sh == src.height,
            0 <= x,
            0 <= y,
            0 < w,
            x + w <= sw,
            y + h <= sh,
            row <= h,
            stride == w * 4,
            view == src@.region(x as int, y as int, w, h),
            view.data.len() == stride * h,
            data@ == view.data.take(stride * row),
            view.data.len() <= usize::MAX,
        decreases h - row,
    {
        let ghost off = ((y + row) * sw + x) * 4;
        proof {
            assert(0 <= off && off + stride <= byte_len(sw as int, sh as int)) by (nonlinear_arith)
                requires
                    off == ((y + row) * sw + x) * 4,
                    0 <= x,
                    0 <= y,
                    0 <= row < h,
                    x + w <= sw,
                    y + h <= sh,
                    stride == w * 4,
            ;
            assert(stride * row + stride == stride * (row + 1)) by (nonlinear_arith);
            assert(stride * (row + 1) <= stride * h) by (nonlinear_arith)
                requires
                    row < h,
                    0 <= stride,
            ;
            assert(0 <= (y + row) * sw) by (nonlinear_arith)
                requires
                    0 <= y,
                    0 <= row,
                    0 <= sw,
            ;
            assert((y + row) * sw <= off) by (nonlinear_arith)
                requires
                    off == ((y + row) * sw + x) * 4,
                    0 <= (y + row) * sw,
                    0 <= x,
            ;
        }
        let from: usize = ((y as usize + row as usize) * (sw as usize) + x as usize) * 4;
        let mut i: usize = 0;
        while i < stride
            invariant
                src@.wf(),
                sw == src.width,
                from == ((y + row) * sw + x) * 4,
                from + stride <= src.data@.len(),
                i <= stride,
                stride == w * 4,
                0 < w,
                0 <= row,
                view == src@.region(x as int, y as int, w, h),
                stride * row + stride <= view.data.len(),
                0 <= stride * row,
                data@ == view.data.take(stride * row + i),
            decreases stride - i,
        {
            let ghost k = stride * row + i;
            proof {
                assert(k / (stride as int) == row && k % (stride as int) == i) by (nonlinear_arith)
                    requires
                        k == stride * row + i,
                        0 <= i < stride,
                ;
                assert(view.data[k] == src.data@[from + i]);
            }
            data.push(src.data[from + i]);
            i += 1;
            assert(data@ =~= view.data.take(stride * row + i));
        }
        row += 1;
        assert(stride * (row - 1) + stride == stride * row) by (nonlinear_arith);
    }
    assert(data@ =~= view.data);
    Ok(Pixmap { width: w, height: h, data })
}

/// Every pixel of a cropped rectangle is the pixel of the image at the same
/// place.
pub proof fn law_crop_keeps_pixels(
    src: PixmapView,
    x: int,
    y: int,
    w: u32,
    h: u32,
    px: int,
    py: int,
    c: int,
)
    requires
        src.has_region(x, y, w as int, h as int),
        0 <= px < w,
        0 <= py < h,
        0 <= c < 4,
    ensures
        src.region(x, y, w, h).at(px, py, c) == src.at(x + px, y + py, c),
{
    let i = (py * w + px) * 4 + c;
    let stride = w * 4;
    assert(0 <= i < byte_len(w as int, h as int) && i / stride == py && i % stride == px * 4 + c)
        by (nonlinear_arith)
        requires
            i == (py * w + px) * 4 + c,
            stride == w * 4,
            0 <= px < w,
            0 <= py < h,
            0 <= c < 4,
    {
        assert(i == stride * py + (px * 4 + c));
        assert(0 <= px * 4 + c < stride);
        assert(py * w <= (h - 1) * w);
    }
    assert(((y + py) * src.width + x) * 4 + (px * 4 + c) == ((y + py) * src.width + (x + px)) * 4
        + c) by (nonlinear_arith);
}

/// A rectangle is cropped if and only if it has pixels and lies inside of the
/// image. Its pixels are those of the image at the same place, byte by byte.
pub proof fn law_crop_takes_the_rectangle(
    r: Result<Pixmap, Error>,
    src: PixmapView,
    x: i32,
    y: i32,
    w: u32,
    h: u32,
    px: int,
    py: int,
    c: int,
)
    requires
        crop_result(r, src, x, y, w, h),
        0 <= px < w,
        0 <= py < h,
        0 <= c < 4,
    ensures
        r is Ok == (0 <= x && x + w <= src.width && 0 <= y && y + h <= src.height && 0 < w && 0 < h),
        r matches Ok(p) ==> p.width == w && p.height == h && p.data@.len() == w * h * 4 && p.data@[(py
            * w + px) * 4 + c] == src.data[((y + py) * src.width + (x + px)) * 4 + c],
{
    if r is Ok {
        law_crop_keeps_pixels(src, x as int, y as int, w, h, px, py, c);
    }
}

// ---- blending ----

/// A straight-alpha byte over a premultiplied one.
pub open spec fn blended(src: u8, dst: u8, a: u8) -> u8 {
    ((src * a + dst * (255 - a) + 127) / 255) as u8
}

/// The bytes with `color` blended over the pixel at byte `at`.
pub open spec fn blend_at(data: Seq<u8>, at: int, color: Rgba) -> Seq<u8> {
    data.update(at, blended(color.r, data[at], color.a)).update(
        at + 1,
        blended(color.g, data[at + 1], color.a),
    ).update(at + 2, blended(color.b, data[at + 2], color.a)).update(
        at + 3,
        blended(255, data[at + 3], color.a),
    )
}

proof fn lemma_blended(src: u8, dst: u8, a: u8)
    ensures
        0 <= src * a <= 65025,
        0 <= dst * (255 - a) <= 65025,
        src * a + dst * (255 - a) <= 65025,
        0 <= (src * a + dst * (255 - a) + 127) / 255 <= 255,
{
    assert(0 <= src * a <= 255 * a && 0 <= dst * (255 - a) <= 255 * (255 - a)) by (nonlinear_arith)
        requires
            0 <= src <= 255,
            0 <= dst <= 255,
            0 <= a <= 255,
    ;
}

/// Blending an opaque color replaces the pixel, and blending a transparent
/// one leaves it as it is.
pub proof fn law_blend_extremes(src: u8, dst: u8)
    ensures
        blended(src, dst, 255) == src,
        blended(src, dst, 0) == dst,
{
    assert(src * 255 + dst * (255 - 255) + 127 == src * 255 + 127) by (nonlinear_arith);
    assert(src * 0 + dst * (255 - 0) + 127 == dst * 255 + 127) by (nonlinear_arith);
    assert((src * 255 + 127) / 255 == src);
    assert((dst * 255 + 127) / 255 == dst);
}

/// A blended byte is the nearest one to the mean of the two, weighted by the
/// alpha of the color.
pub proof fn law_blend_is_a_weighted_mean(src: u8, dst: u8, a: u8)
    ensures
        -127 <= 255 * blended(src, dst, a) - (src * a + dst * (255 - a)) <= 127,
{
    lemma_blended(src, dst, a);
}

/// No color byte of the pixel at byte `at` exceeds its alpha.
pub open spec fn premultiplied(data: Seq<u8>, at: int) -> bool {
    data[at] <= data[at + 3] && data[at + 1] <= data[at + 3] && data[at + 2] <= data[at + 3]
}

/// A premultiplied pixel stays so under a blended color, and becomes no more
/// transparent.
pub proof fn law_blend_keeps_premultiplied(data: Seq<u8>, at: int, color: Rgba)
    requires
        0 <= at,
        at + 4 <= data.len(),
        premultiplied(data, at),
    ensures
        premultiplied(blend_at(data, at, color), at),
        blend_at(data, at, color)[at + 3] >= data[at + 3],
{
    let a = color.a;
    lemma_blend_order(color.r, 255, data[at], data[at + 3], a);
    lemma_blend_order(color.g, 255, data[at + 1], data[at + 3], a);
    lemma_blend_order(color.b, 255, data[at + 2], data[at + 3], a);
    lemma_blend_order(data[at + 3], 255, data[at + 3], data[at + 3], a);
    let d = data[at + 3];
    assert(d * a + d * (255 - a) == d * 255) by (nonlinear_arith);
    assert((d * 255 + 127) / 255 == d);
    assert(blended(d, d, a) == d);
}

proof fn lemma_blend_order(s1: u8, s2: u8, d1: u8, d2: u8, a: u8)
    requires
        s1 <= s2,
        d1 <= d2,
    ensures
        blended(s1, d1, a) <= blended(s2, d2, a),
{
    lemma_blended(s1, d1, a);
    lemma_blended(s2, d2, a);
    assert(s1 * a <= s2 * a && d1 * (255 - a) <= d2 * (255 - a)) by (nonlinear_arith)
        requires
            s1 <= s2,
            d1 <= d2,
            0 <= a <= 255,
    ;
}

fn mix(src: u8, dst: u8, a: u8) -> (r: u8)
    ensures
        r == blended(src, dst, a),
{
    proof {
        lemma_blended(src, dst, a);
    }
    ((src as u32 * a as u32 + dst as u32 * (255 - a as u32) + 127) / 255) as u8
}

/// Blend a straight-alpha color over the premultiplied pixel at byte `idx`.
pub fn blend_px(data: &mut Vec<u8>, idx: usize, r: u8, g: u8, b: u8, a: u8)
    requires
        idx + 4 <= old(data)@.len(),
    ensures
        final(data)@ == blend_at(old(data)@, idx as int, Rgba { r, g, b, a }),
{
    let n: usize = data.len();
    let r2: u8 = mix(r, data[idx], a);
    let g2: u8 = mix(g, data[idx + 1], a);
    let b2: u8 = mix(b, data[idx + 2], a);
    let a2: u8 = mix(255, data[idx + 3], a);
    data.set(idx, r2);
    data.set(idx + 1, g2);
    data.set(idx + 2, b2);
    data.set(idx + 3, a2);
}

/// One cell of a drawn glyph: a rectangle of one color.
#[derive(Clone, Copy, PartialEq, Eq, Structural, Debug)]
pub struct Cell {
    pub x: i32,
    pub y: i32,
    pub w: u32,
    pub h: u32,
    pub color: Rgba,
}

/// Whether the pixel lies inside the image.
pub open spec fn on_image(width: u32, height: u32, x: int, y: int) -> bool {
    0 <= x < width && 0 <= y < height
}

/// The bytes after blending the first `n` pixels of row `y` of a cell whose
/// left edge is at `x`.
pub open spec fn cell_row(
    data: Seq<u8>,
    width: u32,
    height: u32,
    x: int,
    y: int,
    n: int,
    color: Rgba,
) -> Seq<u8>
    decreases n,
{
    if n <= 0 {
        data
    } else {
        let before = cell_row(data, width, height, x, y, n - 1, color);
        let tx = x + n - 1;
        if on_image(width, height, tx, y) {
            blend_at(before, (y * width + tx) * 4, color)
        } else {
            before
        }
    }
}

/// The bytes after blending the first `n` rows of a cell at `(x, y)`.
pub open spec fn cell_rows(
    data: Seq<u8>,
    width: u32,
    height: u32,
    x: int,
    y: int,
    w: int,
    n: int,
    color: Rgba,
) -> Seq<u8>
    decreases n,
{
    if n <= 0 {
        data
    } else {
        cell_row(
            cell_rows(data, width, height, x, y, w, n - 1, color),
            width,
            height,
            x,
            y + n - 1,
            w,
            color,
        )
    }
}

/// The image with a cell drawn at `(px + cell.x, py + cell.y)`. What falls
/// off the image is left out, and a transparent cell draws nothing.
pub open spec fn cell_drawn(p: PixmapView, px: i32, py: i32, cell: Cell) -> PixmapView {
    if cell.color.a == 0 {
        p
    } else {
        PixmapView {
            data: cell_rows(
                p.data,
                p.width,
                p.height,
                px + cell.x,
                py + cell.y,
                cell.w as int,
                cell.h as int,
                cell.color,
            ),
            ..p
        }
    }
}

proof fn lemma_offset(width: u32, height: u32, x: int, y: int)
    requires
        on_image(width, height, x, y),
    ensures
        0 <= (y * width + x) * 4,
        (y * width + x) * 4 + 4 <= byte_len(width as int, height as int),
        0 <= y * width <= y * width + x,
{
    assert(0 <= (y * width + x) * 4 && (y * width + x) * 4 + 4 <= byte_len(
        width as int,
        height as int,
    ) && 0 <= y * width) by (nonlinear_arith)
        requires
            0 <= x < width,
            0 <= y < height,
            byte_len(width as int, height as int) == width * height * 4,
    ;
}

/// Draw one cell of a glyph of a text whose corner is at `(px, py)`.
pub fn draw_cell(p: &mut Pixmap, px: i32, py: i32, cell: &Cell)
    requires
        old(p)@.wf(),
    ensures
        final(p)@ == cell_drawn(old(p)@, px, py, *cell),
        final(p)@.wf(),
{
    if cell.color.a == 0 {
        return ;
    }
    let c = cell.color;
    let x: i64 = px as i64 + cell.x as i64;
    let y: i64 = py as i64 + cell.y as i64;
    let width: u32 = p.width;
    let height: u32 = p.height;
    let ghost start = p.data@;
    let mut dy: u32 = 0;
    while dy < cell.h
        invariant
            p.width == width,
            p.height == height,
            p@.wf(),
            c == cell.color,
            x == px + cell.x,
            y == py + cell.y,
            dy <= cell.h,
            p.data@ == cell_rows(
                start,
                width,
                height,
                x as int,
                y as int,
                cell.w as int,
                dy as int,
                c,
            ),
        decreases cell.h - dy,
    {
        let ghost row = p.data@;
        let ty: i64 = y + dy as i64;
        let mut dx: u32 = 0;
        while dx < cell.w
            invariant
                p.width == width,
                p.height == height,
                p@.wf(),
                x == px + cell.x,
                y == py + cell.y,
                ty == y + dy,
                dx <= cell.w,
                p.data@ == cell_row(
                    row,
                    width,
                    height,
                    x as int,
                    ty as int,
                    dx as int,
                    c,
                ),
            decreases cell.w - dx,
        {
            let tx: i64 = x + dx as i64;
            if 0 <= tx && tx < width as i64 && 0 <= ty && ty < height as i64 {
                proof {
                    lemma_offset(width, height, tx as int, ty as int);
                }
                let at: usize = (ty as usize * width as usize + tx as usize) * 4;
                blend_px(&mut p.data, at, c.r, c.g, c.b, c.a);
            }
            dx += 1;
        }
        dy += 1;
    }
}

/// Two pixels of an image do not share a byte.
proof fn lemma_apart(width: u32, height: u32, x: int, y: int, tx: int, ty: int)
    requires
        on_image(width, height, x, y),
        on_image(width, height, tx, ty),
        x != tx || y != ty,
    ensures
        (y * width + x) * 4 + 4 <= (ty * width + tx) * 4 || (ty * width + tx) * 4 + 4 <= (y * width
            + x) * 4,
{
    if y < ty {
        assert(y * width + width <= ty * width) by (nonlinear_arith)
            requires
                y + 1 <= ty,
        ;
    } else if ty < y {
        assert(ty * width + width <= y * width) by (nonlinear_arith)
            requires
                ty + 1 <= y,
        ;
    }
}

/// The four bytes at `at`, blended once with `color` where `hit` holds.
spec fn touched(data: Seq<u8>, before: Seq<u8>, at: int, color: Rgba, hit: bool) -> bool {
    if hit {
        &&& data[at] == blended(color.r, before[at], color.a)
        &&& data[at + 1] == blended(color.g, before[at + 1], color.a)
        &&& data[at + 2] == blended(color.b, before[at + 2], color.a)
        &&& data[at + 3] == blended(255, before[at + 3], color.a)
    } else {
        &&& data[at] == before[at]
        &&& data[at + 1] == before[at + 1]
        &&& data[at + 2] == before[at + 2]
        &&& data[at + 3] == before[at + 3]
    }
}

proof fn lemma_cell_row(
    data: Seq<u8>,
    width: u32,
    height: u32,
    x: int,
    y: int,
    n: int,
    color: Rgba,
    tx: int,
    ty: int,
)
    requires
        data.len() == byte_len(width as int, height as int),
        on_image(width, height, tx, ty),
    ensures
        cell_row(data, width, height, x, y, n, color).len() == data.len(),
        touched(
            cell_row(data, width, height, x, y, n, color),
            data,
            (ty * width + tx) * 4,
            color,
            ty == y && x <= tx < x + n,
        ),
    decreases n,
{
    lemma_offset(width, height, tx, ty);
    if n > 0 {
        lemma_cell_row(data, width, height, x, y, n - 1, color, tx, ty);
        let cx = x + n - 1;
        if on_image(width, height, cx, y) {
            lemma_offset(width, height, cx, y);
            if cx != tx || y != ty {
                lemma_apart(width, height, cx, y, tx, ty);
            }
        }
    }
}

proof fn lemma_cell_rows(
    data: Seq<u8>,
    width: u32,
    height: u32,
    x: int,
    y: int,
    w: int,
    n: int,
    color: Rgba,
    tx: int,
    ty: int,
)
    requires
        data.len() == byte_len(width as int, height as int),
        on_image(width, height, tx, ty),
    ensures
        cell_rows(data, width, height, x, y, w, n, color).len() == data.len(),
        touched(
            cell_rows(data, width, height, x, y, w, n, color),
            data,
            (ty * width + tx) * 4,
            color,
            y <= ty < y + n && x <= tx < x + w,
        ),
    decreases n,
{
    if n > 0 {
        lemma_cell_rows(data, width, height, x, y, w, n - 1, color, tx, ty);
        lemma_cell_row(
            cell_rows(data, width, height, x, y, w, n - 1, color),
            width,
            height,
            x,
            y + n - 1,
            w,
            color,
            tx,
            ty,
        );
    }
}

/// Drawing a cell of a text at `(px, py)` blends its color once over every
/// pixel `(x, y)` of the rectangle that begins at `(px + cell.x, py + cell.y)`
/// and is as large as the cell. Other pixels keep their bytes, and an opaque
/// color replaces what was there.
pub proof fn law_cell_covers_its_rectangle(
    p: PixmapView,
    px: i32,
    py: i32,
    cell: Cell,
    x: int,
    y: int,
)
    requires
        p.data.len() == p.width * p.height * 4,
        0 <= x < p.width,
        0 <= y < p.height,
    ensures
        cell_drawn(p, px, py, cell).width == p.width,
        cell_drawn(p, px, py, cell).height == p.height,
        cell_drawn(p, px, py, cell).data.len() == p.data.len(),
        ({
            let at = (y * p.width + x) * 4;
            let d = cell_drawn(p, px, py, cell).data;
            let c = cell.color;
            if px + cell.x <= x < px + cell.x + cell.w && py + cell.y <= y < py + cell.y + cell.h {
                &&& d[at] == blended(c.r, p.data[at], c.a)
                &&& d[at + 1] == blended(c.g, p.data[at + 1], c.a)
                &&& d[at + 2] == blended(c.b, p.data[at + 2], c.a)
                &&& d[at + 3] == blended(255, p.data[at + 3], c.a)
                &&& c.a == 255 ==> d[at] == c.r && d[at + 1] == c.g && d[at + 2] == c.b && d[at + 3]
                    == 255
            } else {
                &&& d[at] == p.data[at]
                &&& d[at + 1] == p.data[at + 1]
                &&& d[at + 2] == p.data[at + 2]
                &&& d[at + 3] == p.data[at + 3]
            }
        }),
{
    let at = (y * p.width + x) * 4;
    let c = cell.color;
    lemma_offset(p.width, p.height, x, y);
    lemma_cell_rows(
        p.data,
        p.width,
        p.height,
        px + cell.x,
        py + cell.y,
        cell.w as int,
        cell.h as int,
        c,
        x,
        y,
    );
    law_blend_extremes(c.r, p.data[at]);
    law_blend_extremes(c.g, p.data[at + 1]);
    law_blend_extremes(c.b, p.data[at + 2]);
    law_blend_extremes(255, p.data[at + 3]);
}

// ---- channel order ----

/// The bytes with red and blue swapped in every pixel.
pub open spec fn swapped(data: Seq<u8>) -> Seq<u8> {
    Seq::new(
        data.len(),
        |i: int|
            if i / 4 * 4 + 4 > data.len() {
                data[i]
            } else if i % 4 == 0 {
                data[i + 2]
            } else if i % 4 == 2 {
                data[i - 2]
            } else {
                data[i]
            },
    )
}

/// Swap red and blue in every pixel.
pub fn swap_channels(data: &mut Vec<u8>)
    ensures
        final(data)@ == swapped(old(data)@),
{
    let ghost before = data@;
    let n: usize = data.len();
    let mut i: usize = 0;
    while n >= 4 && i <= n - 4
        invariant
            n == before.len(),
            data@.len() == n,
            i % 4 == 0,
            i <= n,
            forall|k: int| 0 <= k < i ==> data@[k] == #[trigger] swapped(before)[k],
            forall|k: int| i <= k < n ==> #[trigger] data@[k] == before[k],
        decreases n - i,
    {
        let r: u8 = data[i];
        let b: u8 = data[i + 2];
        data.set(i, b);
        data.set(i + 2, r);
        i += 4;
    }
    assert(data@ =~= swapped(before));
}

/// The first and the third byte of every pixel change places, and the others
/// stay.
pub proof fn law_swap_exchanges_red_and_blue(data: Seq<u8>, k: int)
    requires
        0 <= k,
        4 * k + 4 <= data.len(),
    ensures
        swapped(data).len() == data.len(),
        swapped(data)[4 * k] == data[4 * k + 2],
        swapped(data)[4 * k + 1] == data[4 * k + 1],
        swapped(data)[4 * k + 2] == data[4 * k],
        swapped(data)[4 * k + 3] == data[4 * k + 3],
{
}

/// Swapping twice changes nothing.
pub proof fn law_swap_undoes_itself(data: Seq<u8>)
    ensures
        swapped(swapped(data)) == data,
{
    assert(swapped(swapped(data)) =~= data);
}

} // verus!
