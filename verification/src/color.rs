//! Color names and hexadecimal colors.
use vstd::prelude::*;
use crate::error::{owned, Error};
use crate::text;

verus! {

/// A color with straight (not premultiplied) alpha.
#[derive(Clone, Copy, PartialEq, Eq, Structural, Debug)]
pub struct Rgba {
    pub r: u8,
    pub g: u8,
    pub b: u8,
    pub a: u8,
}

pub open spec fn opaque_color(r: u8, g: u8, b: u8) -> Rgba {
    Rgba { r, g, b, a: 255 }
}

/// The basic colors by name, in lower case.
pub open spec fn named_color(name: Seq<char>) -> Option<Rgba> {
    if name == "red"@ {
        Some(opaque_color(255, 59, 48))
    } else if name == "orange"@ {
        Some(opaque_color(255, 149, 0))
    } else if name == "yellow"@ {
        Some(opaque_color(255, 204, 0))
    } else if name == "green"@ {
        Some(opaque_color(52, 199, 89))
    } else if name == "blue"@ {
        Some(opaque_color(0, 122, 255))
    } else if name == "purple"@ {
        Some(opaque_color(175, 82, 222))
    } else if name == "pink"@ {
        Some(opaque_color(255, 45, 85))
    } else if name == "black"@ {
        Some(opaque_color(0, 0, 0))
    } else if name == "white"@ {
        Some(opaque_color(255, 255, 255))
    } else if name == "gray"@ || name == "grey"@ {
        Some(opaque_color(142, 142, 147))
    } else {
        None
    }
}

/// The value of a hexadecimal digit.
pub open spec fn hex_digit(c: char) -> Option<int> {
    if '0' <= c <= '9' {
        Some(c as int - '0' as int)
    } else if 'a' <= c <= 'f' {
        Some(c as int - 'a' as int + 10)
    } else if 'A' <= c <= 'F' {
        Some(c as int - 'A' as int + 10)
    } else {
        None
    }
}

/// A component of one digit, which stands for two of the same.
pub open spec fn hex_single(s: Seq<char>, i: int) -> Option<u8> {
    match hex_digit(s[i]) {
        Some(d) => Some((d * 17) as u8),
        None => None,
    }
}

/// A component of two digits.
pub open spec fn hex_pair(s: Seq<char>, i: int) -> Option<u8> {
    match (hex_digit(s[i]), hex_digit(s[i + 1])) {
        (Some(a), Some(b)) => Some((a * 16 + b) as u8),
        _ => None,
    }
}

pub open spec fn from_parts(r: Option<u8>, g: Option<u8>, b: Option<u8>, a: Option<u8>) -> Option<
    Rgba,
> {
    match (r, g, b, a) {
        (Some(r), Some(g), Some(b), Some(a)) => Some(Rgba { r, g, b, a }),
        _ => None,
    }
}

/// The color of the digits of `RGB`, `RRGGBB` or `RRGGBBAA`.
pub open spec fn hex_color(h: Seq<char>) -> Option<Rgba> {
    if h.len() == 3 {
        from_parts(hex_single(h, 0), hex_single(h, 1), hex_single(h, 2), Some(255))
    } else if h.len() == 6 {
        from_parts(hex_pair(h, 0), hex_pair(h, 2), hex_pair(h, 4), Some(255))
    } else if h.len() == 8 {
        from_parts(hex_pair(h, 0), hex_pair(h, 2), hex_pair(h, 4), hex_pair(h, 6))
    } else {
        None
    }
}

/// The color that a text names: a basic color in any case, or `#` and digits.
pub open spec fn color_of(s: Seq<char>) -> Option<Rgba> {
    match named_color(text::lower(s)) {
        Some(c) => Some(c),
        None => if s.len() > 0 && s[0] == '#' {
            hex_color(s.skip(1))
        } else {
            None
        },
    }
}

/// Whether a call that reads `s` as a color may return `r`: the color, or the
/// error that names `s`.
pub open spec fn color_result(r: Result<Rgba, Error>, s: Seq<char>) -> bool {
    match (r, color_of(s)) {
        (Ok(c), Some(d)) => c == d,
        (Err(Error::InvalidColor(m)), None) => m@ == s,
        _ => false,
    }
}

fn opaque(r: u8, g: u8, b: u8) -> (c: Rgba)
    ensures
        c == opaque_color(r, g, b),
{
    Rgba { r, g, b, a: 255 }
}

fn find_named(name: &str) -> (r: Option<Rgba>)
    ensures
        r == named_color(name@),
{
    if text::same_text(name, "red") {
        Some(opaque(255, 59, 48))
    } else if text::same_text(name, "orange") {
        Some(opaque(255, 149, 0))
    } else if text::same_text(name, "yellow") {
        Some(opaque(255, 204, 0))
    } else if text::same_text(name, "green") {
        Some(opaque(52, 199, 89))
    } else if text::same_text(name, "blue") {
        Some(opaque(0, 122, 255))
    } else if text::same_text(name, "purple") {
        Some(opaque(175, 82, 222))
    } else if text::same_text(name, "pink") {
        Some(opaque(255, 45, 85))
    } else if text::same_text(name, "black") {
        Some(opaque(0, 0, 0))
    } else if text::same_text(name, "white") {
        Some(opaque(255, 255, 255))
    } else if text::same_text(name, "gray") || text::same_text(name, "grey") {
        Some(opaque(142, 142, 147))
    } else {
        None
    }
}

fn digit(c: char) -> (r: Option<u8>)
    ensures
        match r {
            Some(d) => hex_digit(c) == Some(d as int) && d < 16,
            None => hex_digit(c) is None,
        },
{
    let u: u32 = c as u32;
    if 48 <= u && u <= 57 {
        Some((u - 48) as u8)
    } else if 97 <= u && u <= 102 {
        Some((u - 97 + 10) as u8)
    } else if 65 <= u && u <= 70 {
        Some((u - 65 + 10) as u8)
    } else {
        None
    }
}

fn single(s: &[char], i: usize) -> (r: Option<u8>)
    requires
        i < s@.len(),
    ensures
        r == hex_single(s@, i as int),
{
    match digit(s[i]) {
        Some(d) => Some(d * 17),
        None => None,
    }
}

fn pair(s: &[char], i: usize) -> (r: Option<u8>)
    requires
        i + 1 < s@.len(),
    ensures
        r == hex_pair(s@, i as int),
{
    match (digit(s[i]), digit(s[i + 1])) {
        (Some(a), Some(b)) => Some(a * 16 + b),
        _ => None,
    }
}

fn parts(r: Option<u8>, g: Option<u8>, b: Option<u8>, a: Option<u8>) -> (c: Option<Rgba>)
    ensures
        c == from_parts(r, g, b, a),
{
    match (r, g, b, a) {
        (Some(r), Some(g), Some(b), Some(a)) => Some(Rgba { r, g, b, a }),
        _ => None,
    }
}

fn read_hex(h: &[char]) -> (r: Option<Rgba>)
    ensures
        r == hex_color(h@),
{
    if h.len() == 3 {
        parts(single(h, 0), single(h, 1), single(h, 2), Some(255))
    } else if h.len() == 6 {
        parts(pair(h, 0), pair(h, 2), pair(h, 4), Some(255))
    } else if h.len() == 8 {
        parts(pair(h, 0), pair(h, 2), pair(h, 4), pair(h, 6))
    } else {
        None
    }
}

/// Read a color: a basic color name, `#RGB`, `#RRGGBB` or `#RRGGBBAA`.
pub fn parse_color(s: &str) -> (r: Result<Rgba, Error>)
    ensures
        color_result(r, s@),
{
    let chars = text::to_chars(s);
    let low = text::lowered(chars.as_slice());
    let name = text::from_chars(low.as_slice());
    if let Some(c) = find_named(name.as_str()) {
        return Ok(c);
    }
    if chars.len() > 0 && chars[0] == '#' {
        let h = text::copy_range(chars.as_slice(), 1, chars.len());
        assert(h@ =~= s@.skip(1));
        if let Some(c) = read_hex(h.as_slice()) {
            return Ok(c);
        }
    }
    Err(Error::InvalidColor(owned(s)))
}

/// The case of letters makes no difference, in a name or in digits.
pub proof fn law_color_ignores_case(s: Seq<char>)
    ensures
        color_of(text::lower(s)) == color_of(s),
{
    let l = text::lower(s);
    assert forall|i: int| 0 <= i < s.len() implies hex_digit(#[trigger] l[i]) == hex_digit(s[i])
        && (l[i] == '#' <==> s[i] == '#') by {
        lemma_digit_case(s[i]);
    }
    assert forall|i: int| 0 <= i < s.len() implies text::lower(l)[i] == #[trigger] l[i] by {
        lemma_digit_case(s[i]);
    }
    assert(text::lower(l) =~= l);
    if s.len() > 0 {
        let (a, b) = (s.skip(1), l.skip(1));
        assert forall|i: int| 0 <= i < a.len() implies hex_digit(#[trigger] a[i]) == hex_digit(b[i]) by {
            assert(b[i] == l[i + 1] && a[i] == s[i + 1]);
        }
        lemma_same_digits(a, b);
    }
}

proof fn lemma_digit_case(c: char)
    ensures
        hex_digit(text::ascii_lower(c)) == hex_digit(c),
        text::ascii_lower(text::ascii_lower(c)) == text::ascii_lower(c),
        text::ascii_lower(c) == '#' <==> c == '#',
{
}

proof fn lemma_same_digits(a: Seq<char>, b: Seq<char>)
    requires
        a.len() == b.len(),
        forall|i: int| 0 <= i < a.len() ==> hex_digit(#[trigger] a[i]) == hex_digit(b[i]),
    ensures
        hex_color(a) == hex_color(b),
{
    if a.len() == 3 || a.len() == 6 || a.len() == 8 {
        assert(hex_digit(a[0]) == hex_digit(b[0]));
        assert(hex_digit(a[1]) == hex_digit(b[1]));
        assert(hex_digit(a[2]) == hex_digit(b[2]));
        if a.len() >= 6 {
            assert(hex_digit(a[3]) == hex_digit(b[3]));
            assert(hex_digit(a[4]) == hex_digit(b[4]));
            assert(hex_digit(a[5]) == hex_digit(b[5]));
        }
        if a.len() == 8 {
            assert(hex_digit(a[6]) == hex_digit(b[6]));
            assert(hex_digit(a[7]) == hex_digit(b[7]));
        }
    }
}

/// The short form stands for the long one with every digit twice, and the
/// long one for that with full opacity.
pub proof fn law_short_colors_are_doubled(r: char, g: char, b: char)
    requires
        hex_digit(r) is Some,
        hex_digit(g) is Some,
        hex_digit(b) is Some,
    ensures
        color_of(seq!['#', r, g, b]) is Some,
        color_of(seq!['#', r, g, b]) == color_of(seq!['#', r, r, g, g, b, b]),
        color_of(seq!['#', r, r, g, g, b, b, 'f', 'f']) == color_of(
            seq!['#', r, r, g, g, b, b],
        ),
{
    let (short, long, full) = (
        seq!['#', r, g, b],
        seq!['#', r, r, g, g, b, b],
        seq!['#', r, r, g, g, b, b, 'f', 'f'],
    );
    lemma_no_name(short);
    lemma_no_name(long);
    lemma_no_name(full);
    assert(short.skip(1) =~= seq![r, g, b]);
    assert(long.skip(1) =~= seq![r, r, g, g, b, b]);
    assert(full.skip(1) =~= seq![r, r, g, g, b, b, 'f', 'f']);
}

/// What begins with `#` is no name.
proof fn lemma_no_name(s: Seq<char>)
    requires
        s.len() > 0,
        s[0] == '#',
    ensures
        named_color(text::lower(s)) is None,
{
    reveal_strlit("red");
    reveal_strlit("orange");
    reveal_strlit("yellow");
    reveal_strlit("green");
    reveal_strlit("blue");
    reveal_strlit("purple");
    reveal_strlit("pink");
    reveal_strlit("black");
    reveal_strlit("white");
    reveal_strlit("gray");
    reveal_strlit("grey");
    assert(text::lower(s)[0] == '#');
}

/// `#RRGGBB` is the color of three bytes in hexadecimal digits of either case,
/// opaque, and `#RRGGBBAA` has its alpha as a fourth one.
pub proof fn law_hex_colors_are_their_bytes(r: u8, g: u8, b: u8, a: u8, s: Seq<char>)
    requires
        s.len() == 9,
        s[0] == '#',
        is_hex(s[1], r / 16) && is_hex(s[2], r % 16),
        is_hex(s[3], g / 16) && is_hex(s[4], g % 16),
        is_hex(s[5], b / 16) && is_hex(s[6], b % 16),
        is_hex(s[7], a / 16) && is_hex(s[8], a % 16),
    ensures
        color_of(s) == Some(Rgba { r, g, b, a }),
        color_of(s.take(7)) == Some(Rgba { r, g, b, a: 255 }),
{
    lemma_no_name(s);
    lemma_no_name(s.take(7));
    assert(s.take(7).skip(1).len() == 6);
}

/// Whether `c` is the digit of `d` in base sixteen.
pub open spec fn is_hex(c: char, d: u8) -> bool {
    if d < 10 {
        c as int == '0' as int + d
    } else {
        c as int == 'a' as int + d - 10 || c as int == 'A' as int + d - 10
    }
}

/// A text without a leading `#` is a color only by its name.
pub proof fn law_other_texts_are_names(s: Seq<char>)
    requires
        s.len() == 0 || s[0] != '#',
    ensures
        color_of(s) == named_color(text::lower(s)),
{
}

/// The named colors are those of the palette that they are named after, all
/// opaque, and gray has two spellings.
pub proof fn law_named_colors()
    ensures
        color_of("red"@) == Some(Rgba { r: 0xff, g: 0x3b, b: 0x30, a: 255 }),
        color_of("orange"@) == Some(Rgba { r: 0xff, g: 0x95, b: 0x00, a: 255 }),
        color_of("yellow"@) == Some(Rgba { r: 0xff, g: 0xcc, b: 0x00, a: 255 }),
        color_of("green"@) == Some(Rgba { r: 0x34, g: 0xc7, b: 0x59, a: 255 }),
        color_of("blue"@) == Some(Rgba { r: 0x00, g: 0x7a, b: 0xff, a: 255 }),
        color_of("purple"@) == Some(Rgba { r: 0xaf, g: 0x52, b: 0xde, a: 255 }),
        color_of("pink"@) == Some(Rgba { r: 0xff, g: 0x2d, b: 0x55, a: 255 }),
        color_of("black"@) == Some(Rgba { r: 0, g: 0, b: 0, a: 255 }),
        color_of("white"@) == Some(Rgba { r: 0xff, g: 0xff, b: 0xff, a: 255 }),
        color_of("gray"@) == Some(Rgba { r: 0x8e, g: 0x8e, b: 0x93, a: 255 }),
        color_of("grey"@) == color_of("gray"@),
{
    reveal_strlit("red");
    reveal_strlit("orange");
    reveal_strlit("yellow");
    reveal_strlit("green");
    reveal_strlit("blue");
    reveal_strlit("purple");
    reveal_strlit("pink");
    reveal_strlit("black");
    reveal_strlit("white");
    reveal_strlit("gray");
    reveal_strlit("grey");
    assert(text::lower("red"@) =~= "red"@);
    assert(text::lower("orange"@) =~= "orange"@);
    assert(text::lower("yellow"@) =~= "yellow"@);
    assert(text::lower("green"@) =~= "green"@);
    assert(text::lower("blue"@) =~= "blue"@);
    assert(text::lower("purple"@) =~= "purple"@);
    assert(text::lower("pink"@) =~= "pink"@);
    assert(text::lower("black"@) =~= "black"@);
    assert(text::lower("white"@) =~= "white"@);
    assert(text::lower("gray"@) =~= "gray"@);
    assert(text::lower("grey"@) =~= "grey"@);
    assert("red"@.len() == 3 && "orange"@.len() == 6 && "yellow"@.len() == 6 && "green"@.len() == 5
        && "blue"@.len() == 4 && "purple"@.len() == 6 && "pink"@.len() == 4 && "black"@.len() == 5
        && "white"@.len() == 5 && "gray"@.len() == 4 && "grey"@.len() == 4);
    assert("orange"@[0] == 'o' && "yellow"@[0] == 'y' && "green"@[0] == 'g' && "blue"@[0] == 'b'
        && "purple"@[0] == 'p' && "pink"@[0] == 'p' && "black"@[0] == 'b' && "white"@[0] == 'w'
        && "gray"@[0] == 'g' && "grey"@[0] == 'g' && "gray"@[2] == 'a' && "grey"@[2] == 'e');
}

} // verus!
