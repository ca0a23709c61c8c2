//! What an annotation is drawn with: its color, its number and its label.
use vstd::prelude::*;
use crate::color::{color_of, color_result, law_hex_colors_are_their_bytes, parse_color, Rgba};
use crate::error::Error;
use crate::spec::{Annotation, AnnotationView, Style, StyleView};
use crate::text;

verus! {

/// The color of what has none: red.
pub open spec fn default_color() -> Seq<char> {
    "#ff3b30"@
}

impl<C> StyleView<C> {
    /// The color of the style, as text.
    pub open spec fn color_text(self) -> Seq<char> {
        match self.color {
            Some(s) => s,
            None => default_color(),
        }
    }
}

impl<C> AnnotationView<C> {
    pub open spec fn style(self) -> StyleView<C> {
        match self {
            AnnotationView::Rect { style, .. } => style,
            AnnotationView::Ellipse { style, .. } => style,
            AnnotationView::Arrow { style, .. } => style,
            AnnotationView::Marker { style, .. } => style,
            AnnotationView::Text { style, .. } => style,
        }
    }
}

impl<C> Style<C> {
    /// The color that the style is drawn with.
    pub fn resolve_color(&self) -> (r: Result<Rgba, Error>)
        ensures
            color_result(r, self@.color_text()),
    {
        match &self.color {
            Some(s) => parse_color(s.as_str()),
            None => parse_color("#ff3b30"),
        }
    }
}

impl<C> Annotation<C> {
    pub fn style(&self) -> (r: &Style<C>)
        ensures
            r@ == self@.style(),
    {
        match self {
            Annotation::Rect { style, .. } => style,
            Annotation::Ellipse { style, .. } => style,
            Annotation::Arrow { style, .. } => style,
            Annotation::Marker { style, .. } => style,
            Annotation::Text { style, .. } => style,
        }
    }
}

/// The text on a marker's badge: its number, or 1.
pub open spec fn badge_text(number: Option<u32>) -> Seq<char> {
    match number {
        Some(n) => text::decimal(n as nat),
        None => text::decimal(1),
    }
}

/// The text on a marker's badge.
pub fn marker_text(number: Option<u32>) -> (r: String)
    ensures
        r@ == badge_text(number),
{
    let n: u64 = match number {
        Some(n) => n as u64,
        None => 1,
    };
    let d = text::decimal_chars(n);
    text::from_chars(d.as_slice())
}

/// What has no color is drawn in red, and what has one in it.
pub proof fn law_missing_color_is_red<C>(s: StyleView<C>)
    ensures
        s.color is None ==> color_of(s.color_text()) == Some(Rgba { r: 255, g: 59, b: 48, a: 255 }),
        s.color matches Some(c) ==> color_of(s.color_text()) == color_of(c),
{
    reveal_strlit("#ff3b30");
    let t = "#ff3b30"@;
    let full = t + seq!['f', 'f'];
    assert(t.len() == 7 && t[0] == '#' && t[1] == 'f' && t[2] == 'f' && t[3] == '3' && t[4] == 'b'
        && t[5] == '3' && t[6] == '0');
    law_hex_colors_are_their_bytes(255, 59, 48, 255, full);
    assert(full.take(7) =~= t);
}

/// A marker shows its number.
pub proof fn law_badge_shows_the_number(n: u32)
    ensures
        text::parse_digits(badge_text(Some(n))) == Some(n as nat),
        text::parse_digits(badge_text(None)) == Some(1nat),
{
    text::lemma_decimal(n as nat);
    text::lemma_decimal(1);
}

} // verus!
