//! The annotation spec: what can be drawn, the two forms a spec text takes,
//! and the numbering of marker badges.
//!
//! Every length and coordinate has the type `C`: a number of image pixels
//! where a spec is read and drawn, and 1/256 px where shapes are drawn by
//! hand. Nothing here computes with it.

use vstd::prelude::*;

use crate::error::{owned, Error};
use crate::text;

verus! {

/// Shared styling; every field is optional, defaults apply when drawing.
#[derive(Debug)]
pub struct Style<C> {
    /// `#RGB`, `#RRGGBB`, `#RRGGBBAA`, or a basic color name.
    pub color: Option<String>,
    pub stroke_width: Option<C>,
    /// When set, rectangles and ellipses are filled at this opacity as well.
    pub fill_opacity: Option<C>,
}

/// One thing to draw.
#[derive(Debug)]
pub enum Annotation<C> {
    Rect { x: C, y: C, w: C, h: C, style: Style<C>, label: Option<String> },
    Ellipse { x: C, y: C, w: C, h: C, style: Style<C>, label: Option<String> },
    Arrow { from: (C, C), to: (C, C), style: Style<C>, label: Option<String> },
    /// A numbered badge; the number is assigned in spec order when omitted.
    Marker { x: C, y: C, number: Option<u32>, size: Option<C>, style: Style<C> },
    Text { x: C, y: C, text: String, size: Option<C>, style: Style<C> },
}

#[verifier::ext_equal]
pub struct StyleView<C> {
    pub color: Option<Seq<char>>,
    pub stroke_width: Option<C>,
    pub fill_opacity: Option<C>,
}

/// An annotation with its strings as sequences of characters.
#[verifier::ext_equal]
pub enum AnnotationView<C> {
    Rect { x: C, y: C, w: C, h: C, style: StyleView<C>, label: Option<Seq<char>> },
    Ellipse { x: C, y: C, w: C, h: C, style: StyleView<C>, label: Option<Seq<char>> },
    Arrow { from: (C, C), to: (C, C), style: StyleView<C>, label: Option<Seq<char>> },
    Marker { x: C, y: C, number: Option<u32>, size: Option<C>, style: StyleView<C> },
    Text { x: C, y: C, text: Seq<char>, size: Option<C>, style: StyleView<C> },
}

pub open spec fn text_view(s: Option<String>) -> Option<Seq<char>> {
    match s {
        Some(s) => Some(s@),
        None => None,
    }
}

impl<C> View for Style<C> {
    type V = StyleView<C>;

    open spec fn view(&self) -> StyleView<C> {
        StyleView {
            color: text_view(self.color),
            stroke_width: self.stroke_width,
            fill_opacity: self.fill_opacity,
        }
    }
}

impl<C> View for Annotation<C> {
    type V = AnnotationView<C>;

    open spec fn view(&self) -> AnnotationView<C> {
        match *self {
            Annotation::Rect { x, y, w, h, style, label } => AnnotationView::Rect {
                x,
                y,
                w,
                h,
                style: style@,
                label: text_view(label),
            },
            Annotation::Ellipse { x, y, w, h, style, label } => AnnotationView::Ellipse {
                x,
                y,
                w,
                h,
                style: style@,
                label: text_view(label),
            },
            Annotation::Arrow { from, to, style, label } => AnnotationView::Arrow {
                from,
                to,
                style: style@,
                label: text_view(label),
            },
            Annotation::Marker { x, y, number, size, style } => AnnotationView::Marker {
                x,
                y,
                number,
                size,
                style: style@,
            },
            Annotation::Text { x, y, text, size, style } => AnnotationView::Text {
                x,
                y,
                text: text@,
                size,
                style: style@,
            },
        }
    }
}

/// The annotations of a list, by their views.
pub open spec fn shapes<C>(list: Seq<Annotation<C>>) -> Seq<AnnotationView<C>> {
    list.map_values(|a: Annotation<C>| a@)
}

impl<C> AnnotationView<C> {
    /// The number of a marker that has one.
    pub open spec fn marker_number(self) -> Option<u32> {
        match self {
            AnnotationView::Marker { number, .. } => number,
            _ => None,
        }
    }

    /// A marker without a number.
    pub open spec fn wants_number(self) -> bool {
        self matches AnnotationView::Marker { number, .. } && number is None
    }

    /// The same marker under a number.
    pub open spec fn with_number(self, n: u32) -> AnnotationView<C> {
        match self {
            AnnotationView::Marker { x, y, number, size, style } => AnnotationView::Marker {
                x,
                y,
                number: Some(n),
                size,
                style,
            },
            other => other,
        }
    }
}

/// One more than the largest number that a marker has; 1 where none has one.
pub open spec fn first_free<C>(list: Seq<AnnotationView<C>>) -> nat
    decreases list.len(),
{
    if list.len() == 0 {
        1
    } else {
        let before = first_free(list.drop_last());
        match list.last().marker_number() {
            Some(n) => if n + 1 > before {
                (n + 1) as nat
            } else {
                before
            },
            None => before,
        }
    }
}

/// How many markers have no number.
pub open spec fn unnumbered<C>(list: Seq<AnnotationView<C>>) -> nat
    decreases list.len(),
{
    if list.len() == 0 {
        0
    } else {
        unnumbered(list.drop_last()) + if list.last().wants_number() {
            1nat
        } else {
            0
        }
    }
}

/// Every marker without a number gets the next free one, in list order.
pub open spec fn numbered<C>(list: Seq<AnnotationView<C>>) -> Seq<AnnotationView<C>> {
    Seq::new(
        list.len(),
        |i: int|
            if list[i].wants_number() {
                list[i].with_number((first_free(list) + unnumbered(list.take(i))) as u32)
            } else {
                list[i]
            },
    )
}

/// Whether the free numbers suffice.
pub open spec fn numbers_fit<C>(list: Seq<AnnotationView<C>>) -> bool {
    first_free(list) + unnumbered(list) <= u32::MAX
}

impl<C> Annotation<C> {
    fn own_number(&self) -> (r: Option<u32>)
        ensures
            r == self@.marker_number(),
    {
        match self {
            Annotation::Marker { number, .. } => *number,
            _ => None,
        }
    }

    fn is_unnumbered(&self) -> (r: bool)
        ensures
            r == self@.wants_number(),
    {
        match self {
            Annotation::Marker { number, .. } => number.is_none(),
            _ => false,
        }
    }

    fn set_number(&mut self, n: u32)
        ensures
            final(self)@ == old(self)@.with_number(n),
    {
        match self {
            Annotation::Marker { number, .. } => {
                *number = Some(n);
            },
            _ => {},
        }
    }
}

/// The first number that no marker of the list exceeds, as a wide integer.
fn free_number<C>(list: &Vec<Annotation<C>>) -> (r: u64)
    ensures
        r == first_free(shapes(list@)),
        1 <= r <= u32::MAX + 1,
{
    let mut next: u64 = 1;
    let mut i: usize = 0;
    while i < list.len()
        invariant
            i <= list@.len(),
            1 <= next <= u32::MAX + 1,
            next == first_free(shapes(list@).take(i as int)),
        decreases list.len() - i,
    {
        assert(shapes(list@).take(i + 1).drop_last() =~= shapes(list@).take(i as int));
        if let Some(n) = list[i].own_number() {
            if n as u64 + 1 > next {
                next = n as u64 + 1;
            }
        }
        i += 1;
    }
    assert(shapes(list@).take(list@.len() as int) =~= shapes(list@));
    next
}

fn count_unnumbered<C>(list: &Vec<Annotation<C>>) -> (r: usize)
    ensures
        r == unnumbered(shapes(list@)),
{
    let mut count: usize = 0;
    let mut i: usize = 0;
    while i < list.len()
        invariant
            count <= i <= list@.len(),
            count == unnumbered(shapes(list@).take(i as int)),
        decreases list.len() - i,
    {
        assert(shapes(list@).take(i + 1).drop_last() =~= shapes(list@).take(i as int));
        if list[i].is_unnumbered() {
            count += 1;
        }
        i += 1;
    }
    assert(shapes(list@).take(list@.len() as int) =~= shapes(list@));
    count
}

/// Whether `assign_marker_numbers` has numbers enough.
pub fn markers_fit<C>(list: &Vec<Annotation<C>>) -> (r: bool)
    ensures
        r == numbers_fit(shapes(list@)),
{
    let next: u64 = free_number(list);
    let count: usize = count_unnumbered(list);
    next as u128 + count as u128 <= u32::MAX as u128
}

/// The number of the next marker drawn by hand.
pub fn next_marker_number<C>(list: &Vec<Annotation<C>>) -> (r: u32)
    requires
        first_free(shapes(list@)) <= u32::MAX,
    ensures
        r == first_free(shapes(list@)),
{
    free_number(list) as u32
}

proof fn lemma_unnumbered_mono<C>(list: Seq<AnnotationView<C>>, i: int)
    requires
        0 <= i <= list.len(),
    ensures
        unnumbered(list.take(i)) <= unnumbered(list),
        i < list.len() && list[i].wants_number() ==> unnumbered(list.take(i)) < unnumbered(list),
    decreases list.len(),
{
    if i == list.len() {
        assert(list.take(i) =~= list);
    } else {
        assert(list.drop_last().take(i) =~= list.take(i));
        if i == list.len() - 1 {
            assert(list.take(i) =~= list.drop_last());
        } else {
            lemma_unnumbered_mono(list.drop_last(), i);
        }
    }
}

/// Gives every number-less marker the next free number, in list order.
pub fn assign_marker_numbers<C>(list: &mut Vec<Annotation<C>>)
    requires
        numbers_fit(shapes(old(list)@)),
    ensures
        shapes(final(list)@) == numbered(shapes(old(list)@)),
{
    let ghost before = shapes(list@);
    let first: u64 = free_number(list);
    let mut next: u64 = first;
    let mut i: usize = 0;
    let n: usize = list.len();
    while i < n
        invariant
            i <= n,
            n == list@.len(),
            n == before.len(),
            numbers_fit(before),
            first == first_free(before),
            next == first + unnumbered(before.take(i as int)),
            shapes(list@).len() == n,
            forall|j: int| 0 <= j < i ==> shapes(list@)[j] == numbered(before)[j],
            forall|j: int| i <= j < n ==> shapes(list@)[j] == before[j],
        decreases n - i,
    {
        assert(shapes(list@)[i as int] == list@[i as int]@);
        assert(before.take(i + 1).drop_last() =~= before.take(i as int));
        proof {
            lemma_unnumbered_mono(before, i as int);
            lemma_unnumbered_mono(before, i + 1);
        }
        let ghost prior = list@;
        if list[i].is_unnumbered() {
            list[i].set_number(next as u32);
            next += 1;
        }
        assert forall|j: int| 0 <= j < n && j != i implies shapes(list@)[j] == shapes(
            prior,
        )[j] by {}
        assert(shapes(list@)[i as int] == numbered(before)[i as int]);
        i += 1;
    }
    assert(shapes(list@) =~= numbered(before));
}

/// Every explicit number is below the first free one.
proof fn lemma_first_free_above<C>(list: Seq<AnnotationView<C>>, i: int)
    requires
        0 <= i < list.len(),
    ensures
        list[i].marker_number() matches Some(n) ==> n < first_free(list),
    decreases list.len(),
{
    if i < list.len() - 1 {
        lemma_first_free_above(list.drop_last(), i);
    }
}

/// After numbering, every marker has a number, and the number that one was
/// given is the number of no other annotation.
pub proof fn law_given_numbers_are_unique<C>(list: Seq<AnnotationView<C>>, i: int, j: int)
    requires
        numbers_fit(list),
        0 <= i < list.len(),
        0 <= j < list.len(),
    ensures
        list[i] is Marker ==> numbered(list)[i].marker_number() is Some,
        i != j && list[i].wants_number() ==> numbered(list)[i].marker_number() != numbered(
            list,
        )[j].marker_number(),
{
    lemma_unnumbered_mono(list, i);
    lemma_unnumbered_mono(list, j);
    lemma_first_free_above(list, j);
    if i != j && list[i].wants_number() && list[j].wants_number() {
        if i < j {
            lemma_unnumbered_mono(list.take(j), i);
            assert(list.take(j).take(i) =~= list.take(i));
        } else {
            lemma_unnumbered_mono(list.take(i), j);
            assert(list.take(i).take(j) =~= list.take(j));
        }
    }
}

/// Given numbers rise in list order.
pub proof fn law_given_numbers_rise<C>(list: Seq<AnnotationView<C>>, i: int, j: int)
    requires
        numbers_fit(list),
        0 <= i < j < list.len(),
        list[i].wants_number(),
        list[j].wants_number(),
    ensures
        numbered(list)[i].marker_number()->0 < numbered(list)[j].marker_number()->0,
{
    lemma_unnumbered_mono(list, i);
    lemma_unnumbered_mono(list, j);
    lemma_unnumbered_mono(list.take(j), i);
    assert(list.take(j).take(i) =~= list.take(i));
}

proof fn lemma_none_wants<C>(list: Seq<AnnotationView<C>>)
    requires
        forall|i: int| 0 <= i < list.len() ==> !(#[trigger] list[i]).wants_number(),
    ensures
        unnumbered(list) == 0,
    decreases list.len(),
{
    if list.len() > 0 {
        assert forall|i: int| 0 <= i < list.drop_last().len() implies !(
        #[trigger] list.drop_last()[i]).wants_number() by {
            assert(list.drop_last()[i] == list[i]);
        }
        lemma_none_wants(list.drop_last());
    }
}

/// Numbering a numbered list changes nothing.
pub proof fn law_numbering_is_idempotent<C>(list: Seq<AnnotationView<C>>)
    requires
        numbers_fit(list),
    ensures
        numbered(numbered(list)) == numbered(list),
        unnumbered(numbered(list)) == 0,
{
    assert forall|i: int| 0 <= i < list.len() implies !(
    #[trigger] numbered(list)[i]).wants_number() by {
        lemma_unnumbered_mono(list, i);
    }
    lemma_none_wants(numbered(list));
    assert(numbered(numbered(list)) =~= numbered(list));
}

/// No marker of the list has the first free number, nor a larger one.
pub proof fn lemma_first_free_is_free<C>(list: Seq<AnnotationView<C>>, i: int)
    requires
        0 <= i < list.len(),
    ensures
        list[i] matches AnnotationView::Marker { number: Some(n), .. } ==> n < first_free(list),
        first_free(list) >= 1,
{
    lemma_first_free_above(list, i);
    lemma_first_free_next(list);
}

proof fn lemma_first_free_next<C>(list: Seq<AnnotationView<C>>)
    ensures
        first_free(list) >= 1,
        first_free(list) == 1 || exists|j: int|
            0 <= j < list.len() && (#[trigger] list[j]).marker_number() == Some(
                (first_free(list) - 1) as u32,
            ),
    decreases list.len(),
{
    if list.len() > 0 {
        let rest = list.drop_last();
        lemma_first_free_next(rest);
        let n = list.len() - 1;
        assert(list[n] == list.last());
        if first_free(list) == first_free(rest) && first_free(rest) != 1 {
            let j = choose|j: int|
                0 <= j < rest.len() && (#[trigger] rest[j]).marker_number() == Some(
                    (first_free(rest) - 1) as u32,
                );
            assert(list[j] == rest[j]);
        }
    }
}

/// Numbering changes nothing but missing numbers: the list keeps its length
/// and order, markers stay where they are, and all else is as it was.
pub proof fn law_numbering_keeps_the_rest<C>(list: Seq<AnnotationView<C>>, i: int)
    requires
        0 <= i < list.len(),
    ensures
        numbered(list).len() == list.len(),
        match list[i] {
            AnnotationView::Marker { x, y, number: None, size, style } => numbered(
                list,
            )[i] matches AnnotationView::Marker { x: x2, y: y2, number, size: s2, style: st2 } && x
                == x2 && y == y2 && size == s2 && style == st2 && number is Some,
            _ => numbered(list)[i] == list[i],
        },
{
}

/// The first number that is given follows the largest one in the list, or is 1;
/// the numbers that are given after it have no gaps.
pub proof fn law_given_numbers_follow_the_largest<C>(list: Seq<AnnotationView<C>>, i: int, j: int)
    requires
        numbers_fit(list),
        0 <= i < j < list.len(),
        list[i] matches AnnotationView::Marker { number: None, .. },
        forall|k: int|
            i < k < j ==> !((#[trigger] list[k]) matches AnnotationView::Marker { number: None, .. }),
    ensures
        (forall|k: int|
            0 <= k < i ==> !((#[trigger] list[k]) matches AnnotationView::Marker {
                number: None,
                ..
            })) ==> ({
            let n = numbered(list)[i].marker_number()->0;
            &&& n >= 1
            &&& n == 1 || exists|k: int|
                0 <= k < list.len() && (#[trigger] list[k]).marker_number() == Some((n - 1) as u32)
            &&& forall|k: int|
                0 <= k < list.len() ==> ((#[trigger] list[k]) matches AnnotationView::Marker {
                    number: Some(m),
                    ..
                } ==> m < n)
        }),
        list[j] matches AnnotationView::Marker { number: None, .. } ==> numbered(
            list,
        )[j].marker_number()->0 == numbered(list)[i].marker_number()->0 + 1,
{
    lemma_unnumbered_mono(list, i);
    lemma_unnumbered_mono(list, j);
    lemma_first_free_next(list);
    if forall|k: int|
        0 <= k < i ==> !((#[trigger] list[k]) matches AnnotationView::Marker { number: None, .. }) {
        assert forall|k: int| 0 <= k < list.take(i).len() implies !(
        #[trigger] list.take(i)[k]).wants_number() by {
            assert(list.take(i)[k] == list[k]);
        }
        lemma_none_wants(list.take(i));
        assert forall|k: int| 0 <= k < list.len() implies ((
        #[trigger] list[k]) matches AnnotationView::Marker { number: Some(m), .. } ==> m
            < first_free(list)) by {
            lemma_first_free_above(list, k);
        }
    }
    lemma_one_between(list, i, j);
}

proof fn lemma_one_between<C>(list: Seq<AnnotationView<C>>, i: int, j: int)
    requires
        0 <= i < j <= list.len(),
        list[i].wants_number(),
        forall|k: int| i < k < j ==> !(#[trigger] list[k]).wants_number(),
    ensures
        unnumbered(list.take(j)) == unnumbered(list.take(i)) + 1,
    decreases j - i,
{
    assert(list.take(j).drop_last() =~= list.take(j - 1));
    assert(list.take(j).last() == list[j - 1]);
    if j > i + 1 {
        lemma_one_between(list, i, j - 1);
    }
}

// ---- copying and comparing ----

fn copy_text(s: &Option<String>) -> (r: Option<String>)
    ensures
        text_view(r) == text_view(*s),
{
    match s {
        Some(t) => Some(t.clone()),
        None => None,
    }
}

fn same_label(a: &Option<String>, b: &Option<String>) -> (r: bool)
    ensures
        r == (text_view(*a) == text_view(*b)),
{
    match (a, b) {
        (Some(x), Some(y)) => text::same_text(x.as_str(), y.as_str()),
        (None, None) => true,
        _ => false,
    }
}

fn same_length(a: &Option<i64>, b: &Option<i64>) -> (r: bool)
    ensures
        r == (*a == *b),
{
    match (a, b) {
        (Some(x), Some(y)) => *x == *y,
        (None, None) => true,
        _ => false,
    }
}

impl<C: Copy> Style<C> {
    /// The same style.
    pub fn duplicate(&self) -> (r: Style<C>)
        ensures
            r@ == self@,
    {
        Style {
            color: copy_text(&self.color),
            stroke_width: self.stroke_width,
            fill_opacity: self.fill_opacity,
        }
    }
}

impl<C: Copy> Annotation<C> {
    /// The same annotation.
    pub fn duplicate(&self) -> (r: Annotation<C>)
        ensures
            r@ == self@,
    {
        match self {
            Annotation::Rect { x, y, w, h, style, label } => Annotation::Rect {
                x: *x,
                y: *y,
                w: *w,
                h: *h,
                style: style.duplicate(),
                label: copy_text(label),
            },
            Annotation::Ellipse { x, y, w, h, style, label } => Annotation::Ellipse {
                x: *x,
                y: *y,
                w: *w,
                h: *h,
                style: style.duplicate(),
                label: copy_text(label),
            },
            Annotation::Arrow { from, to, style, label } => Annotation::Arrow {
                from: *from,
                to: *to,
                style: style.duplicate(),
                label: copy_text(label),
            },
            Annotation::Marker { x, y, number, size, style } => Annotation::Marker {
                x: *x,
                y: *y,
                number: *number,
                size: *size,
                style: style.duplicate(),
            },
            Annotation::Text { x, y, text, size, style } => Annotation::Text {
                x: *x,
                y: *y,
                text: text.clone(),
                size: *size,
                style: style.duplicate(),
            },
        }
    }
}

impl Style<i64> {
    fn same(&self, other: &Style<i64>) -> (r: bool)
        ensures
            r == (self@ == other@),
    {
        same_label(&self.color, &other.color) && same_length(
            &self.stroke_width,
            &other.stroke_width,
        ) && same_length(&self.fill_opacity, &other.fill_opacity)
    }
}

impl Annotation<i64> {
    /// Whether two annotations are equal.
    pub fn same(&self, other: &Annotation<i64>) -> (r: bool)
        ensures
            r == (self@ == other@),
    {
        match (self, other) {
            (
                Annotation::Rect { x, y, w, h, style, label },
                Annotation::Rect { x: x2, y: y2, w: w2, h: h2, style: style2, label: label2 },
            ) => *x == *x2 && *y == *y2 && *w == *w2 && *h == *h2 && style.same(style2)
                && same_label(label, label2),
            (
                Annotation::Ellipse { x, y, w, h, style, label },
                Annotation::Ellipse { x: x2, y: y2, w: w2, h: h2, style: style2, label: label2 },
            ) => *x == *x2 && *y == *y2 && *w == *w2 && *h == *h2 && style.same(style2)
                && same_label(label, label2),
            (
                Annotation::Arrow { from, to, style, label },
                Annotation::Arrow { from: from2, to: to2, style: style2, label: label2 },
            ) => from.0 == from2.0 && from.1 == from2.1 && to.0 == to2.0 && to.1 == to2.1
                && style.same(style2) && same_label(label, label2),
            (
                Annotation::Marker { x, y, number, size, style },
                Annotation::Marker { x: x2, y: y2, number: number2, size: size2, style: style2 },
            ) => *x == *x2 && *y == *y2 && (match (number, number2) {
                (Some(a), Some(b)) => *a == *b,
                (None, None) => true,
                _ => false,
            }) && same_length(size, size2) && style.same(style2),
            (
                Annotation::Text { x, y, text, size, style },
                Annotation::Text { x: x2, y: y2, text: text2, size: size2, style: style2 },
            ) => *x == *x2 && *y == *y2 && text::same_text(text.as_str(), text2.as_str())
                && same_length(size, size2) && style.same(style2),
            _ => false,
        }
    }
}

/// A copy of a list of annotations.
pub fn duplicate_all<C: Copy>(list: &Vec<Annotation<C>>) -> (r: Vec<Annotation<C>>)
    ensures
        shapes(r@) == shapes(list@),
{
    let mut out: Vec<Annotation<C>> = Vec::new();
    let mut i: usize = 0;
    while i < list.len()
        invariant
            i <= list@.len(),
            shapes(out@) == shapes(list@).take(i as int),
        decreases list.len() - i,
    {
        let ghost before = shapes(out@);
        let a = list[i].duplicate();
        out.push(a);
        i += 1;
        assert(shapes(out@) =~= before.push(a@));
        assert(shapes(list@).take(i as int) =~= before.push(list@[i - 1]@));
    }
    assert(shapes(list@).take(list@.len() as int) =~= shapes(list@));
    out
}

/// Whether two lists of annotations are equal.
pub fn same_annotations(a: &Vec<Annotation<i64>>, b: &Vec<Annotation<i64>>) -> (r: bool)
    ensures
        r == (shapes(a@) == shapes(b@)),
{
    if a.len() != b.len() {
        assert(shapes(a@).len() != shapes(b@).len());
        return false;
    }
    let mut i: usize = 0;
    while i < a.len()
        invariant
            a@.len() == b@.len(),
            i <= a@.len(),
            forall|j: int| 0 <= j < i ==> shapes(a@)[j] == shapes(b@)[j],
        decreases a.len() - i,
    {
        if !a[i].same(&b[i]) {
            assert(shapes(a@)[i as int] != shapes(b@)[i as int]);
            return false;
        }
        i += 1;
    }
    assert(shapes(a@) =~= shapes(b@));
    true
}

// ---- reading a spec ----

/// The two forms of a spec text: a bare list, or a document whose
/// `annotations` field is the list. Each holds the text without the white
/// space around it.
pub enum SpecForm {
    List(String),
    Document(String),
}

/// Which form a spec text has; an empty one is refused.
pub fn spec_form(input: &str) -> (r: Result<SpecForm, Error>)
    ensures
        match r {
            Ok(SpecForm::List(t)) => t@ == text::trim(input@) && t@.len() > 0 && t@[0] == '[',
            Ok(SpecForm::Document(t)) => t@ == text::trim(input@) && t@.len() > 0 && t@[0] != '[',
            Err(e) => text::trim(input@).len() == 0 && e.is_invalid_spec("empty spec"@),
        },
{
    let chars = text::to_chars(input);
    let t = text::trimmed(chars.as_slice());
    if t.len() == 0 {
        return Err(Error::InvalidSpec(owned("empty spec")));
    }
    let s = text::from_chars(t.as_slice());
    if t[0] == '[' {
        Ok(SpecForm::List(s))
    } else {
        Ok(SpecForm::Document(s))
    }
}

/// The spec that a text holds, from what decoding its JSON gave: the
/// annotations, numbered, or the decoder's message.
pub fn parse_spec<C>(decoded: Result<Vec<Annotation<C>>, String>) -> (r: Result<
    Vec<Annotation<C>>,
    Error,
>)
    requires
        decoded matches Ok(list) ==> numbers_fit(shapes(list@)),
    ensures
        match decoded {
            Ok(list) => r matches Ok(out) && shapes(out@) == numbered(shapes(list@)),
            Err(m) => r matches Err(Error::InvalidSpec(e)) && e == m,
        },
{
    match decoded {
        Ok(list) => {
            let mut list = list;
            assign_marker_numbers(&mut list);
            Ok(list)
        },
        Err(m) => Err(Error::InvalidSpec(m)),
    }
}

} // verus!
