//! Strings as sequences of characters: trimming, searching, splitting, lines
//! and decimal numbers.

use vstd::prelude::*;

verus! {

/// `String::push` appends the given character to the end of the string.
pub assume_specification[ String::push ](s: &mut String, ch: char)
    ensures
        final(s)@ == old(s)@.push(ch),
;

/// The characters of each piece.
pub open spec fn views(pieces: Seq<Vec<char>>) -> Seq<Seq<char>> {
    pieces.map_values(|p: Vec<char>| p@)
}

/// The characters of a string.
pub fn to_chars(s: &str) -> (r: Vec<char>)
    ensures
        r@ == s@,
{
    let mut out: Vec<char> = Vec::new();
    for c in it: s.chars()
        invariant
            it.seq() == s@,
            out@ == s@.take(it.index()),
    {
        out.push(c);
        assert(s@.take(it.index() + 1) =~= s@.take(it.index()).push(c));
    }
    assert(s@.take(s@.len() as int) =~= s@);
    out
}

/// The string of some characters.
pub fn from_chars(chars: &[char]) -> (r: String)
    ensures
        r@ == chars@,
{
    let mut out = String::new();
    let mut i: usize = 0;
    while i < chars.len()
        invariant
            i <= chars.len(),
            out@ == chars@.take(i as int),
        decreases chars.len() - i,
    {
        out.push(chars[i]);
        i += 1;
        assert(chars@.take(i as int) =~= chars@.take(i - 1).push(chars@[i - 1]));
    }
    assert(chars@.take(chars@.len() as int) =~= chars@);
    out
}

/// Whether two character slices hold the same text.
pub fn same_chars(a: &[char], b: &[char]) -> (r: bool)
    ensures
        r == (a@ == b@),
{
    if a.len() != b.len() {
        return false;
    }
    let mut i: usize = 0;
    while i < a.len()
        invariant
            a.len() == b.len(),
            i <= a.len(),
            forall|j: int| 0 <= j < i ==> a@[j] == b@[j],
        decreases a.len() - i,
    {
        if a[i] != b[i] {
            return false;
        }
        i += 1;
    }
    assert(a@ =~= b@);
    true
}

/// Whether two strings hold the same text.
pub fn same_text(a: &str, b: &str) -> (r: bool)
    ensures
        r == (a@ == b@),
{
    let x = to_chars(a);
    let y = to_chars(b);
    same_chars(x.as_slice(), y.as_slice())
}

/// A copy of `chars[from..to]`.
pub fn copy_range(chars: &[char], from: usize, to: usize) -> (r: Vec<char>)
    requires
        from <= to <= chars@.len(),
    ensures
        r@ == chars@.subrange(from as int, to as int),
{
    let mut out: Vec<char> = Vec::new();
    let mut i: usize = from;
    while i < to
        invariant
            from <= i <= to <= chars@.len(),
            out@ == chars@.subrange(from as int, i as int),
        decreases to - i,
    {
        out.push(chars[i]);
        i += 1;
        assert(chars@.subrange(from as int, i as int) =~= chars@.subrange(
            from as int,
            i - 1,
        ).push(chars@[i - 1]));
    }
    out
}

/// Appends `tail` to `out`.
pub fn append_chars(out: &mut Vec<char>, tail: &[char])
    ensures
        final(out)@ == old(out)@ + tail@,
{
    let mut i: usize = 0;
    while i < tail.len()
        invariant
            i <= tail.len(),
            out@ == old(out)@ + tail@.take(i as int),
        decreases tail.len() - i,
    {
        out.push(tail[i]);
        i += 1;
        assert(tail@.take(i as int) =~= tail@.take(i - 1).push(tail@[i - 1]));
    }
    assert(tail@.take(tail@.len() as int) =~= tail@);
}

// ---- white space ----

/// The characters with the Unicode `White_Space` property.
pub open spec fn is_white(c: char) -> bool {
    let u = c as u32;
    ||| 0x09 <= u <= 0x0d
    ||| u == 0x20
    ||| u == 0x85
    ||| u == 0xa0
    ||| u == 0x1680
    ||| 0x2000 <= u <= 0x200a
    ||| u == 0x2028
    ||| u == 0x2029
    ||| u == 0x202f
    ||| u == 0x205f
    ||| u == 0x3000
}

pub fn white(c: char) -> (r: bool)
    ensures
        r == is_white(c),
{
    let u: u32 = c as u32;
    (0x09 <= u && u <= 0x0d) || u == 0x20 || u == 0x85 || u == 0xa0 || u == 0x1680 || (0x2000 <= u
        && u <= 0x200a) || u == 0x2028 || u == 0x2029 || u == 0x202f || u == 0x205f || u == 0x3000
}

/// Whether some character is white space.
pub open spec fn has_white(s: Seq<char>) -> bool {
    exists|i: int| 0 <= i < s.len() && is_white(#[trigger] s[i])
}

pub fn any_white(s: &[char]) -> (r: bool)
    ensures
        r == has_white(s@),
{
    let mut i: usize = 0;
    while i < s.len()
        invariant
            i <= s.len(),
            forall|j: int| 0 <= j < i ==> !is_white(#[trigger] s@[j]),
        decreases s.len() - i,
    {
        if white(s[i]) {
            return true;
        }
        i += 1;
    }
    false
}

/// `s` without its leading white space.
pub open spec fn trim_start(s: Seq<char>) -> Seq<char>
    decreases s.len(),
{
    if s.len() > 0 && is_white(s[0]) {
        trim_start(s.drop_first())
    } else {
        s
    }
}

/// `s` without its trailing white space.
pub open spec fn trim_end(s: Seq<char>) -> Seq<char>
    decreases s.len(),
{
    if s.len() > 0 && is_white(s.last()) {
        trim_end(s.drop_last())
    } else {
        s
    }
}

/// `s` without the white space at both ends.
pub open spec fn trim(s: Seq<char>) -> Seq<char> {
    trim_end(trim_start(s))
}

proof fn lemma_trim_start(s: Seq<char>)
    ensures
        trim_start(s).len() > 0 ==> !is_white(trim_start(s)[0]),
    decreases s.len(),
{
    if s.len() > 0 && is_white(s[0]) {
        lemma_trim_start(s.drop_first());
    }
}

proof fn lemma_trim_end(s: Seq<char>)
    ensures
        trim_end(s).len() > 0 ==> !is_white(trim_end(s).last()),
        s.len() > 0 && !is_white(s[0]) ==> trim_end(s).len() > 0 && trim_end(s)[0] == s[0],
    decreases s.len(),
{
    if s.len() > 0 && is_white(s.last()) {
        lemma_trim_end(s.drop_last());
    }
}

/// What was trimmed has no white space at its ends.
pub proof fn lemma_trim(s: Seq<char>)
    ensures
        trim(s).len() > 0 ==> !is_white(trim(s)[0]) && !is_white(trim(s).last()),
{
    lemma_trim_start(s);
    lemma_trim_end(trim_start(s));
}

/// A blank at either end is trimmed off, and nothing else of a text without
/// white space at its ends.
pub proof fn lemma_trim_is(s: Seq<char>)
    requires
        s.len() > 0,
        !is_white(s[0]),
        !is_white(s.last()),
    ensures
        trim(s) == s,
        trim(s.push(' ')) == s,
        trim(seq![' '] + s) == s,
{
    assert(s.push(' ').drop_last() =~= s);
    assert(trim_end(s.push(' ')) == trim_end(s));
    assert((seq![' '] + s).drop_first() =~= s);
    assert(trim_start(seq![' '] + s) == trim_start(s));
}

/// All characters are white space.
pub open spec fn all_white(s: Seq<char>) -> bool {
    forall|i: int| 0 <= i < s.len() ==> is_white(#[trigger] s[i])
}

proof fn lemma_trim_before(before: Seq<char>, s: Seq<char>)
    requires
        all_white(before),
        s.len() > 0,
        !is_white(s[0]),
    ensures
        trim_start(before + s) == s,
    decreases before.len(),
{
    if before.len() > 0 {
        assert((before + s)[0] == before[0]);
        assert((before + s).drop_first() =~= before.drop_first() + s);
        lemma_trim_before(before.drop_first(), s);
    } else {
        assert(before + s =~= s);
    }
}

proof fn lemma_trim_after(s: Seq<char>, after: Seq<char>)
    requires
        all_white(after),
        s.len() > 0,
        !is_white(s.last()),
    ensures
        trim_end(s + after) == s,
    decreases after.len(),
{
    if after.len() > 0 {
        assert((s + after).last() == after[after.len() - 1]);
        assert((s + after).drop_last() =~= s + after.drop_last());
        lemma_trim_after(s, after.drop_last());
    } else {
        assert(s + after =~= s);
    }
}

/// White space around a text without white space at its ends is trimmed off.
pub proof fn lemma_trim_around(before: Seq<char>, s: Seq<char>, after: Seq<char>)
    requires
        all_white(before),
        all_white(after),
        s.len() > 0,
        !is_white(s[0]),
        !is_white(s.last()),
    ensures
        trim(before + s + after) == s,
{
    assert(before + s + after =~= before + (s + after));
    lemma_trim_before(before, s + after);
    lemma_trim_after(s, after);
}

/// The index of the first character at or after `from` that is no white space.
fn skip_white(s: &[char], from: usize) -> (r: usize)
    requires
        from <= s@.len(),
    ensures
        from <= r <= s@.len(),
        trim_start(s@.skip(from as int)) == s@.skip(r as int),
        r < s@.len() ==> !is_white(s@[r as int]),
{
    let mut i: usize = from;
    while i < s.len() && white(s[i])
        invariant
            from <= i <= s@.len(),
            trim_start(s@.skip(from as int)) == trim_start(s@.skip(i as int)),
        decreases s.len() - i,
    {
        assert(s@.skip(i as int).drop_first() =~= s@.skip(i + 1));
        i += 1;
    }
    i
}

pub fn trimmed(s: &[char]) -> (r: Vec<char>)
    ensures
        r@ == trim(s@),
{
    assert(s@.skip(0) =~= s@);
    let lo: usize = skip_white(s, 0);
    let mut hi: usize = s.len();
    assert(s@.skip(lo as int) =~= s@.subrange(lo as int, hi as int));
    while hi > lo && white(s[hi - 1])
        invariant
            lo <= hi <= s@.len(),
            trim(s@) == trim_end(s@.subrange(lo as int, hi as int)),
        decreases hi,
    {
        assert(s@.subrange(lo as int, hi as int).drop_last() =~= s@.subrange(lo as int, hi - 1));
        assert(s@.subrange(lo as int, hi as int).last() == s@[hi - 1]);
        hi -= 1;
    }
    proof {
        if hi > lo {
            assert(s@.subrange(lo as int, hi as int).last() == s@[hi - 1]);
        }
    }
    copy_range(s, lo, hi)
}

/// `str::trim`.
pub fn trimmed_str(s: &str) -> (r: String)
    ensures
        r@ == trim(s@),
{
    let chars = to_chars(s);
    let t = trimmed(chars.as_slice());
    from_chars(t.as_slice())
}

/// How many characters stand before the first white space.
pub open spec fn word_len(s: Seq<char>) -> nat
    decreases s.len(),
{
    if s.len() > 0 && !is_white(s[0]) {
        1 + word_len(s.drop_first())
    } else {
        0
    }
}

pub proof fn lemma_word_len(s: Seq<char>)
    ensures
        word_len(s) <= s.len(),
        s.len() > 0 && !is_white(s[0]) ==> word_len(s) > 0,
    decreases s.len(),
{
    if s.len() > 0 && !is_white(s[0]) {
        lemma_word_len(s.drop_first());
    }
}

pub proof fn lemma_trim_start_len(s: Seq<char>)
    ensures
        trim_start(s).len() <= s.len(),
        trim_start(s).len() > 0 ==> !is_white(trim_start(s)[0]),
    decreases s.len(),
{
    if s.len() > 0 && is_white(s[0]) {
        lemma_trim_start_len(s.drop_first());
    }
}

/// The maximal runs of characters that are no white space.
pub open spec fn words(s: Seq<char>) -> Seq<Seq<char>>
    decreases s.len(),
{
    let t = trim_start(s);
    proof {
        lemma_trim_start_len(s);
        lemma_word_len(t);
    }
    if t.len() == 0 {
        Seq::empty()
    } else {
        seq![t.take(word_len(t) as int)] + words(t.skip(word_len(t) as int))
    }
}

pub fn split_words(s: &[char]) -> (r: Vec<Vec<char>>)
    ensures
        views(r@) == words(s@),
{
    let mut out: Vec<Vec<char>> = Vec::new();
    let mut i: usize = 0;
    assert(s@.skip(0) =~= s@);
    assert(views(out@) + words(s@) =~= words(s@));
    loop
        invariant
            i <= s@.len(),
            views(out@) + words(s@.skip(i as int)) == words(s@),
        ensures
            views(out@) == words(s@),
        decreases s@.len() - i,
    {
        let j: usize = skip_white(s, i);
        let ghost t = s@.skip(j as int);
        if j == s.len() {
            assert(words(s@.skip(i as int)) =~= Seq::empty());
            assert(views(out@) =~= words(s@));
            break;
        }
        let mut k: usize = j;
        assert(s@.skip(k as int) =~= t.skip(0));
        while k < s.len() && !white(s[k])
            invariant
                j <= k <= s@.len(),
                t == s@.skip(j as int),
                word_len(t) == (k - j) + word_len(s@.skip(k as int)),
            decreases s.len() - k,
        {
            assert(s@.skip(k as int).drop_first() =~= s@.skip(k + 1));
            k += 1;
        }
        assert(word_len(s@.skip(k as int)) == 0);
        proof {
            lemma_word_len(t);
            assert(t[0] == s@[j as int]);
            assert(t.take(k - j) =~= s@.subrange(j as int, k as int));
            assert(t.skip(k - j) =~= s@.skip(k as int));
        }
        let w = copy_range(s, j, k);
        let ghost before = views(out@);
        out.push(w);
        proof {
            assert(views(out@) =~= before.push(w@));
            assert(words(s@.skip(i as int)) =~= seq![w@] + words(s@.skip(k as int)));
            assert(views(out@) + words(s@.skip(k as int)) =~= before + words(s@.skip(i as int)));
        }
        i = k;
    }
    out
}

// ---- searching ----

/// Whether `pat` stands in `s` at index `at`.
pub open spec fn matches_at(s: Seq<char>, pat: Seq<char>, at: int) -> bool {
    0 <= at && at + pat.len() <= s.len() && s.subrange(at, at + pat.len()) == pat
}

/// The first index at or after `from` where `pat` stands in `s`.
pub open spec fn find_from(s: Seq<char>, pat: Seq<char>, from: int) -> Option<int>
    decreases s.len() + 1 - from,
{
    if from < 0 || from + pat.len() > s.len() {
        None
    } else if s.subrange(from, from + pat.len()) == pat {
        Some(from)
    } else {
        find_from(s, pat, from + 1)
    }
}

/// The first index where `pat` stands in `s`.
pub open spec fn find(s: Seq<char>, pat: Seq<char>) -> Option<int> {
    find_from(s, pat, 0)
}

pub open spec fn contains(s: Seq<char>, pat: Seq<char>) -> bool {
    find(s, pat) is Some
}

pub open spec fn starts_with(s: Seq<char>, pat: Seq<char>) -> bool {
    matches_at(s, pat, 0)
}

pub open spec fn ends_with(s: Seq<char>, pat: Seq<char>) -> bool {
    matches_at(s, pat, s.len() - pat.len())
}

pub proof fn lemma_find_from(s: Seq<char>, pat: Seq<char>, from: int)
    requires
        0 <= from,
    ensures
        find_from(s, pat, from) matches Some(i) ==> from <= i && matches_at(s, pat, i) && (forall|
            j: int,
        |
            from <= j < i ==> !matches_at(s, pat, j)),
        find_from(s, pat, from) is None ==> (forall|j: int|
            from <= j ==> !matches_at(s, pat, j)),
    decreases s.len() + 1 - from,
{
    if from + pat.len() > s.len() {
    } else if s.subrange(from, from + pat.len()) == pat {
    } else {
        lemma_find_from(s, pat, from + 1);
    }
}

/// The first match is the one that nothing before it matches.
pub proof fn lemma_find_is(s: Seq<char>, pat: Seq<char>, i: int)
    requires
        matches_at(s, pat, i),
        forall|j: int| 0 <= j < i ==> !matches_at(s, pat, j),
    ensures
        find(s, pat) == Some(i),
{
    lemma_find_from(s, pat, 0);
}

pub fn is_at(s: &[char], pat: &[char], at: usize) -> (r: bool)
    ensures
        r == matches_at(s@, pat@, at as int),
{
    if at > s.len() || pat.len() > s.len() - at {
        return false;
    }
    let n: usize = s.len();
    let mut i: usize = 0;
    while i < pat.len()
        invariant
            i <= pat@.len(),
            n == s@.len(),
            at + pat@.len() <= n,
            forall|j: int| 0 <= j < i ==> s@[at + j] == pat@[j],
        decreases pat.len() - i,
    {
        if s[at + i] != pat[i] {
            assert(s@.subrange(at as int, at + pat@.len())[i as int] != pat@[i as int]);
            return false;
        }
        i += 1;
    }
    assert(s@.subrange(at as int, at + pat@.len()) =~= pat@);
    true
}

pub fn find_chars(s: &[char], pat: &[char], from: usize) -> (r: Option<usize>)
    ensures
        match r {
            Some(i) => find_from(s@, pat@, from as int) == Some(i as int) && i + pat@.len()
                <= s@.len(),
            None => find_from(s@, pat@, from as int) is None,
        },
{
    let mut i: usize = from;
    while i <= s.len() && pat.len() <= s.len() - i
        invariant
            from <= i,
            i <= s@.len() + 1 || i == from,
            find_from(s@, pat@, from as int) == find_from(s@, pat@, i as int),
        decreases s.len() + 1 - i,
    {
        if is_at(s, pat, i) {
            return Some(i);
        }
        if i == s.len() {
            assert(find_from(s@, pat@, i + 1) is None);
            return None;
        }
        i += 1;
    }
    None
}

pub fn has_chars(s: &[char], pat: &[char]) -> (r: bool)
    ensures
        r == contains(s@, pat@),
{
    find_chars(s, pat, 0).is_some()
}

pub fn has_prefix(s: &[char], pat: &[char]) -> (r: bool)
    ensures
        r == starts_with(s@, pat@),
{
    is_at(s, pat, 0)
}

pub fn has_suffix(s: &[char], pat: &[char]) -> (r: bool)
    ensures
        r == ends_with(s@, pat@),
{
    if pat.len() > s.len() {
        return false;
    }
    is_at(s, pat, s.len() - pat.len())
}

/// The text before and after the first `pat`.
pub open spec fn split_once(s: Seq<char>, pat: Seq<char>) -> Option<(Seq<char>, Seq<char>)> {
    match find(s, pat) {
        Some(i) => Some((s.take(i), s.skip(i + pat.len()))),
        None => None,
    }
}

pub fn split_at_first(s: &[char], pat: &[char]) -> (r: Option<(Vec<char>, Vec<char>)>)
    ensures
        match r {
            Some((a, b)) => split_once(s@, pat@) == Some((a@, b@)),
            None => split_once(s@, pat@) is None,
        },
{
    match find_chars(s, pat, 0) {
        Some(i) => {
            let n: usize = s.len();
            let a = copy_range(s, 0, i);
            let b = copy_range(s, i + pat.len(), n);
            assert(a@ =~= s@.take(i as int));
            assert(b@ =~= s@.skip(i + pat@.len()));
            Some((a, b))
        },
        None => None,
    }
}

/// The pieces between the (non-overlapping, leftmost) occurrences of `pat`.
pub open spec fn split(s: Seq<char>, pat: Seq<char>) -> Seq<Seq<char>>
    decreases s.len(),
{
    proof {
        lemma_find_from(s, pat, 0);
    }
    if pat.len() == 0 {
        seq![s]
    } else {
        match find(s, pat) {
            Some(i) => seq![s.take(i)] + split(s.skip(i + pat.len()), pat),
            None => seq![s],
        }
    }
}

pub fn split_chars(s: &[char], pat: &[char]) -> (r: Vec<Vec<char>>)
    requires
        pat@.len() > 0,
    ensures
        views(r@) == split(s@, pat@),
        r@.len() > 0,
{
    let mut out: Vec<Vec<char>> = Vec::new();
    let mut rest = copy_range(s, 0, s.len());
    assert(rest@ =~= s@);
    assert(views(out@) + split(s@, pat@) =~= split(s@, pat@));
    loop
        invariant
            pat@.len() > 0,
            views(out@) + split(rest@, pat@) == split(s@, pat@),
        ensures
            views(out@) + seq![rest@] == split(s@, pat@),
        decreases rest@.len(),
    {
        match split_at_first(rest.as_slice(), pat) {
            None => {
                break;
            },
            Some((a, b)) => {
                let ghost before = views(out@);
                proof {
                    lemma_find_from(rest@, pat@, 0);
                }
                out.push(a);
                assert(views(out@) =~= before.push(a@));
                assert(views(out@) + split(b@, pat@) =~= before + split(rest@, pat@));
                rest = b;
            },
        }
    }
    let ghost before = views(out@);
    out.push(rest);
    assert(views(out@) =~= before + seq![rest@]);
    out
}

/// Every piece, one after the other, with `sep` between.
pub open spec fn join(pieces: Seq<Seq<char>>, sep: Seq<char>) -> Seq<char>
    decreases pieces.len(),
{
    if pieces.len() == 0 {
        Seq::empty()
    } else if pieces.len() == 1 {
        pieces[0]
    } else {
        join(pieces.drop_last(), sep) + sep + pieces.last()
    }
}

/// Joins `pieces[from..]`.
pub fn join_from(pieces: &Vec<Vec<char>>, from: usize, sep: &[char]) -> (r: Vec<char>)
    requires
        from <= pieces@.len(),
    ensures
        r@ == join(views(pieces@).skip(from as int), sep@),
{
    let mut out: Vec<char> = Vec::new();
    let mut i: usize = from;
    let ghost all = views(pieces@).skip(from as int);
    while i < pieces.len()
        invariant
            from <= i <= pieces@.len(),
            all == views(pieces@).skip(from as int),
            out@ == join(all.take(i - from), sep@),
        decreases pieces.len() - i,
    {
        if i > from {
            append_chars(&mut out, sep);
        }
        append_chars(&mut out, pieces[i].as_slice());
        assert(all.take(i + 1 - from).drop_last() =~= all.take(i - from));
        i += 1;
    }
    assert(all.take(all.len() as int) =~= all);
    out
}

// ---- lines ----

/// A line without the carriage return that precedes its line feed.
pub open spec fn strip_cr(s: Seq<char>) -> Seq<char> {
    if s.len() > 0 && s.last() == '\r' {
        s.drop_last()
    } else {
        s
    }
}

/// The lines of a text: ended by a line feed, or by a carriage return and a
/// line feed; the last line end is optional.
pub open spec fn lines(s: Seq<char>) -> Seq<Seq<char>>
    decreases s.len(),
{
    proof {
        lemma_find_from(s, seq!['\n'], 0);
    }
    if s.len() == 0 {
        Seq::empty()
    } else {
        match find(s, seq!['\n']) {
            Some(i) => seq![strip_cr(s.take(i))] + lines(s.skip(i + 1)),
            None => seq![s],
        }
    }
}

pub fn split_lines(s: &[char]) -> (r: Vec<Vec<char>>)
    ensures
        views(r@) == lines(s@),
{
    let mut out: Vec<Vec<char>> = Vec::new();
    let lf: Vec<char> = vec!['\n'];
    assert(lf@ =~= seq!['\n']);
    let mut rest = copy_range(s, 0, s.len());
    assert(rest@ =~= s@);
    assert(views(out@) + lines(s@) =~= lines(s@));
    while rest.len() > 0
        invariant
            lf@ == seq!['\n'],
            views(out@) + lines(rest@) == lines(s@),
        decreases rest@.len(),
    {
        let ghost before = views(out@);
        match split_at_first(rest.as_slice(), lf.as_slice()) {
            None => {
                let ghost last = rest@;
                out.push(rest);
                rest = Vec::new();
                assert(views(out@) =~= before.push(last));
                assert(views(out@) + lines(rest@) =~= before + seq![last]);
            },
            Some((a, b)) => {
                proof {
                    lemma_find_from(rest@, lf@, 0);
                }
                let mut a = a;
                let ghost raw = a@;
                if a.len() > 0 && a[a.len() - 1] == '\r' {
                    a.pop();
                    assert(a@ =~= raw.drop_last());
                }
                assert(a@ == strip_cr(raw));
                let ghost line = a@;
                out.push(a);
                assert(views(out@) =~= before.push(line));
                assert(views(out@) + lines(b@) =~= before + lines(rest@));
                rest = b;
            },
        }
    }
    assert(views(out@) + lines(rest@) =~= views(out@));
    out
}

// ---- numbers ----

pub open spec fn is_digit(c: char) -> bool {
    '0' <= c <= '9'
}

/// The digit that stands for `d`.
pub open spec fn digit_char(d: nat) -> char {
    (48 + d) as u8 as char
}

/// `n` in decimal, without leading zeros.
pub open spec fn decimal(n: nat) -> Seq<char>
    decreases n,
{
    if n < 10 {
        seq![digit_char(n)]
    } else {
        decimal(n / 10).push(digit_char(n % 10))
    }
}

/// `s` behind as many zeros as it takes to make it `width` characters long.
pub open spec fn zero_pad(s: Seq<char>, width: nat) -> Seq<char> {
    if s.len() >= width {
        s
    } else {
        Seq::new((width - s.len()) as nat, |i: int| '0') + s
    }
}

fn digit_of(d: u64) -> (c: char)
    requires
        d < 10,
    ensures
        c == digit_char(d as nat),
{
    let b: u8 = (48 + d) as u8;
    b as char
}

pub fn decimal_chars(n: u64) -> (r: Vec<char>)
    ensures
        r@ == decimal(n as nat),
    decreases n,
{
    if n < 10 {
        let c = digit_of(n);
        let r: Vec<char> = vec![c];
        assert(r@ =~= seq![c]);
        r
    } else {
        let mut r = decimal_chars(n / 10);
        r.push(digit_of(n % 10));
        r
    }
}

pub fn padded_chars(n: u64, width: usize) -> (r: Vec<char>)
    ensures
        r@ == zero_pad(decimal(n as nat), width as nat),
{
    let d = decimal_chars(n);
    let mut out: Vec<char> = Vec::new();
    while d.len() < width && out.len() < width - d.len()
        invariant
            out@.len() <= width - d@.len() || out@.len() == 0,
            out@ =~= Seq::new(out@.len(), |i: int| '0'),
        decreases width - out@.len(),
    {
        out.push('0');
    }
    append_chars(&mut out, d.as_slice());
    assert(out@ =~= zero_pad(decimal(n as nat), width as nat));
    out
}

/// The value of a run of digits.
pub open spec fn decimal_value(s: Seq<char>) -> nat
    decreases s.len(),
{
    if s.len() == 0 {
        0
    } else {
        decimal_value(s.drop_last()) * 10 + (s.last() as u32 - 48) as nat
    }
}

pub open spec fn all_digits(s: Seq<char>) -> bool {
    forall|i: int| 0 <= i < s.len() ==> is_digit(#[trigger] s[i])
}

/// A run of one or more digits, read as a number.
pub open spec fn parse_digits(s: Seq<char>) -> Option<nat> {
    if s.len() > 0 && all_digits(s) {
        Some(decimal_value(s))
    } else {
        None
    }
}

pub proof fn lemma_decimal(n: nat)
    ensures
        decimal(n).len() > 0,
        all_digits(decimal(n)),
        decimal_value(decimal(n)) == n,
        parse_digits(decimal(n)) == Some(n),
    decreases n,
{
    reveal_with_fuel(decimal_value, 2);
    if n < 10 {
        assert(decimal(n).drop_last() =~= Seq::empty());
    } else {
        lemma_decimal(n / 10);
        assert(decimal(n).drop_last() =~= decimal(n / 10));
    }
}

pub proof fn lemma_value_zeros(z: nat, s: Seq<char>)
    requires
        all_digits(s),
    ensures
        decimal_value(Seq::new(z, |i: int| '0') + s) == decimal_value(s),
        all_digits(Seq::new(z, |i: int| '0') + s),
    decreases s.len(), z,
{
    let zeros = Seq::new(z, |i: int| '0');
    if s.len() > 0 {
        lemma_value_zeros(z, s.drop_last());
        assert((zeros + s).drop_last() =~= zeros + s.drop_last());
    } else if z > 0 {
        let fewer = Seq::new((z - 1) as nat, |i: int| '0');
        lemma_value_zeros((z - 1) as nat, s);
        assert((zeros + s).drop_last() =~= fewer + s);
        assert((zeros + s).last() == '0');
    }
}

/// Zero padding keeps the value.
pub proof fn lemma_padded(n: nat, width: nat)
    ensures
        parse_digits(zero_pad(decimal(n), width)) == Some(n),
        zero_pad(decimal(n), width).len() >= width,
{
    lemma_decimal(n);
    if decimal(n).len() < width {
        lemma_value_zeros((width - decimal(n).len()) as nat, decimal(n));
    }
}

pub proof fn lemma_value_mono(s: Seq<char>, i: int)
    requires
        all_digits(s),
        0 <= i <= s.len(),
    ensures
        decimal_value(s.take(i)) <= decimal_value(s),
    decreases s.len(),
{
    if i == s.len() {
        assert(s.take(i) =~= s);
    } else {
        lemma_value_mono(s.drop_last(), i);
        assert(s.drop_last().take(i) =~= s.take(i));
    }
}

/// Reads a run of digits; `None` where it is none or exceeds `u64`.
pub fn read_digits(s: &[char]) -> (r: Option<u64>)
    ensures
        match r {
            Some(v) => parse_digits(s@) == Some(v as nat),
            None => match parse_digits(s@) {
                Some(n) => n > u64::MAX,
                None => true,
            },
        },
{
    if s.len() == 0 {
        return None;
    }
    let mut v: u64 = 0;
    let mut i: usize = 0;
    while i < s.len()
        invariant
            i <= s@.len(),
            all_digits(s@.take(i as int)),
            v == decimal_value(s@.take(i as int)),
        decreases s.len() - i,
    {
        let c = s[i];
        if !('0' <= c && c <= '9') {
            assert(!is_digit(s@[i as int]));
            return None;
        }
        let d: u64 = (c as u32 - 48) as u64;
        assert(s@.take(i + 1).drop_last() =~= s@.take(i as int));
        if v > (u64::MAX - d) / 10 {
            proof {
                if all_digits(s@) {
                    lemma_value_mono(s@, i + 1);
                }
            }
            return None;
        }
        v = v * 10 + d;
        i += 1;
    }
    assert(s@.take(s@.len() as int) =~= s@);
    Some(v)
}

/// How `u32`, `usize` and their like are read: digits, behind an optional `+`.
pub open spec fn parse_unsigned(s: Seq<char>) -> Option<nat> {
    if s.len() > 0 && s[0] == '+' {
        parse_digits(s.skip(1))
    } else {
        parse_digits(s)
    }
}

/// How `i32` and its like are read: digits, behind an optional `+` or `-`.
pub open spec fn parse_signed(s: Seq<char>) -> Option<int> {
    if s.len() > 0 && s[0] == '-' {
        match parse_digits(s.skip(1)) {
            Some(n) => Some(-(n as int)),
            None => None,
        }
    } else {
        match parse_unsigned(s) {
            Some(n) => Some(n as int),
            None => None,
        }
    }
}

pub fn read_u32(s: &[char]) -> (r: Option<u32>)
    ensures
        match r {
            Some(v) => parse_unsigned(s@) == Some(v as nat),
            None => match parse_unsigned(s@) {
                Some(n) => n > u32::MAX,
                None => true,
            },
        },
{
    let from: usize = if s.len() > 0 && s[0] == '+' {
        1
    } else {
        0
    };
    let body = copy_range(s, from, s.len());
    assert(body@ =~= s@.skip(from as int));
    assert(s@.skip(0) =~= s@);
    match read_digits(body.as_slice()) {
        Some(v) => if v <= u32::MAX as u64 {
            Some(v as u32)
        } else {
            None
        },
        None => None,
    }
}

pub fn read_i32(s: &[char]) -> (r: Option<i32>)
    ensures
        match r {
            Some(v) => parse_signed(s@) == Some(v as int),
            None => match parse_signed(s@) {
                Some(n) => n < i32::MIN || n > i32::MAX,
                None => true,
            },
        },
{
    if s.len() > 0 && s[0] == '-' {
        let body = copy_range(s, 1, s.len());
        assert(body@ =~= s@.skip(1));
        match read_digits(body.as_slice()) {
            Some(v) => if v <= 2147483648 {
                Some((0 - v as i64) as i32)
            } else {
                None
            },
            None => None,
        }
    } else {
        match read_u32(s) {
            Some(v) => if v <= 2147483647 {
                Some(v as i32)
            } else {
                None
            },
            None => None,
        }
    }
}

/// How `u64` is read.
pub open spec fn parse_u64(s: Seq<char>) -> Option<nat> {
    match parse_unsigned(s) {
        Some(n) => if n <= u64::MAX {
            Some(n)
        } else {
            None
        },
        None => None,
    }
}

pub fn read_u64(s: &[char]) -> (r: Option<u64>)
    ensures
        match r {
            Some(v) => parse_u64(s@) == Some(v as nat),
            None => parse_u64(s@) is None,
        },
{
    let from: usize = if s.len() > 0 && s[0] == '+' {
        1
    } else {
        0
    };
    let body = copy_range(s, from, s.len());
    assert(body@ =~= s@.skip(from as int));
    assert(s@.skip(0) =~= s@);
    read_digits(body.as_slice())
}

/// The first `n` digits of a run, filled up with zeros.
pub open spec fn digits_to(s: Seq<char>, n: int) -> Seq<char> {
    Seq::new(
        if n < 0 {
            0
        } else {
            n as nat
        },
        |i: int|
            if i < s.len() {
                s[i]
            } else {
                '0'
            },
    )
}

/// Numbers from here on are not read.
pub open spec fn billionths_limit() -> int {
    0x1_0000_0000_0000_0000int * 1_000_000_000
}

/// Digits with an optional fraction and exponent, in billionths. What exceeds
/// nine decimal places is cut off; a number or an exponent beyond `u64` is not
/// read.
pub open spec fn unsigned_billionths(s: Seq<char>) -> Option<int> {
    let (mantissa, exponent) = match split_once(lower(s), seq!['e']) {
        Some((m, e)) => (m, parse_signed(e)),
        None => (lower(s), Some(0int)),
    };
    let (whole, part) = match split_once(mantissa, seq!['.']) {
        Some(p) => p,
        None => (mantissa, Seq::empty()),
    };
    match exponent {
        Some(e) => {
            let v = decimal_value(digits_to(whole + part, whole.len() + 9 + e));
            if all_digits(whole) && all_digits(part) && whole.len() + part.len() > 0 && -(
            u64::MAX as int) <= e <= u64::MAX && v < billionths_limit() {
                Some(v as int)
            } else {
                None
            }
        },
        None => None,
    }
}

/// A decimal number behind an optional sign, in billionths.
pub open spec fn parse_billionths(s: Seq<char>) -> Option<int> {
    if s.len() > 0 && s[0] == '-' {
        match unsigned_billionths(s.skip(1)) {
            Some(n) => Some(-n),
            None => None,
        }
    } else if s.len() > 0 && s[0] == '+' {
        unsigned_billionths(s.skip(1))
    } else {
        unsigned_billionths(s)
    }
}

fn digits_only(s: &[char]) -> (r: bool)
    ensures
        r == all_digits(s@),
{
    let mut i: usize = 0;
    while i < s.len()
        invariant
            i <= s@.len(),
            forall|j: int| 0 <= j < i ==> is_digit(#[trigger] s@[j]),
        decreases s.len() - i,
    {
        let c = s[i];
        if !('0' <= c && c <= '9') {
            assert(!is_digit(s@[i as int]));
            return false;
        }
        i += 1;
    }
    true
}

proof fn lemma_digits_to(s: Seq<char>, i: int, n: int)
    requires
        all_digits(s),
        0 <= i <= n,
    ensures
        all_digits(digits_to(s, n)),
        decimal_value(digits_to(s, i)) <= decimal_value(digits_to(s, n)),
        i >= s.len() && decimal_value(digits_to(s, i)) == 0 ==> decimal_value(digits_to(s, n)) == 0,
    decreases n - i,
{
    assert forall|k: int| 0 <= k < n implies is_digit(#[trigger] digits_to(s, n)[k]) by {
        if k < s.len() {
            assert(is_digit(s[k]));
        }
    }
    lemma_value_mono(digits_to(s, n), i);
    assert(digits_to(s, n).take(i) =~= digits_to(s, i));
    if i < n {
        lemma_digits_to(s, i, n - 1);
        assert(digits_to(s, n).drop_last() =~= digits_to(s, n - 1));
    }
}

/// The value of the first `n` digits, filled up with zeros; `None` where it
/// reaches the limit.
fn read_digits_to(s: &[char], n: i128) -> (r: Option<i128>)
    requires
        all_digits(s@),
    ensures
        match r {
            Some(v) => v == decimal_value(digits_to(s@, n as int)) && 0 <= v < billionths_limit(),
            None => decimal_value(digits_to(s@, n as int)) >= billionths_limit(),
        },
{
    let mut v: i128 = 0;
    let mut i: i128 = 0;
    assert(digits_to(s@, 0) =~= Seq::empty());
    while i < n && (i < s.len() as i128 || v > 0)
        invariant
            all_digits(s@),
            0 <= i,
            n < 0 ==> i == 0,
            n >= 0 ==> i <= n,
            v == decimal_value(digits_to(s@, i as int)),
            0 <= v < billionths_limit(),
        decreases n - i,
    {
        let c = if i < s.len() as i128 {
            s[i as usize]
        } else {
            '0'
        };
        assert(c == digits_to(s@, i + 1).last());
        assert(is_digit(c));
        assert(digits_to(s@, i + 1).drop_last() =~= digits_to(s@, i as int));
        v = v * 10 + (c as u32 - 48) as i128;
        i += 1;
        if v >= 0x1_0000_0000_0000_0000 * 1_000_000_000 {
            proof {
                lemma_digits_to(s@, i as int, n as int);
            }
            return None;
        }
    }
    proof {
        if n >= 0 {
            lemma_digits_to(s@, i as int, n as int);
        } else {
            assert(digits_to(s@, n as int) =~= Seq::empty());
        }
    }
    Some(v)
}

/// An exponent; `None` where it is none or exceeds `u64`.
fn read_exponent(s: &[char]) -> (r: Option<i128>)
    ensures
        match r {
            Some(v) => parse_signed(s@) == Some(v as int) && -(u64::MAX as int) <= v <= u64::MAX,
            None => match parse_signed(s@) {
                Some(n) => n > u64::MAX || n < -(u64::MAX as int),
                None => true,
            },
        },
{
    let minus: bool = s.len() > 0 && s[0] == '-';
    let from: usize = if s.len() > 0 && (s[0] == '+' || s[0] == '-') {
        1
    } else {
        0
    };
    let body = copy_range(s, from, s.len());
    assert(body@ =~= s@.skip(from as int));
    assert(s@.skip(0) =~= s@);
    match read_digits(body.as_slice()) {
        Some(v) => if minus {
            Some(0 - v as i128)
        } else {
            Some(v as i128)
        },
        None => None,
    }
}

fn read_unsigned_billionths(s: &[char]) -> (r: Option<i128>)
    ensures
        match r {
            Some(v) => unsigned_billionths(s@) == Some(v as int) && 0 <= v < billionths_limit(),
            None => unsigned_billionths(s@) is None,
        },
{
    let low = lowered(s);
    let dot: Vec<char> = vec!['.'];
    assert(dot@ =~= seq!['.']);
    let mark: Vec<char> = vec!['e'];
    assert(mark@ =~= seq!['e']);
    let (mantissa, exponent) = match split_at_first(low.as_slice(), mark.as_slice()) {
        Some((m, e)) => match read_exponent(e.as_slice()) {
            Some(v) => (m, v),
            None => {
                return None;
            },
        },
        None => (low, 0),
    };
    let (whole, part) = match split_at_first(mantissa.as_slice(), dot.as_slice()) {
        Some(p) => p,
        None => {
            let part: Vec<char> = Vec::new();
            assert(part@ =~= Seq::empty());
            (mantissa, part)
        },
    };
    if !digits_only(whole.as_slice()) || !digits_only(part.as_slice()) || (whole.len() == 0
        && part.len() == 0) {
        return None;
    }
    let n: i128 = whole.len() as i128 + 9 + exponent;
    let ghost head = whole@;
    let mut all = whole;
    append_chars(&mut all, part.as_slice());
    assert(all@ =~= head + part@);
    assert(all_digits(all@));
    read_digits_to(all.as_slice(), n)
}

pub fn read_billionths(s: &[char]) -> (r: Option<i128>)
    ensures
        match r {
            Some(v) => parse_billionths(s@) == Some(v as int) && -0x1_0000_0000_0000_0000
                * 1_000_000_000 <= v <= 0x1_0000_0000_0000_0000 * 1_000_000_000,
            None => parse_billionths(s@) is None,
        },
{
    let minus: bool = s.len() > 0 && s[0] == '-';
    let from: usize = if s.len() > 0 && (s[0] == '+' || s[0] == '-') {
        1
    } else {
        0
    };
    let body = copy_range(s, from, s.len());
    assert(body@ =~= s@.skip(from as int));
    assert(s@.skip(0) =~= s@);
    match read_unsigned_billionths(body.as_slice()) {
        Some(v) => if minus {
            Some(0 - v)
        } else {
            Some(v)
        },
        None => None,
    }
}

/// A number of the given sign and size, zero-padded so that the sign counts
/// towards the width. Zero has no sign.
pub open spec fn signed_pad(negative: bool, n: nat, width: nat) -> Seq<char> {
    if negative && n > 0 {
        seq!['-'] + zero_pad(decimal(n), (width - 1) as nat)
    } else {
        zero_pad(decimal(n), width)
    }
}

pub fn signed_padded_chars(negative: bool, n: u64, width: usize) -> (r: Vec<char>)
    requires
        width > 0,
    ensures
        r@ == signed_pad(negative, n as nat, width as nat),
{
    if negative && n > 0 {
        let mut r: Vec<char> = vec!['-'];
        let d = padded_chars(n, width - 1);
        append_chars(&mut r, d.as_slice());
        assert(r@ =~= seq!['-'] + d@);
        r
    } else {
        padded_chars(n, width)
    }
}

pub open spec fn is_number_char(c: char) -> bool {
    is_digit(c) || c == '-'
}

/// A padded number reads back as itself, and is made of digits and a minus
/// sign only.
pub proof fn lemma_signed_pad(negative: bool, n: nat, width: nat)
    requires
        width > 0,
    ensures
        n <= u64::MAX ==> parse_billionths(signed_pad(negative, n, width)) == Some(
            if negative {
                -(n * 1_000_000_000int)
            } else {
                n * 1_000_000_000int
            },
        ),
        signed_pad(negative, n, width).len() > 0,
        forall|i: int|
            0 <= i < signed_pad(negative, n, width).len() ==> is_number_char(
                #[trigger] signed_pad(negative, n, width)[i],
            ),
{
    lemma_padded(n, width);
    lemma_padded(n, (width - 1) as nat);
    lemma_decimal(n);
    let s = signed_pad(negative, n, width);
    if negative && n > 0 {
        let body = zero_pad(decimal(n), (width - 1) as nat);
        assert(s.skip(1) =~= body);
        assert(all_digits(body));
        lemma_whole_billionths(body);
        assert forall|i: int| 0 <= i < s.len() implies is_number_char(#[trigger] s[i]) by {
            if i > 0 {
                assert(s[i] == body[i - 1]);
            }
        }
    } else {
        assert(all_digits(s));
        assert(is_digit(s[0]));
        lemma_whole_billionths(s);
    }
}

/// Digits without a fraction are whole.
proof fn lemma_whole_billionths(s: Seq<char>)
    requires
        all_digits(s),
        s.len() > 0,
    ensures
        decimal_value(s) <= u64::MAX ==> unsigned_billionths(s) == Some(
            decimal_value(s) * 1_000_000_000int,
        ),
{
    assert forall|j: int| 0 <= j implies !matches_at(s, seq!['.'], j) by {
        if matches_at(s, seq!['.'], j) {
            lemma_match_char(s, seq!['.'], j, 0);
            assert(is_digit(s[j]));
        }
    }
    lemma_split_none(s, seq!['.']);
    assert forall|i: int| 0 <= i < s.len() implies lower(s)[i] == s[i] by {
        assert(is_digit(s[i]));
    }
    assert(lower(s) =~= s);
    assert forall|j: int| 0 <= j implies !matches_at(s, seq!['e'], j) by {
        if matches_at(s, seq!['e'], j) {
            lemma_match_char(s, seq!['e'], j, 0);
            assert(is_digit(s[j]));
        }
    }
    lemma_split_none(s, seq!['e']);
    assert(s + Seq::<char>::empty() =~= s);
    assert(digits_to(s, s.len() as int) =~= s);
    lemma_zeros_behind(s, 9);
}

/// Every zero behind a run of digits makes it ten times as large.
proof fn lemma_zeros_behind(s: Seq<char>, n: nat)
    requires
        all_digits(s),
    ensures
        decimal_value(digits_to(s, s.len() as int + n)) == decimal_value(s) * pow10(n),
        pow10(9) == 1_000_000_000,
    decreases n,
{
    if n > 0 {
        lemma_zeros_behind(s, (n - 1) as nat);
        let more = digits_to(s, s.len() as int + n);
        assert(more.drop_last() =~= digits_to(s, s.len() + n - 1));
        assert(more.last() == '0');
        assert(decimal_value(s) * pow10((n - 1) as nat) * 10 == decimal_value(s) * (pow10(
            (n - 1) as nat,
        ) * 10)) by (nonlinear_arith);
    } else {
        assert(digits_to(s, s.len() as int) =~= s);
        assert(decimal_value(s) * pow10(0) == decimal_value(s)) by (nonlinear_arith)
            requires
                pow10(0) == 1,
        ;
    }
    reveal_with_fuel(pow10, 10);
    assert(pow10(9) == 1_000_000_000);
}

pub open spec fn pow10(n: nat) -> nat
    decreases n,
{
    if n == 0 {
        1
    } else {
        pow10((n - 1) as nat) * 10
    }
}

// ---- taking apart what was put together ----

/// The piece before the first `pat` comes off by itself.
pub proof fn lemma_split_next(a: Seq<char>, pat: Seq<char>, rest: Seq<char>)
    requires
        pat.len() > 0,
        forall|j: int| 0 <= j < a.len() ==> !matches_at(a + pat + rest, pat, j),
    ensures
        find(a + pat + rest, pat) == Some(a.len() as int),
        split_once(a + pat + rest, pat) == Some((a, rest)),
        split(a + pat + rest, pat) == seq![a] + split(rest, pat),
{
    let s = a + pat + rest;
    let n = a.len() as int;
    assert(s.subrange(n, n + pat.len()) =~= pat);
    lemma_find_is(s, pat, n);
    assert(s.take(n) =~= a);
    assert(s.skip(n + pat.len()) =~= rest);
}

/// Splitting at a character that does not occur gives the text itself.
pub proof fn lemma_split_none(s: Seq<char>, pat: Seq<char>)
    requires
        pat.len() > 0,
        forall|j: int| 0 <= j ==> !matches_at(s, pat, j),
    ensures
        find(s, pat) is None,
        split(s, pat) == seq![s],
{
    lemma_find_from(s, pat, 0);
}

/// The first character of a match is the first one of the pattern.
pub proof fn lemma_match_char(s: Seq<char>, pat: Seq<char>, at: int, k: int)
    requires
        matches_at(s, pat, at),
        0 <= k < pat.len(),
    ensures
        s[at + k] == pat[k],
{
    assert(s.subrange(at, at + pat.len())[k] == s[at + k]);
}

/// A line comes off by itself.
pub proof fn lemma_lines_next(a: Seq<char>, rest: Seq<char>)
    requires
        forall|j: int| 0 <= j < a.len() ==> a[j] != '\n',
    ensures
        lines(a + seq!['\n'] + rest) == seq![strip_cr(a)] + lines(rest),
{
    let s = a + seq!['\n'] + rest;
    assert forall|j: int| 0 <= j < a.len() implies !matches_at(s, seq!['\n'], j) by {
        if matches_at(s, seq!['\n'], j) {
            lemma_match_char(s, seq!['\n'], j, 0);
            assert(s[j] == a[j]);
        }
    }
    lemma_split_next(a, seq!['\n'], rest);
    assert(s.take(a.len() as int) =~= a);
    assert(s.skip(a.len() as int + 1) =~= rest);
}

/// Joining a piece and more pieces.
pub proof fn lemma_join_next(a: Seq<char>, pieces: Seq<Seq<char>>, sep: Seq<char>)
    requires
        pieces.len() > 0,
    ensures
        join(seq![a] + pieces, sep) == a + sep + join(pieces, sep),
    decreases pieces.len(),
{
    let all = seq![a] + pieces;
    assert(all.last() == pieces.last());
    if pieces.len() == 1 {
        assert(all.drop_last() =~= seq![a]);
        assert(join(seq![a], sep) == a);
    } else {
        assert(all.drop_last() =~= seq![a] + pieces.drop_last());
        lemma_join_next(a, pieces.drop_last(), sep);
        assert(join(all, sep) =~= a + sep + join(pieces, sep));
    }
}

/// Joining the lines of a text gives it back, if it has no carriage returns
/// before its line feeds and does not end in one.
pub proof fn lemma_join_lines(s: Seq<char>)
    requires
        s.len() > 0,
        s.last() != '\n',
        !contains(s, seq!['\r', '\n']),
    ensures
        join(lines(s), seq!['\n']) == s,
        lines(s).len() > 0,
    decreases s.len(),
{
    lemma_find_from(s, seq!['\n'], 0);
    match find(s, seq!['\n']) {
        None => {},
        Some(i) => {
            lemma_match_char(s, seq!['\n'], i, 0);
            let a = s.take(i);
            let rest = s.skip(i + 1);
            assert(rest.len() > 0);
            assert(rest.last() == s.last());
            lemma_find_from(s, seq!['\r', '\n'], 0);
            if a.len() > 0 && a.last() == '\r' {
                assert(s.subrange(i - 1, i + 1) =~= seq!['\r', '\n']);
                assert(matches_at(s, seq!['\r', '\n'], i - 1));
            }
            lemma_find_from(rest, seq!['\r', '\n'], 0);
            if contains(rest, seq!['\r', '\n']) {
                let k = find(rest, seq!['\r', '\n'])->0;
                assert(rest.subrange(k, k + 2) =~= s.subrange(i + 1 + k, i + 3 + k));
                assert(matches_at(s, seq!['\r', '\n'], i + 1 + k));
            }
            lemma_join_lines(rest);
            lemma_join_next(a, lines(rest), seq!['\n']);
            assert(a + seq!['\n'] + rest =~= s);
        },
    }
}

/// The lower-case form of an ASCII letter; every other character as it is.
pub open spec fn ascii_lower(c: char) -> char {
    if 'A' <= c <= 'Z' {
        (c as u32 + 32) as u8 as char
    } else {
        c
    }
}

pub open spec fn lower(s: Seq<char>) -> Seq<char> {
    s.map_values(|c: char| ascii_lower(c))
}

pub fn lowered(s: &[char]) -> (r: Vec<char>)
    ensures
        r@ == lower(s@),
{
    let mut out: Vec<char> = Vec::new();
    let mut i: usize = 0;
    while i < s.len()
        invariant
            i <= s@.len(),
            out@ == lower(s@.take(i as int)),
        decreases s.len() - i,
    {
        let c = s[i];
        let l = if 'A' <= c && c <= 'Z' {
            let b: u8 = (c as u32 + 32) as u8;
            b as char
        } else {
            c
        };
        out.push(l);
        i += 1;
        assert(lower(s@.take(i as int)) =~= lower(s@.take(i - 1)).push(l));
    }
    assert(s@.take(s@.len() as int) =~= s@);
    out
}

/// Trimming takes the white space around a text away and leaves the text.
pub proof fn law_trim_leaves_the_text(before: Seq<char>, s: Seq<char>, after: Seq<char>)
    requires
        all_white(before),
        all_white(after),
    ensures
        s.len() > 0 && !is_white(s[0]) && !is_white(s.last()) ==> trim(before + s + after) == s,
        trim(before).len() == 0,
{
    if s.len() > 0 && !is_white(s[0]) && !is_white(s.last()) {
        lemma_trim_around(before, s, after);
    }
    lemma_trim_white(before);
}

proof fn lemma_trim_white(s: Seq<char>)
    requires
        all_white(s),
    ensures
        trim_start(s).len() == 0,
    decreases s.len(),
{
    if s.len() > 0 {
        lemma_trim_white(s.drop_first());
    }
}

/// The words of a text are what stands between white space, in order: the
/// first one, then those of what follows it.
pub proof fn law_words_stand_between_spaces(before: Seq<char>, w: Seq<char>, rest: Seq<char>)
    requires
        all_white(before),
        w.len() > 0,
        forall|i: int| 0 <= i < w.len() ==> !is_white(#[trigger] w[i]),
        rest.len() == 0 || is_white(rest[0]),
    ensures
        words(before + w + rest) == seq![w] + words(rest),
        words(before) == Seq::<Seq<char>>::empty(),
{
    let t = w + rest;
    assert(before + w + rest =~= before + t);
    assert(!is_white(w[0]));
    lemma_trim_before(before, t);
    lemma_word_prefix(w, rest);
    assert(t.take(w.len() as int) =~= w);
    assert(t.skip(w.len() as int) =~= rest);
    lemma_trim_white(before);
}

proof fn lemma_word_prefix(w: Seq<char>, rest: Seq<char>)
    requires
        forall|i: int| 0 <= i < w.len() ==> !is_white(#[trigger] w[i]),
        rest.len() == 0 || is_white(rest[0]),
    ensures
        word_len(w + rest) == w.len(),
    decreases w.len(),
{
    if w.len() == 0 {
        assert(w + rest =~= rest);
    } else {
        assert((w + rest).drop_first() =~= w.drop_first() + rest);
        assert((w + rest)[0] == w[0]);
        lemma_word_prefix(w.drop_first(), rest);
    }
}

/// A text is split at every place of a pattern and nowhere else: its pieces
/// hold no pattern, and joined by it they are the text again.
pub proof fn law_split_pieces_join_again(s: Seq<char>, pat: Seq<char>, k: int)
    requires
        pat.len() > 0,
    ensures
        join(split(s, pat), pat) == s,
        0 <= k < split(s, pat).len() ==> !contains(split(s, pat)[k], pat),
        split(s, pat).len() > 0,
    decreases s.len(),
{
    lemma_find_from(s, pat, 0);
    match find(s, pat) {
        None => {},
        Some(i) => {
            let (a, rest) = (s.take(i), s.skip(i + pat.len()));
            law_split_pieces_join_again(rest, pat, k - 1);
            lemma_join_next(a, split(rest, pat), pat);
            assert(s.subrange(i, i + pat.len()) == pat);
            assert(a + pat + rest =~= s);
            assert(!contains(a, pat)) by {
                lemma_find_from(a, pat, 0);
                if find(a, pat) is Some {
                    let j = find(a, pat)->0;
                    assert(a.subrange(j, j + pat.len()) =~= s.subrange(j, j + pat.len()));
                    assert(matches_at(s, pat, j));
                }
            }
        },
    }
}

/// Numbers are written and read in base ten, the last digit first in weight.
pub proof fn law_decimal_is_base_ten(n: nat, d: nat, s: Seq<char>)
    requires
        d < 10,
    ensures
        decimal(d) == seq![(48 + d) as u8 as char],
        n > 0 ==> decimal(10 * n + d) == decimal(n).push((48 + d) as u8 as char),
        all_digits(s) ==> decimal_value(s.push((48 + d) as u8 as char)) == 10 * decimal_value(s) + d,
        decimal_value(Seq::empty()) == 0,
        decimal_value(decimal(n)) == n,
{
    lemma_decimal(n);
    assert((10 * n + d) / 10 == n && (10 * n + d) % 10 == d);
    let c = (48 + d) as u8 as char;
    assert(s.push(c).drop_last() =~= s);
    assert(c as u32 == 48 + d);
}

/// A number with a point is so many billionths: its digits, moved by as many
/// places as are missing behind the point.
pub proof fn law_decimals_are_billionths(whole: Seq<char>, part: Seq<char>)
    requires
        whole.len() > 0,
        all_digits(whole),
        all_digits(part),
        part.len() <= 9,
        decimal_value(whole + part) * pow10((9 - part.len()) as nat) < 0x1_0000_0000_0000_0000
            * 1_000_000_000,
    ensures
        parse_billionths(whole + seq!['.'] + part) == Some(
            (decimal_value(whole + part) * pow10((9 - part.len()) as nat)) as int,
        ),
        parse_billionths(seq!['-'] + (whole + seq!['.'] + part)) == Some(
            -((decimal_value(whole + part) * pow10((9 - part.len()) as nat)) as int),
        ),
        pow10(0) == 1,
        pow10(9) == 1_000_000_000,
{
    let s = whole + seq!['.'] + part;
    let n = (9 - part.len()) as nat;
    assert forall|i: int| 0 <= i < s.len() implies #[trigger] s[i] == '.' || is_digit(s[i]) by {
        if i < whole.len() {
            assert(s[i] == whole[i]);
        } else if i > whole.len() {
            assert(s[i] == part[i - whole.len() - 1]);
        }
    }
    assert(lower(s) =~= s);
    assert forall|j: int| 0 <= j implies !matches_at(s, seq!['e'], j) by {
        if matches_at(s, seq!['e'], j) {
            lemma_match_char(s, seq!['e'], j, 0);
            assert(s[j] == '.' || is_digit(s[j]));
        }
    }
    lemma_split_none(s, seq!['e']);
    assert forall|j: int| 0 <= j < whole.len() implies !matches_at(s, seq!['.'], j) by {
        if matches_at(s, seq!['.'], j) {
            lemma_match_char(s, seq!['.'], j, 0);
            assert(s[j] == whole[j]);
            assert(is_digit(whole[j]));
        }
    }
    lemma_split_next(whole, seq!['.'], part);
    let all = whole + part;
    assert forall|i: int| 0 <= i < all.len() implies is_digit(#[trigger] all[i]) by {
        if i < whole.len() {
            assert(all[i] == whole[i]);
        } else {
            assert(all[i] == part[i - whole.len()]);
        }
    }
    lemma_zeros_behind(all, n);
    assert(all.len() as int + n == whole.len() + 9);
    assert(is_digit(s[0])) by {
        assert(s[0] == whole[0]);
    }
    assert((seq!['-'] + s).skip(1) =~= s);
}

/// Blanks, tabs and line ends are white space, and what is seen of ASCII is not.
pub proof fn law_white_space_is_not_seen(c: char)
    ensures
        is_white(' ') && is_white('\t') && is_white('\n') && is_white('\r'),
        '!' <= c <= '~' ==> !is_white(c),
{
}

/// Capitals of ASCII become small letters, and nothing else changes.
pub proof fn law_lower_changes_capitals(s: Seq<char>, i: int)
    requires
        0 <= i < s.len(),
    ensures
        lower(s).len() == s.len(),
        'A' <= s[i] <= 'Z' ==> lower(s)[i] as int == s[i] as int + 32,
        !('A' <= s[i] <= 'Z') ==> lower(s)[i] == s[i],
{
}

/// A sign may stand before the digits of a number, and nothing else may.
pub proof fn law_signs_are_read(s: Seq<char>)
    requires
        s.len() > 0,
        all_digits(s),
    ensures
        parse_signed(s) == Some(decimal_value(s) as int),
        parse_signed(seq!['-'] + s) == Some(-(decimal_value(s) as int)),
        parse_signed(seq!['+'] + s) == Some(decimal_value(s) as int),
        parse_unsigned(s) == Some(decimal_value(s)),
        parse_unsigned(seq!['-'] + s) is None,
        parse_unsigned(Seq::empty()) is None,
{
    assert(is_digit(s[0]));
    assert((seq!['-'] + s).skip(1) =~= s);
    assert((seq!['+'] + s).skip(1) =~= s);
    assert(!is_digit((seq!['-'] + s)[0]));
}

/// A line ends with a line feed, and a carriage return before it belongs to the
/// line end.
pub proof fn law_lines_end_with_either_end(a: Seq<char>, rest: Seq<char>)
    requires
        forall|j: int| 0 <= j < a.len() ==> a[j] != '\n',
        a.len() == 0 || a.last() != '\r',
    ensures
        lines(a + seq!['\n'] + rest) == seq![a] + lines(rest),
        lines(a + seq!['\r', '\n'] + rest) == seq![a] + lines(rest),
        lines(Seq::empty()).len() == 0,
{
    lemma_lines_next(a, rest);
    let b = a.push('\r');
    assert forall|j: int| 0 <= j < b.len() implies b[j] != '\n' by {
        if j < a.len() {
            assert(b[j] == a[j]);
        }
    }
    lemma_lines_next(b, rest);
    assert(b + seq!['\n'] + rest =~= a + seq!['\r', '\n'] + rest);
    assert(b.drop_last() =~= a);
}

} // verus!
