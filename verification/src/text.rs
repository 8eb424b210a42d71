//! Character-level text scanning: whitespace, words, substring search and
//! line splitting over sequences of characters.
//!
//! Text is handled as a sequence of Unicode scalar values, never as bytes,
//! so that whitespace and line structure mean the same for every input.

use vstd::prelude::*;

verus! {

/// `String::push` appends one character to the end of the string.
pub assume_specification[ String::push ](s: &mut String, ch: char)
    ensures
        final(s)@ == old(s)@.push(ch),
;

/// A half-open range `start..end` of positions in a text.
#[derive(Clone, Copy, Debug, PartialEq, Eq, Structural)]
pub struct Span {
    pub start: usize,
    pub end: usize,
}

/// Whether `c` has the Unicode property White_Space.
pub open spec fn is_space(c: char) -> bool {
    let n = c as u32;
    ||| 0x09 <= n <= 0x0D
    ||| n == 0x20
    ||| n == 0x85
    ||| n == 0xA0
    ||| n == 0x1680
    ||| 0x2000 <= n <= 0x200A
    ||| n == 0x2028
    ||| n == 0x2029
    ||| n == 0x202F
    ||| n == 0x205F
    ||| n == 0x3000
}

/// The number of characters at the front of `s` that are all whitespace
/// (`space == true`) or all not whitespace (`space == false`).
pub open spec fn run_of(s: Seq<char>, space: bool) -> nat
    decreases s.len(),
{
    if s.len() > 0 && is_space(s[0]) == space {
        1 + run_of(s.skip(1), space)
    } else {
        0
    }
}

/// `s` without its leading whitespace.
pub open spec fn trim_start(s: Seq<char>) -> Seq<char> {
    s.skip(run_of(s, true) as int)
}

/// The second whitespace-separated word of `s`, if it has two.
pub open spec fn second_word(s: Seq<char>) -> Option<Seq<char>> {
    let first = trim_start(s);
    let rest = trim_start(first.skip(run_of(first, false) as int));
    if rest.len() == 0 {
        None
    } else {
        Some(rest.take(run_of(rest, false) as int))
    }
}

/// Whether `needle` stands in `hay` at position `at`.
pub open spec fn stands_at(needle: Seq<char>, hay: Seq<char>, at: int) -> bool {
    0 <= at && at + needle.len() <= hay.len() && hay.subrange(at, at + needle.len()) == needle
}

/// Whether `needle` occurs in `hay` as a contiguous block.
pub open spec fn occurs_in(needle: Seq<char>, hay: Seq<char>) -> bool {
    exists|k: int| stands_at(needle, hay, k)
}

/// `s` without the characters `c` at its end.
pub open spec fn strip_trailing(s: Seq<char>, c: char) -> Seq<char>
    decreases s.len(),
{
    if s.len() > 0 && s.last() == c {
        strip_trailing(s.drop_last(), c)
    } else {
        s
    }
}

/// The position of the first line feed in `s`, or its length if it has none.
pub open spec fn first_newline(s: Seq<char>) -> nat
    decreases s.len(),
{
    if s.len() == 0 || s[0] == '\n' {
        0
    } else {
        1 + first_newline(s.skip(1))
    }
}

/// A line without the carriage return that stood before its line feed.
pub open spec fn without_cr(line: Seq<char>) -> Seq<char> {
    if line.len() > 0 && line.last() == '\r' {
        line.drop_last()
    } else {
        line
    }
}

/// The lines of `text`. A line ends at a line feed, or at a carriage return
/// directly followed by one; the terminator is not part of the line. The
/// last line needs no terminator, and a text that ends in a line feed has no
/// empty line after it.
pub open spec fn lines_of(text: Seq<char>) -> Seq<Seq<char>>
    decreases text.len(),
{
    let k = first_newline(text);
    if text.len() == 0 {
        Seq::empty()
    } else if k >= text.len() {
        seq![text]
    } else {
        seq![without_cr(text.take(k as int))] + lines_of(text.skip(k as int + 1))
    }
}

/// The pieces of `text` that `spans` cut out, in order.
pub open spec fn cut(text: Seq<char>, spans: Seq<Span>) -> Seq<Seq<char>> {
    Seq::new(spans.len(), |i: int| text.subrange(spans[i].start as int, spans[i].end as int))
}

/// Whether every span lies within a text of `len` characters.
pub open spec fn spans_within(spans: Seq<Span>, len: nat) -> bool {
    forall|i: int| 0 <= i < spans.len() ==> (#[trigger] spans[i]).start <= spans[i].end <= len
}

/// The first line feed is where a stretch without line feeds ends.
pub proof fn lemma_first_newline(s: Seq<char>, k: int)
    requires
        0 <= k <= s.len(),
        forall|j: int| 0 <= j < k ==> s[j] != '\n',
        k == s.len() || s[k] == '\n',
    ensures
        first_newline(s) == k,
    decreases k,
{
    if k > 0 {
        lemma_first_newline(s.skip(1), k - 1);
    }
}

/// A run ends at the end of the text or before a character of the other
/// kind.
pub proof fn lemma_run_ends(s: Seq<char>, space: bool)
    ensures
        run_of(s, space) <= s.len(),
        run_of(s, space) < s.len() ==> is_space(s[run_of(s, space) as int]) != space,
    decreases s.len(),
{
    if s.len() > 0 && is_space(s[0]) == space {
        lemma_run_ends(s.skip(1), space);
    }
}

/// Tells whether `c` is a whitespace character.
pub fn is_whitespace(c: char) -> (b: bool)
    ensures
        b == is_space(c),
{
    let n: u32 = c as u32;
    if n < 0x80 {
        (0x09 <= n && n <= 0x0D) || n == 0x20
    } else if n < 0x2000 {
        n == 0x85 || n == 0xA0 || n == 0x1680
    } else {
        n <= 0x200A || n == 0x2028 || n == 0x2029 || n == 0x202F || n == 0x205F || n == 0x3000
    }
}

/// Copies the characters of a string slice into a vector.
pub fn chars_of(s: &str) -> (out: Vec<char>)
    ensures
        out@ == s@,
{
    let mut out: Vec<char> = Vec::new();
    for c in it: s.chars()
        invariant
            out@ == it.seq().take(it.index()),
    {
        out.push(c);
    }
    out
}

/// Builds a string from the characters of `chars`.
pub fn string_of(chars: &[char]) -> (out: String)
    ensures
        out@ == chars@,
{
    let mut out = String::new();
    let mut i: usize = 0;
    while i < chars.len()
        invariant
            i <= chars@.len(),
            out@ == chars@.take(i as int),
        decreases chars@.len() - i,
    {
        out.push(chars[i]);
        i += 1;
    }
    out
}

/// Walks from `from` over a run of whitespace (`space == true`) or of
/// anything else (`space == false`) and returns where the run ends. From a
/// position beyond the end there is nowhere to walk.
pub fn skip_run(s: &[char], from: usize, space: bool) -> (to: usize)
    ensures
        from <= s@.len() ==> to <= s@.len() && to == from + run_of(s@.skip(from as int), space),
        from > s@.len() ==> to == from,
{
    let mut i: usize = from;
    while i < s.len() && is_whitespace(s[i]) == space
        invariant
            from <= i,
            from > s@.len() ==> i == from,
            from <= s@.len() ==> i <= s@.len(),
            from <= s@.len() ==> run_of(s@.skip(from as int), space) == (i - from) + run_of(
                s@.skip(i as int),
                space,
            ),
        decreases s@.len() - i,
    {
        assert(s@.skip(i as int).skip(1) =~= s@.skip(i + 1));
        i += 1;
    }
    i
}

/// Tells whether `needle` stands in `hay` at position `at`.
pub fn matches_at(hay: &[char], at: usize, needle: &[char]) -> (b: bool)
    ensures
        b == stands_at(needle@, hay@, at as int),
{
    let len: usize = hay.len();
    if needle.len() > len || at > len - needle.len() {
        return false;
    }
    let mut i: usize = 0;
    while i < needle.len()
        invariant
            at + needle@.len() <= hay@.len() == len,
            i <= needle@.len(),
            forall|j: int| 0 <= j < i ==> hay@[at + j] == needle@[j],
        decreases needle@.len() - i,
    {
        if hay[at + i] != needle[i] {
            assert(hay@.subrange(at as int, at + needle@.len())[i as int] != needle@[i as int]);
            return false;
        }
        i += 1;
    }
    assert(hay@.subrange(at as int, at + needle@.len()) =~= needle@);
    true
}

/// Tells whether `hay` begins with `prefix`.
pub fn starts_with(hay: &[char], prefix: &[char]) -> (b: bool)
    ensures
        b == prefix@.is_prefix_of(hay@),
{
    if prefix.len() > hay.len() {
        return false;
    }
    matches_at(hay, 0, prefix)
}

/// Tells whether `needle` occurs anywhere in `hay`.
pub fn contains(hay: &[char], needle: &[char]) -> (b: bool)
    ensures
        b == occurs_in(needle@, hay@),
{
    if needle.len() > hay.len() {
        return false;
    }
    let last: usize = hay.len() - needle.len();
    let mut k: usize = 0;
    while k < last
        invariant
            last + needle@.len() == hay@.len(),
            k <= last,
            forall|j: int| 0 <= j < k ==> !stands_at(needle@, hay@, j),
        decreases last - k,
    {
        if matches_at(hay, k, needle) {
            return true;
        }
        k += 1;
    }
    matches_at(hay, last, needle)
}

/// Returns the length that `s` has once the characters `c` at its end are
/// taken away.
pub fn stripped_len(s: &[char], c: char) -> (end: usize)
    ensures
        end <= s@.len(),
        s@.take(end as int) == strip_trailing(s@, c),
{
    let mut end: usize = s.len();
    assert(s@.take(end as int) =~= s@);
    while end > 0 && s[end - 1] == c
        invariant
            end <= s@.len(),
            strip_trailing(s@, c) == strip_trailing(s@.take(end as int), c),
        decreases end,
    {
        assert(s@.take(end as int).drop_last() =~= s@.take(end - 1));
        end -= 1;
    }
    end
}

/// Finds the second whitespace-separated word of `s`.
pub fn find_second_word(s: &[char]) -> (word: Option<Span>)
    ensures
        word is Some <==> second_word(s@) is Some,
        word matches Some(w) ==> w.start < w.end <= s@.len() && s@.subrange(
            w.start as int,
            w.end as int,
        ) == second_word(s@).unwrap(),
{
    let a: usize = skip_run(s, 0, true);
    let b: usize = skip_run(s, a, false);
    let c: usize = skip_run(s, b, true);
    let d: usize = skip_run(s, c, false);
    proof {
        let first = trim_start(s@);
        assert(s@.skip(0) =~= s@);
        assert(first == s@.skip(a as int));
        assert(first.skip(run_of(first, false) as int) =~= s@.skip(b as int));
        let rest = trim_start(s@.skip(b as int));
        assert(rest =~= s@.skip(c as int));
        lemma_run_ends(s@.skip(b as int), true);
        assert(rest.take(run_of(rest, false) as int) =~= s@.subrange(c as int, d as int));
    }
    if c == s.len() {
        None
    } else {
        Some(Span { start: c, end: d })
    }
}

/// Splits `text` into its lines and returns where each one lies.
pub fn line_spans(text: &[char]) -> (spans: Vec<Span>)
    ensures
        spans_within(spans@, text@.len()),
        cut(text@, spans@) == lines_of(text@),
{
    let mut spans: Vec<Span> = Vec::new();
    let mut start: usize = 0;
    let mut i: usize = 0;
    assert(text@.skip(0) =~= text@);
    assert(cut(text@, spans@) =~= Seq::empty());
    while i < text.len()
        invariant
            start <= i <= text@.len(),
            spans_within(spans@, text@.len()),
            forall|j: int| start <= j < i ==> text@[j] != '\n',
            lines_of(text@) == cut(text@, spans@) + lines_of(text@.skip(start as int)),
        decreases text@.len() - i,
    {
        if text[i] == '\n' {
            let ghost rest = text@.skip(start as int);
            proof {
                lemma_first_newline(rest, i - start);
                assert(rest.take(i - start) =~= text@.subrange(start as int, i as int));
                assert(rest.skip(i - start + 1) =~= text@.skip(i + 1));
            }
            let end: usize = if i > start && text[i - 1] == '\r' {
                i - 1
            } else {
                i
            };
            let ghost before = spans@;
            spans.push(Span { start, end });
            proof {
                let line = text@.subrange(start as int, i as int);
                assert(without_cr(line) =~= text@.subrange(start as int, end as int));
                assert(cut(text@, spans@) =~= cut(text@, before) + seq![without_cr(line)]);
            }
            start = i + 1;
        }
        i += 1;
    }
    let ghost rest = text@.skip(start as int);
    proof {
        lemma_first_newline(rest, text@.len() - start);
    }
    if start < text.len() {
        let ghost before = spans@;
        spans.push(Span { start, end: text.len() });
        proof {
            assert(rest =~= text@.subrange(start as int, text@.len() as int));
            assert(cut(text@, spans@) =~= cut(text@, before) + seq![rest]);
        }
    }
    spans
}

} // verus!
