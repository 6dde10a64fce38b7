//! Plain-text filters for ChordPro charts.
//!
//! `strip_chords` takes the chords out of a chart; `extract_first_line`
//! finds the first line of lyrics. Both take the markup as it comes: an
//! unclosed `[` hides everything up to the next `]` or the end of the text.

use vstd::prelude::*;
use crate::text::{
    chars_of, find_char, first_index_of, is_white_space, string_of, string_of_range,
};

verus! {

/// The text with the chords taken out. `in_chord` tells whether the text
/// starts inside a chord.
///
/// A `[` opens a chord and a `]` closes one; neither is kept. Of the other
/// characters those outside a chord are kept.
pub open spec fn lyrics(text: Seq<char>, in_chord: bool) -> Seq<char>
    decreases text.len(),
{
    if text.len() == 0 {
        text
    } else if text[0] == '[' {
        lyrics(text.skip(1), true)
    } else if text[0] == ']' {
        lyrics(text.skip(1), false)
    } else if in_chord {
        lyrics(text.skip(1), true)
    } else {
        seq![text[0]] + lyrics(text.skip(1), false)
    }
}

/// Number of white-space characters at the start of `s`.
pub open spec fn leading_space(s: Seq<char>) -> nat
    decreases s.len(),
{
    if s.len() == 0 || !is_white_space(s[0]) {
        0
    } else {
        1 + leading_space(s.skip(1))
    }
}

/// Number of white-space characters at the end of `s`.
pub open spec fn trailing_space(s: Seq<char>) -> nat
    decreases s.len(),
{
    if s.len() == 0 || !is_white_space(s.last()) {
        0
    } else {
        1 + trailing_space(s.drop_last())
    }
}

/// `s` without the white space at its start and at its end.
pub open spec fn trimmed(s: Seq<char>) -> Seq<char> {
    let rest = s.skip(leading_space(s) as int);
    rest.take(rest.len() - trailing_space(rest))
}

/// The first line of `text`, without its line ending. A line ends at a
/// line feed, or at a carriage return with a line feed right behind it.
pub open spec fn first_line(text: Seq<char>) -> Seq<char> {
    let end = first_index_of(text, '\n') as int;
    if end < text.len() && end > 0 && text[end - 1] == '\r' {
        text.take(end - 1)
    } else {
        text.take(end)
    }
}

/// What follows the first line of `text` and its line ending.
pub open spec fn after_first_line(text: Seq<char>) -> Seq<char> {
    let end = first_index_of(text, '\n') as int;
    if end < text.len() {
        text.skip(end + 1)
    } else {
        Seq::empty()
    }
}

/// Whether a line holds lyrics: it is not blank and does not begin with `{`.
pub open spec fn is_lyric_line(line: Seq<char>) -> bool {
    trimmed(line).len() > 0 && line[0] != '{'
}

/// The first lyric line of `text`, trimmed; empty where no line holds
/// lyrics.
pub open spec fn first_lyric_line(text: Seq<char>) -> Seq<char>
    decreases text.len(),
{
    if text.len() == 0 {
        text
    } else if is_lyric_line(first_line(text)) {
        trimmed(first_line(text))
    } else {
        first_lyric_line(after_first_line(text))
    }
}

proof fn lemma_leading_space_is(s: Seq<char>, k: int)
    requires
        0 <= k <= s.len(),
        forall|j: int| 0 <= j < k ==> is_white_space(s[j]),
        k < s.len() ==> !is_white_space(s[k]),
    ensures
        leading_space(s) == k,
    decreases s.len(),
{
    if s.len() == 0 || !is_white_space(s[0]) {
    } else {
        let t = s.skip(1);
        assert forall|j: int| 0 <= j < k - 1 implies is_white_space(t[j]) by {
            assert(t[j] == s[j + 1]);
        }
        lemma_leading_space_is(t, k - 1);
    }
}

proof fn lemma_trailing_space_is(s: Seq<char>, k: int)
    requires
        0 <= k <= s.len(),
        forall|j: int| s.len() - k <= j < s.len() ==> is_white_space(s[j]),
        k < s.len() ==> !is_white_space(s[s.len() - k - 1]),
    ensures
        trailing_space(s) == k,
    decreases s.len(),
{
    if s.len() == 0 || !is_white_space(s.last()) {
    } else {
        let t = s.drop_last();
        assert forall|j: int| t.len() - (k - 1) <= j < t.len() implies is_white_space(t[j]) by {
            assert(t[j] == s[j]);
        }
        lemma_trailing_space_is(t, k - 1);
    }
}

/// The characters of `text` that stand outside its chords.
fn strip_chord_chars(text: &Vec<char>) -> (plain: Vec<char>)
    ensures
        plain@ == lyrics(text@, false),
{
    let mut plain: Vec<char> = Vec::new();
    let mut in_chord: bool = false;
    let mut i: usize = 0;
    proof {
        assert(text@.skip(0) =~= text@);
        assert(plain@ + lyrics(text@, false) =~= lyrics(text@, false));
    }
    while i < text.len()
        invariant
            i <= text.len(),
            plain@ + lyrics(text@.skip(i as int), in_chord) == lyrics(text@, false),
        decreases text.len() - i,
    {
        let ghost before = plain@;
        let ghost rest = text@.skip(i as int);
        let c: char = text[i];
        proof {
            assert(rest.skip(1) =~= text@.skip(i + 1));
        }
        if c == '[' {
            in_chord = true;
        } else if c == ']' {
            in_chord = false;
        } else if !in_chord {
            plain.push(c);
            proof {
                assert(plain@ + lyrics(text@.skip(i + 1), false) =~= before + lyrics(rest, false));
            }
        }
        i += 1;
    }
    proof {
        assert(text@.skip(text.len() as int) =~= Seq::<char>::empty());
        assert(plain@ =~= plain@ + lyrics(text@.skip(text.len() as int), in_chord));
    }
    plain
}

/// Strips the chords from a ChordPro chart.
///
/// Everything from a `[` up to the next `]` is removed, brackets included.
/// A `[` that is never closed removes the rest of the text; a `]` outside a
/// chord is removed alone.
pub fn strip_chords(content: &str) -> (result: String)
    ensures
        result@ == lyrics(content@, false),
{
    let text: Vec<char> = chars_of(content);
    let plain: Vec<char> = strip_chord_chars(&text);
    string_of(&plain)
}

/// The bounds of `text[from..end]` without the white space at its start and
/// at its end.
fn trim_bounds(text: &Vec<char>, from: usize, end: usize) -> (bounds: (usize, usize))
    requires
        from <= end <= text.len(),
    ensures
        from <= bounds.0 <= bounds.1 <= end,
        text@.subrange(bounds.0 as int, bounds.1 as int) == trimmed(
            text@.subrange(from as int, end as int),
        ),
{
    let ghost s = text@.subrange(from as int, end as int);
    let mut a: usize = from;
    while a < end && text[a].is_whitespace()
        invariant
            from <= a <= end <= text.len(),
            forall|j: int| from <= j < a ==> is_white_space(text@[j]),
        decreases end - a,
    {
        a += 1;
    }
    let mut b: usize = end;
    while b > a && text[b - 1].is_whitespace()
        invariant
            a <= b <= end <= text.len(),
            forall|j: int| b <= j < end ==> is_white_space(text@[j]),
        decreases b - a,
    {
        b -= 1;
    }
    proof {
        lemma_leading_space_is(s, a - from);
        let rest = s.skip(a - from);
        assert(rest =~= text@.subrange(a as int, end as int));
        lemma_trailing_space_is(rest, end - b);
        assert(rest.take(rest.len() - (end - b)) =~= text@.subrange(a as int, b as int));
    }
    (a, b)
}

/// Extracts the first line of lyrics from a ChordPro chart.
///
/// The chords are stripped first. Of the lines of what is left, the first
/// that is not blank and does not begin with `{` is returned, trimmed.
/// Where there is no such line the result is empty.
pub fn extract_first_line(content: &str) -> (result: String)
    ensures
        result@ == first_lyric_line(lyrics(content@, false)),
{
    let text: Vec<char> = chars_of(content);
    let plain: Vec<char> = strip_chord_chars(&text);
    let len: usize = plain.len();
    let mut start: usize = 0;
    proof {
        assert(plain@.skip(0) =~= plain@);
    }
    while start < len
        invariant
            start <= len == plain.len(),
            plain@ == lyrics(content@, false),
            first_lyric_line(plain@.skip(start as int)) == first_lyric_line(plain@),
        decreases len - start,
    {
        let ghost rest = plain@.skip(start as int);
        let feed: usize = find_char(&plain, start, len, '\n');
        proof {
            assert(rest =~= plain@.subrange(start as int, len as int));
        }
        let end: usize = if feed < len && feed > start && plain[feed - 1] == '\r' {
            feed - 1
        } else {
            feed
        };
        proof {
            assert(first_line(rest) =~= plain@.subrange(start as int, end as int));
        }
        let (a, b) = trim_bounds(&plain, start, end);
        if a < b && plain[start] != '{' {
            proof {
                let first = plain@.subrange(start as int, end as int);
                assert(first[0] == plain@[start as int]);
                assert(trimmed(first).len() == b - a);
                assert(is_lyric_line(first_line(rest)));
            }
            return string_of_range(&plain, a, b);
        }
        proof {
            assert(plain@.subrange(a as int, b as int).len() == b - a);
            assert(!is_lyric_line(first_line(rest)));
            if feed < len {
                assert(after_first_line(rest) =~= plain@.skip(feed + 1));
            } else {
                assert(plain@.skip(len as int) =~= Seq::<char>::empty());
            }
        }
        start = if feed < len {
            feed + 1
        } else {
            len
        };
    }
    proof {
        assert(plain@.skip(len as int) =~= Seq::<char>::empty());
    }
    String::new()
}

} // verus!
