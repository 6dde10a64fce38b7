//! The shape of a chord chart.
//!
//! A chart is lyric text with chords written inline between `[` and `]`.
//! A chord runs from a `[` to the first `]` after it. A `[` that has no `]`
//! after it opens no chord: it and everything behind it is plain text.

use vstd::prelude::*;
use crate::songbook::pitch::{is_accidental, root_class, root_len};
use crate::text::first_index_of;

verus! {

/// Whether the chart `text` begins with a chord.
pub open spec fn starts_with_chord(text: Seq<char>) -> bool {
    text.len() > 0 && text[0] == '[' && first_index_of(text.skip(1), ']') < text.len() - 1
}

/// The body of the chord that `text` begins with: what stands between its
/// brackets.
pub open spec fn first_chord(text: Seq<char>) -> Seq<char>
    recommends
        starts_with_chord(text),
{
    text.skip(1).take(first_index_of(text.skip(1), ']') as int)
}

/// What follows the chord that `text` begins with.
pub open spec fn after_first_chord(text: Seq<char>) -> Seq<char>
    recommends
        starts_with_chord(text),
{
    text.skip(1).skip(first_index_of(text.skip(1), ']') as int + 1)
}

/// The bodies of the chords of a chart, in order.
pub open spec fn chord_bodies(text: Seq<char>) -> Seq<Seq<char>>
    decreases text.len(),
{
    if text.len() == 0 {
        Seq::empty()
    } else if starts_with_chord(text) {
        seq![first_chord(text)] + chord_bodies(after_first_chord(text))
    } else if text[0] == '[' {
        Seq::empty()
    } else {
        chord_bodies(text.skip(1))
    }
}

/// The chart with the body of every chord taken out: lyrics, whitespace,
/// section markers and the brackets themselves, each at its place.
pub open spec fn chart_frame(text: Seq<char>) -> Seq<char>
    decreases text.len(),
{
    if text.len() == 0 {
        text
    } else if starts_with_chord(text) {
        seq!['[', ']'] + chart_frame(after_first_chord(text))
    } else if text[0] == '[' {
        text
    } else {
        seq![text[0]] + chart_frame(text.skip(1))
    }
}

/// The part of a chord body behind its root note.
pub open spec fn chord_tail(body: Seq<char>) -> Seq<char> {
    body.skip(root_len(body))
}

/// Whether a chord tail names a bass note: a `/` with a root note right
/// behind the first one.
pub open spec fn has_bass(tail: Seq<char>) -> bool {
    first_index_of(tail, '/') < tail.len() && root_len(bass_text(tail)) > 0
}

/// What stands behind the first `/` of a chord tail.
pub open spec fn bass_text(tail: Seq<char>) -> Seq<char> {
    tail.skip(first_index_of(tail, '/') as int + 1)
}

/// The pitch classes that a chord names: that of its root and, where it has
/// one, that of its bass note. A body that begins with no note letter names
/// none.
pub open spec fn chord_classes(body: Seq<char>) -> Seq<int> {
    if root_len(body) == 0 {
        Seq::empty()
    } else if has_bass(chord_tail(body)) {
        seq![root_class(body), root_class(bass_text(chord_tail(body)))]
    } else {
        seq![root_class(body)]
    }
}

/// The pitch classes that the chords of a chart name, in order.
pub open spec fn pitch_classes(text: Seq<char>) -> Seq<int>
    decreases text.len(),
{
    if text.len() == 0 {
        Seq::empty()
    } else if starts_with_chord(text) {
        chord_classes(first_chord(text)) + pitch_classes(after_first_chord(text))
    } else if text[0] == '[' {
        Seq::empty()
    } else {
        pitch_classes(text.skip(1))
    }
}

/// Whether the root note at the start of `s`, if there is one, carries a
/// single accidental at most: no further `#` or `b` follows it.
pub open spec fn singly_altered(s: Seq<char>) -> bool {
    root_len(s) > 0 && s.len() > root_len(s) ==> !is_accidental(s[root_len(s)])
}

/// Whether the root and the bass note of a chord carry a single accidental
/// at most.
pub open spec fn plainly_spelled_chord(body: Seq<char>) -> bool {
    &&& singly_altered(body)
    &&& root_len(body) > 0 && has_bass(chord_tail(body)) ==> singly_altered(
        bass_text(chord_tail(body)),
    )
}

/// Whether every chord of a chart is plainly spelled.
pub open spec fn plainly_spelled(text: Seq<char>) -> bool
    decreases text.len(),
{
    if text.len() == 0 {
        true
    } else if starts_with_chord(text) {
        plainly_spelled_chord(first_chord(text)) && plainly_spelled(after_first_chord(text))
    } else if text[0] == '[' {
        true
    } else {
        plainly_spelled(text.skip(1))
    }
}

} // verus!
