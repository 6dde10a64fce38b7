//! Transposition of chord charts and key labels.
//!
//! Transposing shifts the root of every chord, and its bass note where it
//! has one, by a number of semitones and writes the new note by name. What
//! stands outside the chords, and what stands in a chord besides the two
//! notes, is kept as it is. A chord that begins with no note letter is kept
//! whole.

use vstd::prelude::*;
use crate::songbook::chart::{
    after_first_chord, bass_text, chord_tail, first_chord, has_bass, starts_with_chord,
};
use crate::songbook::pitch::{
    note_name, parse_root, push_note_name, root_class, root_len, semitone_shift, shift_class,
    shifted_class,
};
use crate::text::{chars_of, find_char, first_index_of, push_range, string_of};

verus! {

/// A chord tail with its bass note, if it names one, moved up by `n`
/// semitones.
pub open spec fn transposed_tail(tail: Seq<char>, n: int, prefer_flats: bool) -> Seq<char> {
    if has_bass(tail) {
        tail.take(first_index_of(tail, '/') as int + 1) + note_name(
            shifted_class(root_class(bass_text(tail)), n),
            prefer_flats,
        ) + bass_text(tail).skip(root_len(bass_text(tail)))
    } else {
        tail
    }
}

/// A chord body with its root and its bass note moved up by `n` semitones.
/// A body that begins with no note letter is left as it is.
pub open spec fn transposed_chord(body: Seq<char>, n: int, prefer_flats: bool) -> Seq<char> {
    if root_len(body) == 0 {
        body
    } else {
        note_name(shifted_class(root_class(body), n), prefer_flats) + transposed_tail(
            chord_tail(body),
            n,
            prefer_flats,
        )
    }
}

/// A chart with every chord moved up by `n` semitones and its notes written
/// with sharps.
pub open spec fn respelled(text: Seq<char>, n: int) -> Seq<char>
    decreases text.len(),
{
    if text.len() == 0 {
        text
    } else if starts_with_chord(text) {
        seq!['['] + transposed_chord(first_chord(text), n, false) + seq![']'] + respelled(
            after_first_chord(text),
            n,
        )
    } else if text[0] == '[' {
        text
    } else {
        seq![text[0]] + respelled(text.skip(1), n)
    }
}

/// What transposing a chart by `n` semitones gives: the chart itself for
/// `n == 0`, else the chart with every chord moved and written with sharps.
pub open spec fn transposed_content(text: Seq<char>, n: int) -> Seq<char> {
    if n == 0 {
        text
    } else {
        respelled(text, n)
    }
}

/// Whether `key` is a key label: a root note, with `m` behind it for a
/// minor key and nothing else.
pub open spec fn is_key_label(key: Seq<char>) -> bool {
    root_len(key) > 0 && (key.len() == root_len(key) || (key.len() == root_len(key) + 1
        && key[root_len(key)] == 'm'))
}

/// What transposing a key label by `n` semitones gives. Anything that is no
/// key label is left as it is.
pub open spec fn transposed_key(key: Seq<char>, n: int, prefer_flats: bool) -> Seq<char> {
    if is_key_label(key) {
        note_name(shifted_class(root_class(key), n), prefer_flats) + key.skip(root_len(key))
    } else {
        key
    }
}

/// Appends the chord tail `text[from..end]` to `out`, its bass note moved up
/// by `shift` semitones.
fn push_transposed_tail(
    out: &mut Vec<char>,
    text: &Vec<char>,
    from: usize,
    end: usize,
    shift: u8,
    prefer_flats: bool,
)
    requires
        from <= end <= text.len(),
        shift < 12,
    ensures
        final(out)@ == old(out)@ + transposed_tail(
            text@.subrange(from as int, end as int),
            shift as int,
            prefer_flats,
        ),
{
    let ghost tail = text@.subrange(from as int, end as int);
    let slash: usize = find_char(text, from, end, '/');
    if slash < end {
        assert(bass_text(tail) =~= text@.subrange(slash as int + 1, end as int));
        match parse_root(text, slash + 1, end) {
            Some(bass) => {
                push_range(out, text, from, slash + 1);
                push_note_name(out, shift_class(bass.class, shift), prefer_flats);
                push_range(out, text, slash + 1 + bass.len, end);
                proof {
                    assert(tail.take(slash - from + 1) =~= text@.subrange(
                        from as int,
                        slash as int + 1,
                    ));
                    assert(bass_text(tail).skip(bass.len as int) =~= text@.subrange(
                        slash as int + 1 + bass.len as int,
                        end as int,
                    ));
                }
            },
            None => {
                push_range(out, text, from, end);
            },
        }
    } else {
        push_range(out, text, from, end);
    }
}

/// Appends the chord body `text[from..end]` to `out`, its root and its bass
/// note moved up by `shift` semitones.
fn push_transposed_chord(
    out: &mut Vec<char>,
    text: &Vec<char>,
    from: usize,
    end: usize,
    shift: u8,
    prefer_flats: bool,
)
    requires
        from <= end <= text.len(),
        shift < 12,
    ensures
        final(out)@ == old(out)@ + transposed_chord(
            text@.subrange(from as int, end as int),
            shift as int,
            prefer_flats,
        ),
{
    let ghost body = text@.subrange(from as int, end as int);
    match parse_root(text, from, end) {
        Some(root) => {
            push_note_name(out, shift_class(root.class, shift), prefer_flats);
            push_transposed_tail(out, text, from + root.len, end, shift, prefer_flats);
            proof {
                assert(chord_tail(body) =~= text@.subrange(
                    from as int + root.len as int,
                    end as int,
                ));
                let name = note_name(shifted_class(root_class(body), shift as int), prefer_flats);
                let tail = transposed_tail(chord_tail(body), shift as int, prefer_flats);
                assert(out@ =~= old(out)@ + (name + tail));
            }
        },
        None => {
            push_range(out, text, from, end);
        },
    }
}

/// Transposition goes by the offset modulo 12: the notes of a chord moved by
/// `n` semitones are those of the chord moved by `n % 12`.
pub proof fn lemma_chord_shift_is_modular(body: Seq<char>, n: int, prefer_flats: bool)
    ensures
        transposed_chord(body, n, prefer_flats) == transposed_chord(body, n % 12, prefer_flats),
{
    assert(forall|c: int| shifted_class(c, n) == shifted_class(c, n % 12)) by {
        assert forall|c: int| shifted_class(c, n) == shifted_class(c, n % 12) by {
            assert((c + n) % 12 == (c + n % 12) % 12);
        }
    }
}

/// Transposition goes by the offset modulo 12: a chart moved by `n`
/// semitones is the chart moved by `n % 12`.
pub proof fn lemma_shift_is_modular(text: Seq<char>, n: int)
    ensures
        respelled(text, n) == respelled(text, n % 12),
    decreases text.len(),
{
    if text.len() == 0 {
    } else if starts_with_chord(text) {
        lemma_chord_shift_is_modular(first_chord(text), n, false);
        lemma_shift_is_modular(after_first_chord(text), n);
    } else if text[0] == '[' {
    } else {
        lemma_shift_is_modular(text.skip(1), n);
    }
}

/// Transposes a chord chart by `semitones`.
///
/// The chart is read from left to right. What stands outside `[...]` is
/// copied. In each chord the root, and the bass note behind the first `/`,
/// is moved by `semitones` modulo 12 and written with sharps; the rest of
/// the chord is copied. A chord that begins with no note letter, and a `[`
/// that is never closed, are copied as they are. An offset of 0 gives the
/// chart back unchanged.
pub fn transpose_content(content: &str, semitones: i32) -> (result: String)
    ensures
        result@ == transposed_content(content@, semitones as int),
        semitones == 0 ==> result@ == content@,
        content@.len() == 0 ==> result@.len() == 0,
{
    let text: Vec<char> = chars_of(content);
    if semitones == 0 {
        return string_of(&text);
    }
    let shift: u8 = semitone_shift(semitones);
    let len: usize = text.len();
    let mut out: Vec<char> = Vec::new();
    let mut i: usize = 0;
    proof {
        assert(text@.skip(0) =~= text@);
        assert(out@ + respelled(text@, shift as int) =~= respelled(text@, shift as int));
    }
    while i < len
        invariant
            i <= len == text.len(),
            shift < 12,
            out@ + respelled(text@.skip(i as int), shift as int) == respelled(
                text@,
                shift as int,
            ),
        decreases len - i,
    {
        let ghost rest = text@.skip(i as int);
        let ghost before = out@;
        if text[i] != '[' {
            out.push(text[i]);
            proof {
                assert(rest.skip(1) =~= text@.skip(i + 1));
                assert(out@ + respelled(text@.skip(i + 1), shift as int) =~= before + respelled(
                    rest,
                    shift as int,
                ));
            }
            i += 1;
        } else {
            let close: usize = find_char(&text, i + 1, len, ']');
            proof {
                assert(rest.skip(1) =~= text@.subrange(i + 1, len as int));
            }
            if close < len {
                out.push('[');
                push_transposed_chord(&mut out, &text, i + 1, close, shift, false);
                out.push(']');
                proof {
                    assert(first_chord(rest) =~= text@.subrange(i + 1, close as int));
                    assert(after_first_chord(rest) =~= text@.skip(close + 1));
                    let chord = transposed_chord(first_chord(rest), shift as int, false);
                    let tail = respelled(text@.skip(close + 1), shift as int);
                    assert(out@ + tail =~= before + (seq!['['] + chord + seq![']'] + tail));
                }
                i = close + 1;
            } else {
                push_range(&mut out, &text, i, len);
                proof {
                    assert(rest =~= text@.subrange(i as int, len as int));
                    assert(text@.skip(len as int) =~= Seq::<char>::empty());
                    assert(out@ + respelled(text@.skip(len as int), shift as int) =~= before
                        + rest);
                }
                i = len;
            }
        }
    }
    proof {
        assert(text@.skip(len as int) =~= Seq::<char>::empty());
        assert(out@ =~= out@ + respelled(text@.skip(len as int), shift as int));
        lemma_shift_is_modular(text@, semitones as int);
    }
    string_of(&out)
}

/// Transposes a key label by `semitones`.
///
/// A key label is a root note, followed by `m` for a minor key. Its note is
/// moved by `semitones` modulo 12 and written with flats where
/// `prefer_flats` is set, with sharps where it is not; the `m` is kept.
/// Anything else is given back unchanged.
pub fn transpose_key(key: &str, semitones: i32, prefer_flats: bool) -> (result: String)
    ensures
        result@ == transposed_key(key@, semitones as int, prefer_flats),
{
    let text: Vec<char> = chars_of(key);
    let len: usize = text.len();
    proof {
        assert(text@.subrange(0, len as int) =~= text@);
    }
    match parse_root(&text, 0, len) {
        Some(root) => {
            if len == root.len || (len == root.len + 1 && text[root.len] == 'm') {
                let shift: u8 = semitone_shift(semitones);
                let mut out: Vec<char> = Vec::new();
                push_note_name(&mut out, shift_class(root.class, shift), prefer_flats);
                push_range(&mut out, &text, root.len, len);
                proof {
                    assert(text@.subrange(root.len as int, len as int) =~= text@.skip(
                        root.len as int,
                    ));
                    assert(shifted_class(root.class as int, shift as int) == shifted_class(
                        root.class as int,
                        semitones as int,
                    ));
                    assert(out@ =~= transposed_key(text@, semitones as int, prefer_flats));
                }
                string_of(&out)
            } else {
                string_of(&text)
            }
        },
        None => string_of(&text),
    }
}

} // verus!
