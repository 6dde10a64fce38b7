//! What transposition keeps and what it changes.

use vstd::prelude::*;
use crate::songbook::chart::{
    after_first_chord, bass_text, chart_frame, chord_bodies, chord_classes, chord_tail,
    first_chord, has_bass, pitch_classes, plainly_spelled, plainly_spelled_chord,
    singly_altered, starts_with_chord,
};
use crate::songbook::chordpro::lyrics;
use crate::songbook::pitch::{is_accidental, note_name, root_class, root_len, shifted_class};
use crate::songbook::transpose::{
    is_key_label, lemma_shift_is_modular, respelled, transposed_chord, transposed_content,
    transposed_key, transposed_tail,
};
use crate::text::{first_index_of, lemma_first_index_of, lemma_first_index_of_is};

verus! {

/// Each pitch class of `classes` moved up by `n` semitones.
pub open spec fn shifted_classes(classes: Seq<int>, n: int) -> Seq<int> {
    classes.map_values(|c: int| shifted_class(c, n))
}

/// Whether `s` holds no closing bracket.
pub open spec fn has_no_close(s: Seq<char>) -> bool {
    forall|j: int| 0 <= j < s.len() ==> s[j] != ']'
}

/// A root note is read back from its name: a text that begins with the name
/// of a pitch class, with no accidental sign right behind it, begins with a
/// root note of that class, and the name is all of that note.
proof fn lemma_name_reads_back(class: int, prefer_flats: bool, rest: Seq<char>)
    requires
        0 <= class < 12,
        rest.len() > 0 ==> !is_accidental(rest[0]),
    ensures
        root_len(note_name(class, prefer_flats) + rest) == note_name(class, prefer_flats).len(),
        root_len(note_name(class, prefer_flats) + rest) > 0,
        root_class(note_name(class, prefer_flats) + rest) == class,
        (note_name(class, prefer_flats) + rest).skip(
            note_name(class, prefer_flats).len() as int,
        ) == rest,
        singly_altered(note_name(class, prefer_flats) + rest),
{
    let name = note_name(class, prefer_flats);
    let s = name + rest;
    assert(s[0] == name[0]);
    if name.len() == 2 {
        assert(s[1] == name[1]);
    } else if rest.len() > 0 {
        assert(s[1] == rest[0]);
    }
    assert(s.skip(name.len() as int) =~= rest);
    if rest.len() > 0 {
        assert(s[name.len() as int] == rest[0]);
    }
}

/// The name of a pitch class holds no bracket and no slash.
proof fn lemma_name_is_plain(class: int, prefer_flats: bool)
    ensures
        forall|j: int|
            0 <= j < note_name(class, prefer_flats).len() ==> {
                let c = #[trigger] note_name(class, prefer_flats)[j];
                c != ']' && c != '[' && c != '/'
            },
        1 <= note_name(class, prefer_flats).len() <= 2,
{
}

/// What a transposed chord tail looks like: it names a bass note exactly
/// where the tail did, the bass note is the old one moved by `n`, and the
/// tail begins as before.
proof fn lemma_transposed_tail(tail: Seq<char>, n: int, prefer_flats: bool)
    requires
        has_bass(tail) ==> singly_altered(bass_text(tail)),
    ensures
        has_bass(transposed_tail(tail, n, prefer_flats)) == has_bass(tail),
        has_bass(tail) ==> root_class(bass_text(transposed_tail(tail, n, prefer_flats)))
            == shifted_class(root_class(bass_text(tail)), n),
        has_bass(tail) ==> singly_altered(bass_text(transposed_tail(tail, n, prefer_flats))),
        transposed_tail(tail, n, prefer_flats).len() == 0 <==> tail.len() == 0,
        tail.len() > 0 ==> transposed_tail(tail, n, prefer_flats)[0] == tail[0],
{
    if has_bass(tail) {
        let slash = first_index_of(tail, '/') as int;
        let bass = bass_text(tail);
        let class = shifted_class(root_class(bass), n);
        let name = note_name(class, prefer_flats);
        let rest = bass.skip(root_len(bass));
        let out = transposed_tail(tail, n, prefer_flats);
        lemma_first_index_of(tail, '/');
        lemma_name_is_plain(class, prefer_flats);
        assert(out == tail.take(slash + 1) + name + rest);
        assert forall|j: int| 0 <= j < slash implies out[j] != '/' by {
            assert(out[j] == tail[j]);
        }
        assert(out[slash] == tail[slash]);
        lemma_first_index_of_is(out, '/', slash);
        assert(bass_text(out) =~= name + rest);
        if rest.len() > 0 {
            assert(rest[0] == bass[root_len(bass)]);
        }
        lemma_name_reads_back(class, prefer_flats, rest);
        assert(out[0] == tail[0]);
    }
}

/// What a transposed chord looks like: it names the pitch classes of the
/// old chord moved by `n`, and it is plainly spelled again.
pub proof fn lemma_transposed_chord(body: Seq<char>, n: int, prefer_flats: bool)
    requires
        plainly_spelled_chord(body),
    ensures
        chord_classes(transposed_chord(body, n, prefer_flats)) == shifted_classes(
            chord_classes(body),
            n,
        ),
        plainly_spelled_chord(transposed_chord(body, n, prefer_flats)),
{
    let out = transposed_chord(body, n, prefer_flats);
    if root_len(body) == 0 {
        assert(chord_classes(body) =~= shifted_classes(chord_classes(body), n));
    } else {
        let tail = chord_tail(body);
        let class = shifted_class(root_class(body), n);
        let new_tail = transposed_tail(tail, n, prefer_flats);
        lemma_transposed_tail(tail, n, prefer_flats);
        if tail.len() > 0 {
            assert(tail[0] == body[root_len(body)]);
        }
        lemma_name_reads_back(class, prefer_flats, new_tail);
        assert(chord_tail(out) == new_tail);
        assert(root_class(out) == class);
        if has_bass(tail) {
            let bass_class = root_class(bass_text(tail));
            assert(chord_classes(body) == seq![root_class(body), bass_class]);
            assert(chord_classes(out) == seq![class, shifted_class(bass_class, n)]);
            assert(seq![class, shifted_class(bass_class, n)] =~= shifted_classes(
                seq![root_class(body), bass_class],
                n,
            ));
        } else {
            assert(chord_classes(body) == seq![root_class(body)]);
            assert(chord_classes(out) == seq![class]);
            assert(seq![class] =~= shifted_classes(seq![root_class(body)], n));
        }
    }
}

/// A chord written in front of a chart is the first chord of what results,
/// and the chart is what follows it.
proof fn lemma_chord_in_front(body: Seq<char>, rest: Seq<char>)
    requires
        has_no_close(body),
    ensures
        starts_with_chord(seq!['['] + body + seq![']'] + rest),
        first_chord(seq!['['] + body + seq![']'] + rest) == body,
        after_first_chord(seq!['['] + body + seq![']'] + rest) == rest,
{
    let text = seq!['['] + body + seq![']'] + rest;
    let inner = text.skip(1);
    assert(inner =~= body + seq![']'] + rest);
    assert forall|j: int| 0 <= j < body.len() implies inner[j] != ']' by {
        assert(inner[j] == body[j]);
    }
    assert(inner[body.len() as int] == ']');
    lemma_first_index_of_is(inner, ']', body.len() as int);
    assert(text[0] == '[');
    assert(first_chord(text) =~= body);
    assert(after_first_chord(text) =~= rest);
}

/// A chart that begins with a chord is that chord between brackets and
/// what follows it; the chord holds no closing bracket.
proof fn lemma_chord_taken_off(text: Seq<char>)
    requires
        starts_with_chord(text),
    ensures
        text == seq!['['] + first_chord(text) + seq![']'] + after_first_chord(text),
        has_no_close(first_chord(text)),
        after_first_chord(text).len() < text.len(),
{
    let inner = text.skip(1);
    lemma_first_index_of(inner, ']');
    assert(text =~= seq!['['] + first_chord(text) + seq![']'] + after_first_chord(text));
}

/// A character other than `[` written in front of a chart opens no chord.
proof fn lemma_char_in_front(c: char, rest: Seq<char>)
    requires
        c != '[',
    ensures
        !starts_with_chord(seq![c] + rest),
        (seq![c] + rest).len() > 0,
        (seq![c] + rest)[0] == c,
        (seq![c] + rest).skip(1) == rest,
{
    assert((seq![c] + rest).skip(1) =~= rest);
}

/// Transposing by any offset but 0 keeps the frame of the chart and moves
/// each chord by itself.
proof fn lemma_respelled_chart(text: Seq<char>, n: int)
    ensures
        chart_frame(respelled(text, n)) == chart_frame(text),
        chord_bodies(respelled(text, n)) == chord_bodies(text).map_values(
            |body: Seq<char>| transposed_chord(body, n, false),
        ),
    decreases text.len(),
{
    let move_chord = |body: Seq<char>| transposed_chord(body, n, false);
    if text.len() == 0 {
        assert(chord_bodies(text).map_values(move_chord) =~= chord_bodies(text));
    } else if starts_with_chord(text) {
        let body = first_chord(text);
        let rest = after_first_chord(text);
        let moved = transposed_chord(body, n, false);
        lemma_chord_taken_off(text);
        lemma_moved_chord_has_no_close(body, n);
        lemma_chord_in_front(moved, respelled(rest, n));
        lemma_respelled_chart(rest, n);
        assert(chord_bodies(text).map_values(move_chord) =~= seq![moved] + chord_bodies(
            rest,
        ).map_values(move_chord));
    } else if text[0] == '[' {
        assert(chord_bodies(text).map_values(move_chord) =~= chord_bodies(text));
    } else {
        lemma_char_in_front(text[0], respelled(text.skip(1), n));
        lemma_respelled_chart(text.skip(1), n);
    }
}

/// A transposed chord holds no closing bracket where the chord held none.
proof fn lemma_moved_chord_has_no_close(body: Seq<char>, n: int)
    requires
        has_no_close(body),
    ensures
        has_no_close(transposed_chord(body, n, false)),
{
    let out = transposed_chord(body, n, false);
    if root_len(body) > 0 {
        let tail = chord_tail(body);
        let name = note_name(shifted_class(root_class(body), n), false);
        lemma_name_is_plain(shifted_class(root_class(body), n), false);
        assert forall|j: int| 0 <= j < tail.len() implies tail[j] != ']' by {
            assert(tail[j] == body[j + root_len(body)]);
        }
        let new_tail = transposed_tail(tail, n, false);
        if has_bass(tail) {
            let slash = first_index_of(tail, '/') as int;
            let bass = bass_text(tail);
            let bass_name = note_name(shifted_class(root_class(bass), n), false);
            let rest = bass.skip(root_len(bass));
            lemma_first_index_of(tail, '/');
            lemma_name_is_plain(shifted_class(root_class(bass), n), false);
            assert forall|j: int| 0 <= j < new_tail.len() implies new_tail[j] != ']' by {
                if j < slash + 1 {
                    assert(new_tail[j] == tail[j]);
                } else if j < slash + 1 + bass_name.len() {
                    assert(new_tail[j] == bass_name[j - slash - 1]);
                } else {
                    assert(new_tail[j] == tail[j - bass_name.len() + root_len(bass)]);
                }
            }
        }
        assert forall|j: int| 0 <= j < out.len() implies out[j] != ']' by {
            if j < name.len() {
                assert(out[j] == name[j]);
            } else {
                assert(out[j] == new_tail[j - name.len()]);
            }
        }
    }
}

/// Transposition keeps the frame of a chart: lyrics, white space, section
/// markers and the brackets of the chords come out character for character
/// as they went in, whatever the offset.
pub proof fn lemma_frame_is_kept(text: Seq<char>, n: int)
    ensures
        chart_frame(transposed_content(text, n)) == chart_frame(text),
{
    lemma_respelled_chart(text, n);
}

/// Transposition goes chord by chord: for an offset other than 0 the chords
/// of the result are the chords of the chart, each moved by the offset and
/// written with sharps.
pub proof fn lemma_chords_are_moved(text: Seq<char>, n: int)
    requires
        n != 0,
    ensures
        chord_bodies(transposed_content(text, n)) == chord_bodies(text).map_values(
            |body: Seq<char>| transposed_chord(body, n, false),
        ),
{
    lemma_respelled_chart(text, n);
}

/// The pitch classes that a chart names lie in `0..12`.
pub proof fn lemma_pitch_classes_in_range(text: Seq<char>)
    ensures
        forall|i: int|
            0 <= i < pitch_classes(text).len() ==> 0 <= #[trigger] pitch_classes(text)[i] < 12,
    decreases text.len(),
{
    if text.len() == 0 {
    } else if starts_with_chord(text) {
        let first = chord_classes(first_chord(text));
        let others = pitch_classes(after_first_chord(text));
        lemma_chord_taken_off(text);
        lemma_pitch_classes_in_range(after_first_chord(text));
        assert forall|i: int| 0 <= i < pitch_classes(text).len() implies 0
            <= #[trigger] pitch_classes(text)[i] < 12 by {
            if i < first.len() {
                assert(pitch_classes(text)[i] == first[i]);
            } else {
                assert(pitch_classes(text)[i] == others[i - first.len()]);
            }
        }
    } else if text[0] == '[' {
        assert(pitch_classes(text).len() == 0);
    } else {
        lemma_pitch_classes_in_range(text.skip(1));
        assert(pitch_classes(text) == pitch_classes(text.skip(1)));
    }
}

/// In a plainly spelled chart, moving every chord by `n` semitones moves
/// every pitch class by `n`, and the result is plainly spelled again.
proof fn lemma_respelled_classes(text: Seq<char>, n: int)
    requires
        plainly_spelled(text),
    ensures
        pitch_classes(respelled(text, n)) == shifted_classes(pitch_classes(text), n),
        plainly_spelled(respelled(text, n)),
    decreases text.len(),
{
    if text.len() == 0 {
        assert(pitch_classes(text) =~= shifted_classes(pitch_classes(text), n));
    } else if starts_with_chord(text) {
        let body = first_chord(text);
        let rest = after_first_chord(text);
        let moved = transposed_chord(body, n, false);
        lemma_chord_taken_off(text);
        lemma_transposed_chord(body, n, false);
        lemma_moved_chord_has_no_close(body, n);
        lemma_chord_in_front(moved, respelled(rest, n));
        lemma_respelled_classes(rest, n);
        assert(shifted_classes(pitch_classes(text), n) =~= shifted_classes(
            chord_classes(body),
            n,
        ) + shifted_classes(pitch_classes(rest), n));
    } else if text[0] == '[' {
        assert(pitch_classes(text) =~= shifted_classes(pitch_classes(text), n));
    } else {
        lemma_char_in_front(text[0], respelled(text.skip(1), n));
        lemma_respelled_classes(text.skip(1), n);
    }
}

/// Transposing a plainly spelled chart by `n` semitones moves the pitch
/// class of every chord by `n` modulo 12, and leaves the chart plainly
/// spelled.
pub proof fn lemma_classes_are_shifted(text: Seq<char>, n: int)
    requires
        plainly_spelled(text),
    ensures
        pitch_classes(transposed_content(text, n)) == shifted_classes(pitch_classes(text), n),
        plainly_spelled(transposed_content(text, n)),
{
    if n == 0 {
        lemma_pitch_classes_in_range(text);
        assert(pitch_classes(text) =~= shifted_classes(pitch_classes(text), 0));
    } else {
        lemma_respelled_classes(text, n);
    }
}

/// Transposing a plainly spelled chart up by `n` semitones and then down by
/// `n` gives back the pitch class of every chord. The spelling may differ.
pub proof fn lemma_round_trip_keeps_classes(text: Seq<char>, n: int)
    requires
        plainly_spelled(text),
    ensures
        pitch_classes(transposed_content(transposed_content(text, n), -n)) == pitch_classes(
            text,
        ),
{
    let there = transposed_content(text, n);
    lemma_classes_are_shifted(text, n);
    lemma_classes_are_shifted(there, -n);
    lemma_pitch_classes_in_range(text);
    assert(shifted_classes(shifted_classes(pitch_classes(text), n), -n) =~= pitch_classes(text))
        by {
        assert forall|i: int| 0 <= i < pitch_classes(text).len() implies shifted_class(
            shifted_class(#[trigger] pitch_classes(text)[i], n),
            -n,
        ) == pitch_classes(text)[i] by {
            let c = pitch_classes(text)[i];
            assert(((c + n) % 12 - n) % 12 == c);
        }
    }
}

/// Transposing a plainly spelled chart by an octave, or by any multiple of
/// 12 semitones, keeps the pitch class of every chord. The spelling may
/// differ.
pub proof fn lemma_octave_keeps_classes(text: Seq<char>, n: int)
    requires
        plainly_spelled(text),
        n % 12 == 0,
    ensures
        pitch_classes(transposed_content(text, n)) == pitch_classes(text),
{
    lemma_classes_are_shifted(text, n);
    lemma_pitch_classes_in_range(text);
    assert(shifted_classes(pitch_classes(text), n) =~= pitch_classes(text)) by {
        assert forall|i: int| 0 <= i < pitch_classes(text).len() implies shifted_class(
            #[trigger] pitch_classes(text)[i],
            n,
        ) == pitch_classes(text)[i] by {
            let c = pitch_classes(text)[i];
            assert((c + n) % 12 == c);
        }
    }
}

/// A chart whose chords name no pitch class, because none of them begins
/// with a note letter, comes out of transposition unchanged, whatever the
/// offset.
pub proof fn lemma_unreadable_chords_pass(text: Seq<char>, n: int)
    requires
        pitch_classes(text).len() == 0,
    ensures
        transposed_content(text, n) == text,
{
    lemma_unreadable_respelled(text, n);
}

proof fn lemma_unreadable_respelled(text: Seq<char>, n: int)
    requires
        pitch_classes(text).len() == 0,
    ensures
        respelled(text, n) == text,
    decreases text.len(),
{
    if text.len() == 0 {
    } else if starts_with_chord(text) {
        lemma_chord_taken_off(text);
        lemma_unreadable_respelled(after_first_chord(text), n);
    } else if text[0] == '[' {
    } else {
        lemma_unreadable_respelled(text.skip(1), n);
        assert(seq![text[0]] + text.skip(1) =~= text);
    }
}

/// Transposition goes by the offset modulo 12: transposing a chart by `n`
/// semitones, where `n` is no multiple of 12, gives what transposing it by
/// `n % 12` gives. (A multiple of 12 other than 0 writes every chord anew,
/// which the offset 0 does not.)
pub proof fn lemma_transposition_is_modular(text: Seq<char>, n: int)
    requires
        n % 12 != 0,
    ensures
        transposed_content(text, n) == transposed_content(text, n % 12),
{
    lemma_shift_is_modular(text, n);
}

/// Transposition of a key label goes by the offset modulo 12.
pub proof fn lemma_key_transposition_is_modular(key: Seq<char>, n: int, prefer_flats: bool)
    ensures
        transposed_key(key, n, prefer_flats) == transposed_key(key, n % 12, prefer_flats),
{
    assert(shifted_class(root_class(key), n) == shifted_class(root_class(key), n % 12)) by {
        assert((root_class(key) + n) % 12 == (root_class(key) + n % 12) % 12);
    }
}

/// Moving a pitch class by `n` and then by `m` semitones moves it by
/// `n + m`.
proof fn lemma_shifts_add(class: int, n: int, m: int)
    ensures
        shifted_class(shifted_class(class, n), m) == shifted_class(class, n + m),
{
    assert(((class + n) % 12 + m) % 12 == (class + n + m) % 12);
}

proof fn lemma_tail_moved_twice(tail: Seq<char>, n: int, m: int, prefer_flats: bool)
    requires
        has_bass(tail) ==> singly_altered(bass_text(tail)),
    ensures
        transposed_tail(transposed_tail(tail, n, prefer_flats), m, prefer_flats)
            == transposed_tail(tail, n + m, prefer_flats),
{
    if has_bass(tail) {
        let slash = first_index_of(tail, '/') as int;
        let bass = bass_text(tail);
        let class = shifted_class(root_class(bass), n);
        let name = note_name(class, prefer_flats);
        let rest = bass.skip(root_len(bass));
        let once = transposed_tail(tail, n, prefer_flats);
        lemma_first_index_of(tail, '/');
        lemma_name_is_plain(class, prefer_flats);
        assert forall|j: int| 0 <= j < slash implies once[j] != '/' by {
            assert(once[j] == tail[j]);
        }
        assert(once[slash] == tail[slash]);
        lemma_first_index_of_is(once, '/', slash);
        assert(bass_text(once) =~= name + rest);
        if rest.len() > 0 {
            assert(rest[0] == bass[root_len(bass)]);
        }
        lemma_name_reads_back(class, prefer_flats, rest);
        lemma_shifts_add(root_class(bass), n, m);
        assert(once.take(slash + 1) =~= tail.take(slash + 1));
    }
}

/// Moving a plainly spelled chord by `n` and then by `m` semitones gives
/// the chord moved by `n + m`.
pub proof fn lemma_chord_moved_twice(body: Seq<char>, n: int, m: int, prefer_flats: bool)
    requires
        plainly_spelled_chord(body),
    ensures
        transposed_chord(transposed_chord(body, n, prefer_flats), m, prefer_flats)
            == transposed_chord(body, n + m, prefer_flats),
{
    if root_len(body) > 0 {
        let tail = chord_tail(body);
        let class = shifted_class(root_class(body), n);
        let name = note_name(class, prefer_flats);
        let new_tail = transposed_tail(tail, n, prefer_flats);
        lemma_transposed_tail(tail, n, prefer_flats);
        if tail.len() > 0 {
            assert(tail[0] == body[root_len(body)]);
        }
        lemma_name_reads_back(class, prefer_flats, new_tail);
        lemma_tail_moved_twice(tail, n, m, prefer_flats);
        lemma_shifts_add(root_class(body), n, m);
    }
}

proof fn lemma_respelled_twice(text: Seq<char>, n: int, m: int)
    requires
        plainly_spelled(text),
    ensures
        respelled(respelled(text, n), m) == respelled(text, n + m),
    decreases text.len(),
{
    if text.len() == 0 {
    } else if starts_with_chord(text) {
        let body = first_chord(text);
        let rest = after_first_chord(text);
        let moved = transposed_chord(body, n, false);
        lemma_chord_taken_off(text);
        lemma_moved_chord_has_no_close(body, n);
        lemma_chord_in_front(moved, respelled(rest, n));
        lemma_chord_moved_twice(body, n, m, false);
        lemma_respelled_twice(rest, n, m);
    } else if text[0] == '[' {
    } else {
        lemma_char_in_front(text[0], respelled(text.skip(1), n));
        lemma_respelled_twice(text.skip(1), n, m);
    }
}

/// Transposing a plainly spelled chart by `n` and then by `m` semitones
/// gives the chart transposed by `n + m`, character for character, as long
/// as none of the three offsets is 0.
pub proof fn lemma_transposed_twice(text: Seq<char>, n: int, m: int)
    requires
        plainly_spelled(text),
        n != 0,
        m != 0,
        n + m != 0,
    ensures
        transposed_content(transposed_content(text, n), m) == transposed_content(text, n + m),
{
    lemma_respelled_twice(text, n, m);
}

/// Inside a chord the filter drops everything up to the closing bracket.
proof fn lemma_chord_is_dropped(body: Seq<char>, rest: Seq<char>)
    requires
        has_no_close(body),
    ensures
        lyrics(body + seq![']'] + rest, true) == lyrics(rest, false),
    decreases body.len(),
{
    let text = body + seq![']'] + rest;
    if body.len() == 0 {
        assert(text.skip(1) =~= rest);
        assert(text[0] == ']');
    } else {
        assert(text[0] == body[0]);
        assert(text.skip(1) =~= body.skip(1) + seq![']'] + rest);
        assert forall|j: int| 0 <= j < body.skip(1).len() implies body.skip(1)[j] != ']' by {
            assert(body.skip(1)[j] == body[j + 1]);
        }
        lemma_chord_is_dropped(body.skip(1), rest);
    }
}

proof fn lemma_respelled_lyrics(text: Seq<char>, n: int)
    ensures
        lyrics(respelled(text, n), false) == lyrics(text, false),
    decreases text.len(),
{
    if text.len() == 0 {
    } else if starts_with_chord(text) {
        let body = first_chord(text);
        let rest = after_first_chord(text);
        let moved = transposed_chord(body, n, false);
        let out = respelled(text, n);
        lemma_chord_taken_off(text);
        lemma_moved_chord_has_no_close(body, n);
        lemma_respelled_lyrics(rest, n);
        assert(out.skip(1) =~= moved + seq![']'] + respelled(rest, n));
        assert(out[0] == '[');
        lemma_chord_is_dropped(moved, respelled(rest, n));
        assert(text.skip(1) =~= body + seq![']'] + rest);
        lemma_chord_is_dropped(body, rest);
    } else if text[0] == '[' {
    } else {
        lemma_char_in_front(text[0], respelled(text.skip(1), n));
        lemma_respelled_lyrics(text.skip(1), n);
    }
}

/// Stripping the chords does not see transposition: a chart and its
/// transposition have the same plain text, whatever the offset.
pub proof fn lemma_lyrics_are_kept(text: Seq<char>, n: int)
    ensures
        lyrics(transposed_content(text, n), false) == lyrics(text, false),
{
    lemma_respelled_lyrics(text, n);
}

/// The transposition of a key label is a key label: its note is the old
/// one moved by `n`, and it is minor where the old one was.
pub proof fn lemma_transposed_key(key: Seq<char>, n: int, prefer_flats: bool)
    requires
        is_key_label(key),
    ensures
        is_key_label(transposed_key(key, n, prefer_flats)),
        root_class(transposed_key(key, n, prefer_flats)) == shifted_class(root_class(key), n),
        transposed_key(key, n, prefer_flats).skip(
            root_len(transposed_key(key, n, prefer_flats)),
        ) == key.skip(root_len(key)),
{
    let rest = key.skip(root_len(key));
    let class = shifted_class(root_class(key), n);
    if rest.len() > 0 {
        assert(rest[0] == key[root_len(key)]);
    }
    lemma_name_reads_back(class, prefer_flats, rest);
    let out = transposed_key(key, n, prefer_flats);
    if rest.len() > 0 {
        assert(out[root_len(out)] == rest[0]);
    }
}

/// Transposing a key label by `n` and then by `m` semitones gives the
/// label transposed by `n + m`, in the spelling asked for last.
pub proof fn lemma_key_transposed_twice(
    key: Seq<char>,
    n: int,
    m: int,
    first_flats: bool,
    prefer_flats: bool,
)
    ensures
        transposed_key(transposed_key(key, n, first_flats), m, prefer_flats) == transposed_key(
            key,
            n + m,
            prefer_flats,
        ),
{
    if is_key_label(key) {
        lemma_transposed_key(key, n, first_flats);
        lemma_shifts_add(root_class(key), n, m);
    }
}

} // verus!
