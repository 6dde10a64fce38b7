//! Note names and pitch classes.
//!
//! A pitch class is one of the twelve chromatic semitones, numbered from
//! `C = 0` up to `B = 11`. A root note is written as a letter `A`..`G`
//! followed by at most one accidental sign, `#` or `b`.

use vstd::prelude::*;

verus! {

/// Whether `c` is one of the seven note letters.
pub open spec fn is_note_letter(c: char) -> bool {
    c == 'A' || c == 'B' || c == 'C' || c == 'D' || c == 'E' || c == 'F' || c == 'G'
}

/// Whether `c` is an accidental sign.
pub open spec fn is_accidental(c: char) -> bool {
    c == '#' || c == 'b'
}

/// Pitch class of a note letter without accidental.
pub open spec fn natural_class(letter: char) -> int {
    if letter == 'C' {
        0
    } else if letter == 'D' {
        2
    } else if letter == 'E' {
        4
    } else if letter == 'F' {
        5
    } else if letter == 'G' {
        7
    } else if letter == 'A' {
        9
    } else {
        11
    }
}

/// Number of characters that the root note at the start of `s` takes:
/// 0 where `s` does not begin with a note letter, else 1 or 2.
pub open spec fn root_len(s: Seq<char>) -> int {
    if s.len() == 0 || !is_note_letter(s[0]) {
        0
    } else if s.len() >= 2 && is_accidental(s[1]) {
        2
    } else {
        1
    }
}

/// Pitch class of the root note at the start of `s`, where there is one.
pub open spec fn root_class(s: Seq<char>) -> int
    recommends
        root_len(s) > 0,
{
    if root_len(s) == 2 {
        if s[1] == '#' {
            (natural_class(s[0]) + 1) % 12
        } else {
            (natural_class(s[0]) + 11) % 12
        }
    } else {
        natural_class(s[0])
    }
}

/// The pitch class `n` semitones above `class`, wrapped into `0..12`.
pub open spec fn shifted_class(class: int, n: int) -> int {
    (class + n) % 12
}

/// Name of a pitch class, spelled with sharps.
pub open spec fn sharp_name(class: int) -> Seq<char> {
    if class == 0 {
        seq!['C']
    } else if class == 1 {
        seq!['C', '#']
    } else if class == 2 {
        seq!['D']
    } else if class == 3 {
        seq!['D', '#']
    } else if class == 4 {
        seq!['E']
    } else if class == 5 {
        seq!['F']
    } else if class == 6 {
        seq!['F', '#']
    } else if class == 7 {
        seq!['G']
    } else if class == 8 {
        seq!['G', '#']
    } else if class == 9 {
        seq!['A']
    } else if class == 10 {
        seq!['A', '#']
    } else {
        seq!['B']
    }
}

/// Name of a pitch class, spelled with flats.
pub open spec fn flat_name(class: int) -> Seq<char> {
    if class == 0 {
        seq!['C']
    } else if class == 1 {
        seq!['D', 'b']
    } else if class == 2 {
        seq!['D']
    } else if class == 3 {
        seq!['E', 'b']
    } else if class == 4 {
        seq!['E']
    } else if class == 5 {
        seq!['F']
    } else if class == 6 {
        seq!['G', 'b']
    } else if class == 7 {
        seq!['G']
    } else if class == 8 {
        seq!['A', 'b']
    } else if class == 9 {
        seq!['A']
    } else if class == 10 {
        seq!['B', 'b']
    } else {
        seq!['B']
    }
}

/// Name of a pitch class in the chosen spelling.
pub open spec fn note_name(class: int, prefer_flats: bool) -> Seq<char> {
    if prefer_flats {
        flat_name(class)
    } else {
        sharp_name(class)
    }
}

/// A root note read from the start of a text.
#[derive(Clone, Copy, Debug)]
pub struct RootNote {
    /// Pitch class, `0..12`.
    pub class: u8,
    /// Number of characters the note takes, 1 or 2.
    pub len: usize,
}

/// Reads the root note that starts at `text[start]` and ends before `end`.
///
/// Returns `None` where the text there does not begin with a note letter.
pub fn parse_root(text: &Vec<char>, start: usize, end: usize) -> (root: Option<RootNote>)
    requires
        start <= end <= text.len(),
    ensures
        root is None <==> root_len(text@.subrange(start as int, end as int)) == 0,
        root matches Some(r) ==> {
            &&& r.len == root_len(text@.subrange(start as int, end as int))
            &&& r.class == root_class(text@.subrange(start as int, end as int))
            &&& r.class < 12
        },
{
    if start >= end {
        return None;
    }
    let letter: char = text[start];
    let natural: u8 = if letter == 'C' {
        0
    } else if letter == 'D' {
        2
    } else if letter == 'E' {
        4
    } else if letter == 'F' {
        5
    } else if letter == 'G' {
        7
    } else if letter == 'A' {
        9
    } else if letter == 'B' {
        11
    } else {
        return None;
    };
    if end - start >= 2 && text[start + 1] == '#' {
        Some(RootNote { class: (natural + 1) % 12, len: 2 })
    } else if end - start >= 2 && text[start + 1] == 'b' {
        Some(RootNote { class: (natural + 11) % 12, len: 2 })
    } else {
        Some(RootNote { class: natural, len: 1 })
    }
}

/// Appends the name of `class` to `out`, spelled with flats where
/// `prefer_flats` is set and with sharps where it is not.
pub fn push_note_name(out: &mut Vec<char>, class: u8, prefer_flats: bool)
    requires
        class < 12,
    ensures
        final(out)@ == old(out)@ + note_name(class as int, prefer_flats),
{
    let sharp: bool = class == 1 || class == 3 || class == 6 || class == 8 || class == 10;
    let letter: char = if class == 0 {
        'C'
    } else if class <= 2 {
        'D'
    } else if class <= 4 {
        'E'
    } else if class == 5 {
        'F'
    } else if class <= 7 {
        'G'
    } else if class <= 9 {
        'A'
    } else {
        'B'
    };
    let ghost before = out@;
    if !sharp {
        out.push(letter);
        assert(out@ =~= before + note_name(class as int, prefer_flats));
    } else if prefer_flats {
        out.push(letter);
        out.push('b');
        assert(out@ =~= before + note_name(class as int, prefer_flats));
    } else {
        let below: char = if class == 1 {
            'C'
        } else if class == 3 {
            'D'
        } else if class == 6 {
            'F'
        } else if class == 8 {
            'G'
        } else {
            'A'
        };
        out.push(below);
        out.push('#');
        assert(out@ =~= before + note_name(class as int, prefer_flats));
    }
}

/// Reduces a semitone offset to the equivalent offset in `0..12`.
pub fn semitone_shift(semitones: i32) -> (shift: u8)
    ensures
        shift == semitones as int % 12,
        shift < 12,
{
    let r: i32 = semitones % 12;
    let wrapped: i32 = if r < 0 {
        r + 12
    } else {
        r
    };
    wrapped as u8
}

/// The pitch class `shift` semitones above `class`.
pub fn shift_class(class: u8, shift: u8) -> (shifted: u8)
    requires
        class < 12,
        shift < 12,
    ensures
        shifted == shifted_class(class as int, shift as int),
        shifted < 12,
{
    (class + shift) % 12
}

} // verus!
