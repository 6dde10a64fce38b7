use revelation_server::songbook::transpose::{transpose_content, transpose_key};

/// The pitch classes of the chord roots and bass notes of a chart.
fn classes(chart: &str) -> Vec<u8> {
    let chars: Vec<char> = chart.chars().collect();
    let mut found = Vec::new();
    let mut i = 0;
    while i < chars.len() {
        if chars[i] == '[' {
            if let Some(len) = chars[i + 1..].iter().position(|c| *c == ']') {
                let body = &chars[i + 1..i + 1 + len];
                if let Some((class, used)) = root(body) {
                    found.push(class);
                    let tail = &body[used..];
                    if let Some(slash) = tail.iter().position(|c| *c == '/') {
                        if let Some((bass, _)) = root(&tail[slash + 1..]) {
                            found.push(bass);
                        }
                    }
                }
                i += len + 2;
                continue;
            }
            break;
        }
        i += 1;
    }
    found
}

fn root(text: &[char]) -> Option<(u8, usize)> {
    let natural = match text.first()? {
        'C' => 0,
        'D' => 2,
        'E' => 4,
        'F' => 5,
        'G' => 7,
        'A' => 9,
        'B' => 11,
        _ => return None,
    };
    match text.get(1) {
        Some('#') => Some(((natural + 1) % 12, 2)),
        Some('b') => Some(((natural + 11) % 12, 2)),
        _ => Some((natural, 1)),
    }
}

#[test]
fn chart_is_transposed_up_two_semitones() {
    assert_eq!(
        transpose_content("[Am]Jesus [C]loves [G]me", 2),
        "[Bm]Jesus [D]loves [A]me"
    );
}

#[test]
fn key_labels_are_transposed() {
    assert_eq!(transpose_key("C", 2, false), "D");
    assert_eq!(transpose_key("Am", 3, false), "Cm");
    assert_eq!(transpose_key("F#", 1, true), "G");
}

#[test]
fn key_spelling_follows_the_preference() {
    assert_eq!(transpose_key("C", 1, false), "C#");
    assert_eq!(transpose_key("C", 1, true), "Db");
    assert_eq!(transpose_key("Am", 1, false), "A#m");
    assert_eq!(transpose_key("Am", 1, true), "Bbm");
    assert_eq!(transpose_key("Bb", 0, false), "A#");
    assert_eq!(transpose_key("A#", 0, true), "Bb");
    assert_eq!(transpose_key("F#m", -2, true), "Em");
}

#[test]
fn every_pitch_class_has_its_name() {
    let sharps = ["C", "C#", "D", "D#", "E", "F", "F#", "G", "G#", "A", "A#", "B"];
    let flats = ["C", "Db", "D", "Eb", "E", "F", "Gb", "G", "Ab", "A", "Bb", "B"];
    for n in 0..12 {
        assert_eq!(transpose_key("C", n as i32, false), sharps[n]);
        assert_eq!(transpose_key("C", n as i32, true), flats[n]);
    }
}

#[test]
fn key_wraps_around_the_octave() {
    assert_eq!(transpose_key("B", 1, false), "C");
    assert_eq!(transpose_key("C", -1, false), "B");
    assert_eq!(transpose_key("G", 12, false), "G");
    assert_eq!(transpose_key("G", -12, false), "G");
    assert_eq!(transpose_key("G", 26, false), "A");
    assert_eq!(transpose_key("G", -26, false), "F");
    assert_eq!(transpose_key("C", i32::MAX, false), "G");
    assert_eq!(transpose_key("C", i32::MIN, false), "E");
    assert_eq!(transpose_key("Cb", 0, false), "B");
    assert_eq!(transpose_key("B#", 0, false), "C");
    assert_eq!(transpose_key("E#", 0, true), "F");
    assert_eq!(transpose_key("Fb", 0, true), "E");
}

#[test]
fn what_is_no_key_label_is_echoed() {
    for key in ["", "H", "c", "am", "m", "#", "Cmaj7", "C m", " C", "Am7", "Amm", "C##", "До"] {
        assert_eq!(transpose_key(key, 5, false), key);
        assert_eq!(transpose_key(key, 5, true), key);
    }
}

#[test]
fn offset_zero_is_the_identity() {
    for chart in [
        "",
        "[Bb]Amazing [Eb/G]grace",
        "[C",
        "]][[",
        "{title: Song}\n[Db]la [Xyz123] la\r\n",
        "Нет [F#m7]аккордов",
    ] {
        assert_eq!(transpose_content(chart, 0), chart);
    }
}

#[test]
fn empty_chart_stays_empty() {
    for n in [-12, -1, 0, 1, 7, 12, 100] {
        assert_eq!(transpose_content("", n), "");
    }
}

#[test]
fn malformed_chord_passes_through() {
    for n in [-13, -12, -5, -1, 0, 1, 2, 11, 12, 13, 1000] {
        assert_eq!(transpose_content("[Xyz123]", n), "[Xyz123]");
        assert_eq!(transpose_content("la [Xyz123] la [am] [] [#] [/G]", n), "la [Xyz123] la [am] [] [#] [/G]");
    }
}

#[test]
fn quality_and_bass_are_handled() {
    assert_eq!(transpose_content("[Cmaj7]", 2), "[Dmaj7]");
    assert_eq!(transpose_content("[Gsus4]", 2), "[Asus4]");
    assert_eq!(transpose_content("[F#m7]", 1), "[Gm7]");
    assert_eq!(transpose_content("[Bb7]", 2), "[C7]");
    assert_eq!(transpose_content("[C/E]", 2), "[D/F#]");
    assert_eq!(transpose_content("[Am7/G]", 3), "[Cm7/A#]");
    assert_eq!(transpose_content("[D/F#]", -2), "[C/E]");
    assert_eq!(transpose_content("[C/Eb/G]", 1), "[C#/E/G]");
    assert_eq!(transpose_content("[C6/9]", 2), "[D6/9]");
    assert_eq!(transpose_content("[C/]", 2), "[D/]");
    assert_eq!(transpose_content("[N.C./G]", 2), "[N.C./G]");
}

#[test]
fn content_is_spelled_with_sharps() {
    assert_eq!(transpose_content("[C][D][F][G][A]", 1), "[C#][D#][F#][G#][A#]");
    assert_eq!(transpose_content("[Db][Eb][Gb][Ab][Bb]", 12), "[C#][D#][F#][G#][A#]");
    assert_eq!(transpose_content("[Db][Eb][Gb][Ab][Bb]", -12), "[C#][D#][F#][G#][A#]");
}

#[test]
fn text_outside_chords_is_kept() {
    let chart = "{title: Amazing Grace}\n{soc}\n  [G]Amazing  [C]grace,\thow [D7]sweet\r\n\n{eoc}\n]stray";
    assert_eq!(
        transpose_content(chart, 5),
        "{title: Amazing Grace}\n{soc}\n  [C]Amazing  [F]grace,\thow [G7]sweet\r\n\n{eoc}\n]stray"
    );
    assert_eq!(transpose_content("A B C D E F G", 3), "A B C D E F G");
    assert_eq!(transpose_content("C]D[", 3), "C]D[");
}

#[test]
fn unclosed_bracket_is_copied() {
    assert_eq!(transpose_content("[C Amazing grace", 2), "[C Amazing grace");
    assert_eq!(transpose_content("[C]Amazing [G grace", 2), "[D]Amazing [G grace");
    assert_eq!(transpose_content("[", 2), "[");
}

#[test]
fn chord_runs_to_the_first_closing_bracket() {
    assert_eq!(transpose_content("[C[G]", 2), "[D[G]");
    assert_eq!(transpose_content("[C]]", 2), "[D]]");
    assert_eq!(transpose_content("[[C]", 2), "[[C]");
}

#[test]
fn transposition_goes_modulo_twelve() {
    let chart = "[Am]Jesus [C/E]loves [G7]me [Xyz]";
    for n in -30..=30 {
        if n % 12 != 0 {
            let reduced = ((n % 12) + 12) % 12;
            assert_eq!(transpose_content(chart, n), transpose_content(chart, reduced));
        }
    }
    assert_eq!(transpose_content(chart, 14), "[Bm]Jesus [D/F#]loves [A7]me [Xyz]");
    assert_eq!(transpose_content(chart, -10), "[Bm]Jesus [D/F#]loves [A7]me [Xyz]");
    assert_eq!(transpose_content(chart, i32::MIN), transpose_content(chart, 4));
    assert_eq!(transpose_content(chart, i32::MAX), transpose_content(chart, 7));
}

#[test]
fn round_trip_recovers_pitch_classes() {
    let chart = "[Bb]x[F#m7/C#]y[Eb/G]z[Cb][E#][Xyz][G/B]";
    for n in -25..=25 {
        let there = transpose_content(chart, n);
        let back = transpose_content(&there, -n);
        assert_eq!(classes(&back), classes(chart), "offset {}", n);
    }
}

#[test]
fn octave_keeps_pitch_classes() {
    let chart = "[Bb]x[F#m7/C#]y[Eb/G]z[Cb][E#]";
    assert_eq!(classes(&transpose_content(chart, 12)), classes(chart));
    assert_eq!(classes(&transpose_content(chart, -12)), classes(chart));
    assert_eq!(classes(&transpose_content(chart, 24)), classes(chart));
    assert_eq!(classes(chart), vec![10, 6, 1, 3, 7, 11, 5]);
    assert_eq!(transpose_content(chart, 12), "[A#]x[F#m7/C#]y[D#/G]z[B][F]");
}

#[test]
fn pitch_classes_move_with_the_offset() {
    let chart = "[C][C#][D][Eb][E][F][F#][G][Ab][A][Bb][B]";
    for n in 1..40 {
        let moved: Vec<u8> = (0..12).map(|c| ((c + n) % 12) as u8).collect();
        assert_eq!(classes(&transpose_content(chart, n)), moved);
    }
}

#[test]
fn doubly_altered_root_is_read_again_with_its_sign() {
    assert_eq!(transpose_content("[Bbb]", 2), "[Cb]");
    assert_eq!(transpose_content("[Cb]", -2), "[A]");
}

#[test]
fn transposing_twice_adds_the_offsets() {
    let chart = "{c: x}\n[Am7]la [D/F#]la [Esus4] [Bb] la";
    for n in 1..12 {
        for m in 1..12 {
            if (n + m) % 12 != 0 {
                assert_eq!(
                    transpose_content(&transpose_content(chart, n), m),
                    transpose_content(chart, n + m)
                );
            }
        }
    }
}
