use tui_piano::{midi_for_key, note_name, note_name_chars, KEYMAP, LOWER_BLACK, LOWER_WHITE, UPPER_BLACK, UPPER_WHITE};

const NAMES: [&str; 12] = ["C", "C#", "D", "D#", "E", "F", "F#", "G", "G#", "A", "A#", "B"];

fn reference_name(midi: i32) -> String {
    format!("{}{}", NAMES[midi.rem_euclid(12) as usize], midi.div_euclid(12) - 1)
}

#[test]
fn note_name_examples() {
    assert_eq!(note_name(60), "C4");
    assert_eq!(note_name(61), "C#4");
    assert_eq!(note_name(69), "A4");
    assert_eq!(note_name(0), "C-1");
    assert_eq!(note_name(127), "G9");
    assert_eq!(note_name(-1), "B-2");
    assert_eq!(note_name(-12), "C-2");
    assert_eq!(note_name(-13), "B-3");
}

#[test]
fn note_name_matches_euclidean_formula() {
    for m in -500..500 {
        assert_eq!(note_name(m), reference_name(m));
    }
    for m in [i32::MIN, i32::MIN + 1, i32::MAX, i32::MAX - 11, 1_000_000_007] {
        assert_eq!(note_name(m), reference_name(m));
    }
    assert_eq!(note_name_chars(61), vec!['C', '#', '4']);
}

#[test]
fn note_name_octave_up_keeps_pitch() {
    for m in 0..128 {
        let a = note_name(m);
        let b = note_name(m + 12);
        let pitch = |s: &str| s.trim_end_matches(|c: char| c.is_ascii_digit() || c == '-').to_string();
        assert_eq!(pitch(&a), pitch(&b));
    }
}

#[test]
fn midi_for_key_examples() {
    assert_eq!(midi_for_key('z', 4, 0), Some(60));
    assert_eq!(midi_for_key('s', 4, 0), Some(61));
    assert_eq!(midi_for_key(',', 4, 0), Some(72));
    assert_eq!(midi_for_key('q', 4, 0), Some(72));
    assert_eq!(midi_for_key('l', 4, 0), Some(73));
    assert_eq!(midi_for_key('9', 4, 0), Some(85));
    assert_eq!(midi_for_key('i', 4, 4), Some(88));
    assert_eq!(midi_for_key('z', 1, 0), Some(24));
    assert_eq!(midi_for_key('9', 6, 4), Some(113));
    assert_eq!(midi_for_key('a', 4, 0), None);
    assert_eq!(midi_for_key('Z', 4, 0), None);
    assert_eq!(midi_for_key(' ', 4, 0), None);
}

#[test]
fn shift_and_octave_transpose_uniformly() {
    for (key, off) in KEYMAP.iter() {
        let c = midi_for_key(*key, 3, 0).unwrap();
        assert_eq!(c, 48 + off);
        assert_eq!(midi_for_key(*key, 3, 4), Some(c + 4));
        assert_eq!(midi_for_key(*key, 4, 0), Some(c + 12));
        assert!((0..=25).contains(off));
    }
}

#[test]
fn row_tables_agree_with_keymap() {
    for (white, black) in [(&UPPER_WHITE, &UPPER_BLACK), (&LOWER_WHITE, &LOWER_BLACK)] {
        for (key, off) in white.iter() {
            assert_eq!(midi_for_key(*key, 0, 0), Some(12 + off));
        }
        let steps: Vec<i32> = white.iter().map(|(_, o)| o - white[0].1).collect();
        assert_eq!(steps, vec![0, 2, 4, 5, 7, 9, 11, 12]);
        for (key, left) in black.iter() {
            assert_eq!(midi_for_key(*key, 0, 0), Some(12 + white[*left as usize].1 + 1));
        }
    }
}

#[test]
fn e_layout_rows_end_on_e() {
    for (key, _) in [UPPER_WHITE[0], UPPER_WHITE[7], LOWER_WHITE[0], LOWER_WHITE[7]] {
        let m = midi_for_key(key, 4, 4).unwrap();
        assert!(note_name(m).starts_with('E'));
        let m = midi_for_key(key, 4, 0).unwrap();
        assert!(note_name(m).starts_with('C') && !note_name(m).starts_with("C#"));
    }
}

#[test]
fn note_names_are_distinct() {
    let mut seen = std::collections::HashSet::new();
    for m in -2000..2000 {
        assert!(seen.insert(note_name(m)));
    }
}
