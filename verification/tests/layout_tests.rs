use tui_piano::layout::{key_section, paint_runs, section_args_ok, cell_width, section_height, keyboard_range, layout_name, KeyRow, Paint};
use tui_piano::{paint_style, CellStyle, ThemeColor, AppState, KeyInput, KeyKind, UPPER_BLACK, UPPER_WHITE, LOWER_BLACK, LOWER_WHITE};

fn paint_code(p: Paint) -> char {
    match p {
        Paint::Normal => 'N',
        Paint::Dim => 'D',
        Paint::WhitePressed => 'W',
        Paint::Black => 'B',
        Paint::BlackPressed => 'P',
    }
}

fn render(rows: &[KeyRow]) -> Vec<(String, String)> {
    rows.iter()
        .map(|r| (r.chars.iter().collect::<String>(), r.paints.iter().map(|p| paint_code(*p)).collect::<String>()))
        .collect()
}

fn state_with_pressed(keys: &str) -> AppState {
    let mut s = AppState::new(false, true);
    for c in keys.chars() {
        s.handle_key(KeyInput::Char(c), KeyKind::Press, false, 0);
    }
    s
}

#[test]
fn key_section_upper_row_with_pressed_keys() {
    let state = state_with_pressed("w3");
    assert!(section_args_ok(&state, &UPPER_BLACK, &UPPER_WHITE, 4, 0, 5, 6, 48));
    let rows = key_section(&state, &UPPER_BLACK, &UPPER_WHITE, 4, 0, 5, 6, 48);
    let expected: Vec<(&str, &str)> = vec![
        ("    ███   ███     │   ███   ███   ███     │  ███", "NNNNBBBWWWPPPNNNNNDNNNBBBNNNBBBNNNBBBNNNNNDNNBBB"),
        ("    ███   ███     │   ███   ███   ███     │  ███", "NNNNBBBWWWPPPNNNNNDNNNBBBNNNBBBNNNBBBNNNNNDNNBBB"),
        ("    █2█   █3█     │   █5█   █6█   █7█     │  █9█", "NNNNBBBWWWPPPNNNNNDNNNBBBNNNBBBNNNBBBNNNNNDNNBBB"),
        ("      │     │     │     │     │     │     │     ", "NNNNNNWWWWWWDNNNNNDNNNNNDNNNNNDNNNNNDNNNNNDNNNNN"),
        ("  C5  │ D5  │ E5  │ F5  │ G5  │ A5  │ B5  │ C6  ", "NNDDNNWWWWWWDNDDNNDNDDNNDNDDNNDNDDNNDNDDNNDNDDNN"),
    ];
    let got = render(&rows);
    assert_eq!(got.len(), expected.len());
    for (g, e) in got.iter().zip(expected.iter()) {
        assert_eq!(g.0, e.0);
        assert_eq!(g.1, e.1);
    }
}

#[test]
fn key_section_lower_row_small_cells_overlapping_names() {
    let state = state_with_pressed("zs");
    assert!(section_args_ok(&state, &LOWER_BLACK, &LOWER_WHITE, 1, 4, 3, 4, 30));
    let rows = key_section(&state, &LOWER_BLACK, &LOWER_WHITE, 1, 4, 3, 4, 30);
    let expected: Vec<(&str, &str)> = vec![
        ("  █s█ █d█   │ █g█ █h█ █j█  █l█", "WWPPPNBBBNNNDNBBBNBBBNBBBNNBBB"),
        ("    │   │   │   │   │   │   │ ", "WWWWDNNNDNNNDNNNDNNNDNNNDNNNDN"),
        (" E1 F#1 G#1 │A1 │B1 C#2 D#2 │E", "WWWWDDDNDDDNDDDNDDDNDDDNDDDNDD"),
    ];
    let got = render(&rows);
    assert_eq!(got.len(), expected.len());
    for (g, e) in got.iter().zip(expected.iter()) {
        assert_eq!(g.0, e.0);
        assert_eq!(g.1, e.1);
    }
}

#[test]
fn key_section_lower_row_wide_cells() {
    let state = state_with_pressed("");
    assert!(section_args_ok(&state, &LOWER_BLACK, &LOWER_WHITE, 6, 0, 8, 10, 80));
    let rows = key_section(&state, &LOWER_BLACK, &LOWER_WHITE, 6, 0, 8, 10, 80);
    let expected: Vec<(&str, &str)> = vec![
        ("      ██████    ██████        │     ██████    ██████    ██████        │   ██████", "NNNNNNBBBBBBNNNNBBBBBBNNNNNNNNDNNNNNBBBBBBNNNNBBBBBBNNNNBBBBBBNNNNNNNNDNNNBBBBBB"),
        ("      ██████    ██████        │     ██████    ██████    ██████        │   ██████", "NNNNNNBBBBBBNNNNBBBBBBNNNNNNNNDNNNNNBBBBBBNNNNBBBBBBNNNNBBBBBBNNNNNNNNDNNNBBBBBB"),
        ("      ██████    ██████        │     ██████    ██████    ██████        │   ██████", "NNNNNNBBBBBBNNNNBBBBBBNNNNNNNNDNNNNNBBBBBBNNNNBBBBBBNNNNBBBBBBNNNNNNNNDNNNBBBBBB"),
        ("      ███s██    ███d██        │     ███g██    ███h██    ███j██        │   ███l██", "NNNNNNBBBBBBNNNNBBBBBBNNNNNNNNDNNNNNBBBBBBNNNNBBBBBBNNNNBBBBBBNNNNNNNNDNNNBBBBBB"),
        ("          │         │         │         │         │         │         │         ", "NNNNNNNNNNDNNNNNNNNNDNNNNNNNNNDNNNNNNNNNDNNNNNNNNNDNNNNNNNNNDNNNNNNNNNDNNNNNNNNN"),
        ("     z    │    x    │    c    │    v    │    b    │    n    │    m    │    ,    ", "NNNNNNNNNNDNNNNNNNNNDNNNNNNNNNDNNNNNNNNNDNNNNNNNNNDNNNNNNNNNDNNNNNNNNNDNNNNNNNNN"),
        ("          │         │         │         │         │         │         │         ", "NNNNNNNNNNDNNNNNNNNNDNNNNNNNNNDNNNNNNNNNDNNNNNNNNNDNNNNNNNNNDNNNNNNNNNDNNNNNNNNN"),
        ("    C6    │   D6    │   E6    │   F6    │   G6    │   A6    │   B6    │   C7    ", "NNNNDDNNNNDNNNDDNNNNDNNNDDNNNNDNNNDDNNNNDNNNDDNNNNDNNNDDNNNNDNNNDDNNNNDNNNDDNNNN"),
    ];
    let got = render(&rows);
    assert_eq!(got.len(), expected.len());
    for (g, e) in got.iter().zip(expected.iter()) {
        assert_eq!(g.0, e.0);
        assert_eq!(g.1, e.1);
    }
}

#[test]
fn key_section_refuses_too_narrow_drawing() {
    let state = state_with_pressed("");
    assert!(!section_args_ok(&state, &UPPER_BLACK, &UPPER_WHITE, 4, 0, 3, 4, 1));
    assert!(!section_args_ok(&state, &UPPER_BLACK, &UPPER_WHITE, 4, 0, 0, 4, 40));
    assert!(section_args_ok(&state, &UPPER_BLACK, &UPPER_WHITE, 4, 0, 3, 4, 2));
    assert!(section_args_ok(&state, &[], &UPPER_WHITE, 4, 0, 3, 0, 0));
    assert!(!section_args_ok(&state, &UPPER_BLACK, &UPPER_WHITE, i32::MAX, 0, 3, 4, 40));
}

#[test]
fn key_section_accepts_every_cell_width_whose_columns_fit() {
    let state = state_with_pressed("i");
    let w = usize::MAX / 8;
    assert!(section_args_ok(&state, &UPPER_BLACK, &UPPER_WHITE, 4, 0, 3, w, usize::MAX));
    assert!(!section_args_ok(&state, &UPPER_BLACK, &UPPER_WHITE, 4, 0, 3, w + 1, usize::MAX));
}

#[test]
fn paint_styles() {
    assert_eq!(paint_style(Paint::Normal), CellStyle { fg: None, reversed_bold: false });
    assert_eq!(paint_style(Paint::Dim), CellStyle { fg: Some(ThemeColor::Dim), reversed_bold: false });
    assert_eq!(paint_style(Paint::Black), CellStyle { fg: Some(ThemeColor::BlackKey), reversed_bold: false });
    assert_eq!(paint_style(Paint::WhitePressed), CellStyle { fg: None, reversed_bold: true });
    assert_eq!(paint_style(Paint::BlackPressed), CellStyle { fg: Some(ThemeColor::BlackKey), reversed_bold: true });
}

#[test]
fn paint_runs_splits_maximal_runs() {
    let paints = vec![Paint::Normal, Paint::Normal, Paint::Dim, Paint::Dim, Paint::Dim, Paint::Normal];
    assert_eq!(paint_runs(&paints), vec![(0, 2), (2, 5), (5, 6)]);
    assert_eq!(paint_runs(&vec![]), Vec::<(usize, usize)>::new());
    assert_eq!(paint_runs(&vec![Paint::Black]), vec![(0, 1)]);
}

#[test]
fn draw_sizes() {
    assert_eq!(cell_width(80), 10);
    assert_eq!(cell_width(20), 4);
    assert_eq!(cell_width(0), 4);
    assert_eq!(section_height(24), 9);
    assert_eq!(section_height(6), 3);
    assert_eq!(section_height(0), 3);
}

#[test]
fn header_range_and_layout_name() {
    assert_eq!(keyboard_range(4, 0), (60, 84));
    assert_eq!(keyboard_range(4, 4), (64, 88));
    assert_eq!(layout_name(0), "C");
    assert_eq!(layout_name(4), "E");
}
