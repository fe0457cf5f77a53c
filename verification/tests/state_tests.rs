use tui_piano::state::{FLASH_NANOS, STUCK_NANOS};
use tui_piano::{ascii_lower, Action, AppState, KeyInput, KeyKind};

fn press(s: &mut AppState, key: KeyInput, now: u64) -> Action {
    s.handle_key(key, KeyKind::Press, false, now)
}

#[test]
fn starts_at_octave_four_in_c() {
    let s = AppState::new(false, true);
    assert_eq!(s.octave(), 4);
    assert_eq!(s.key_shift(), 0);
    assert_eq!(s.last_note(), None);
    assert!(s.has_audio());
    assert!(!s.is_enhanced());
    assert!(!s.is_pressed('z'));
}

#[test]
fn octave_arrows_clamp_between_one_and_six() {
    let mut s = AppState::new(false, true);
    for _ in 0..5 {
        assert_eq!(press(&mut s, KeyInput::Right, 0), Action::Nothing);
    }
    assert_eq!(s.octave(), 6);
    for _ in 0..10 {
        press(&mut s, KeyInput::Left, 0);
    }
    assert_eq!(s.octave(), 1);
    s.handle_key(KeyInput::Right, KeyKind::Repeat, false, 0);
    assert_eq!(s.octave(), 2);
    s.handle_key(KeyInput::Right, KeyKind::Release, false, 0);
    assert_eq!(s.octave(), 2);
}

#[test]
fn tab_toggles_c_and_e_layouts() {
    let mut s = AppState::new(false, true);
    press(&mut s, KeyInput::Tab, 0);
    assert_eq!(s.key_shift(), 4);
    assert_eq!(press(&mut s, KeyInput::Char('z'), 0), Action::PlayNote(64));
    press(&mut s, KeyInput::Tab, 0);
    assert_eq!(s.key_shift(), 0);
    assert_eq!(press(&mut s, KeyInput::Char('z'), 0), Action::PlayNote(60));
}

#[test]
fn quit_keys() {
    let mut s = AppState::new(true, true);
    assert_eq!(press(&mut s, KeyInput::Esc, 0), Action::Quit);
    assert_eq!(s.handle_key(KeyInput::Esc, KeyKind::Release, false, 0), Action::Nothing);
    assert_eq!(s.handle_key(KeyInput::Char('c'), KeyKind::Press, true, 0), Action::Quit);
    assert_eq!(s.handle_key(KeyInput::Other, KeyKind::Press, false, 0), Action::Nothing);
}

#[test]
fn fallback_terminal_plays_fixed_notes() {
    let mut s = AppState::new(false, true);
    assert_eq!(press(&mut s, KeyInput::Char('z'), 5), Action::PlayNote(60));
    assert!(s.is_pressed('z'));
    assert_eq!(s.last_note(), Some(60));
    assert_eq!(press(&mut s, KeyInput::Char('Q'), 6), Action::PlayNote(72));
    assert!(s.is_pressed('q'));
    assert_eq!(press(&mut s, KeyInput::Char('a'), 7), Action::Nothing);
    assert_eq!(s.last_note(), Some(72));
    assert!(!s.is_held('z'));
    // Without release events a Ctrl+C that is not a press plays the 'c' key.
    assert_eq!(s.handle_key(KeyInput::Char('c'), KeyKind::Release, true, 8), Action::PlayNote(64));
}

#[test]
fn enhanced_terminal_holds_until_release() {
    let mut s = AppState::new(true, true);
    assert_eq!(press(&mut s, KeyInput::Char('z'), 1), Action::HoldNote('z', 60));
    assert!(s.is_held('z') && s.is_pressed('z'));
    assert_eq!(press(&mut s, KeyInput::Char('z'), 2), Action::Nothing);
    assert_eq!(s.handle_key(KeyInput::Char('z'), KeyKind::Repeat, false, 3), Action::Nothing);
    assert_eq!(s.handle_key(KeyInput::Char('Z'), KeyKind::Release, false, 4), Action::ReleaseHold('z'));
    assert!(!s.is_held('z') && !s.is_pressed('z'));
    assert_eq!(s.handle_key(KeyInput::Char('z'), KeyKind::Release, false, 5), Action::Nothing);
}

#[test]
fn silent_mode_still_shows_keys() {
    let mut s = AppState::new(true, false);
    assert_eq!(press(&mut s, KeyInput::Char('x'), 1), Action::Nothing);
    assert!(s.is_pressed('x'));
    assert!(!s.is_held('x'));
    assert_eq!(s.last_note(), Some(62));
    let mut f = AppState::new(false, false);
    assert_eq!(press(&mut f, KeyInput::Char('x'), 1), Action::Nothing);
    assert!(f.is_pressed('x'));
}

#[test]
fn highlights_flash_on_fallback_terminals() {
    let mut s = AppState::new(false, true);
    press(&mut s, KeyInput::Char('z'), 1_000);
    assert_eq!(s.tick(1_000 + FLASH_NANOS - 1), Vec::<char>::new());
    assert!(s.is_pressed('z'));
    assert_eq!(s.tick(1_000 + FLASH_NANOS), Vec::<char>::new());
    assert!(!s.is_pressed('z'));
}

#[test]
fn stuck_held_keys_are_let_go_after_a_minute() {
    let mut s = AppState::new(true, true);
    press(&mut s, KeyInput::Char('z'), 0);
    press(&mut s, KeyInput::Char('x'), 10);
    assert_eq!(s.tick(STUCK_NANOS), Vec::<char>::new());
    assert!(s.is_held('z'));
    assert_eq!(s.tick(STUCK_NANOS + 1), vec!['z']);
    assert!(!s.is_held('z') && !s.is_pressed('z'));
    assert!(s.is_held('x') && s.is_pressed('x'));
    assert_eq!(s.tick(STUCK_NANOS + 11), vec!['x']);
    assert!(!s.is_pressed('x'));
}

#[test]
fn ascii_lower_only_touches_ascii_capitals() {
    assert_eq!(ascii_lower('A'), 'a');
    assert_eq!(ascii_lower('Z'), 'z');
    assert_eq!(ascii_lower('a'), 'a');
    assert_eq!(ascii_lower(','), ',');
    assert_eq!(ascii_lower('É'), 'É');
    for c in ['@', '[', '`', '{'] {
        assert_eq!(ascii_lower(c), c.to_ascii_lowercase());
    }
}
