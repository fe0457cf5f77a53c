use vstd::prelude::*;

use crate::keymap::{spec_midi_for_key, midi_for_key, law_key_offset_in_two_octaves};
use crate::keys::{KeyTimes, KeySet, elapsed, younger_than};

verus! {

/// Lowest base octave the arrow keys reach.
pub const MIN_OCTAVE: i32 = 1;

/// Highest base octave the arrow keys reach.
pub const MAX_OCTAVE: i32 = 6;

/// Base octave at start.
pub const START_OCTAVE: i32 = 4;

/// Shift of the E-anchored layout: four semitones above the C layout.
pub const E_SHIFT: i32 = 4;

/// How long a pressed key stays highlighted on a terminal that reports no
/// key releases, in nanoseconds (150 ms).
pub const FLASH_NANOS: u64 = 150_000_000;

/// After this long a key still shown as pressed is taken to have lost its
/// release event and is let go, in nanoseconds (60 s).
pub const STUCK_NANOS: u64 = 60_000_000_000;

/// Lowest note any key can play: the bottom C of octave 1 with no shift.
pub const LOWEST_NOTE: u8 = 24;

/// Highest note any key can play: two octaves and a semitone above the
/// bottom E of octave 6.
pub const HIGHEST_NOTE: u8 = 113;

/// A key, as far as the piano cares.
#[derive(Clone, Copy, PartialEq, Eq, Structural, Debug)]
pub enum KeyInput {
    Esc,
    Left,
    Right,
    Tab,
    Char(char),
    Other,
}

/// What happened to the key.
#[derive(Clone, Copy, PartialEq, Eq, Structural, Debug)]
pub enum KeyKind {
    Press,
    Repeat,
    Release,
}

/// What the caller must do after an event.
#[derive(Clone, Copy, PartialEq, Eq, Structural, Debug)]
pub enum Action {
    /// Nothing to do.
    Nothing,
    /// Leave the program.
    Quit,
    /// Play the note as a fixed-length sound.
    PlayNote(u8),
    /// Start a note that sounds until the key is released.
    HoldNote(char, u8),
    /// Let the note held by this key fade out.
    ReleaseHold(char),
}

/// The abstract state of the piano.
pub struct AppModel {
    pub octave: int,
    pub key_shift: int,
    pub enhanced: bool,
    pub audio: bool,
    pub last_note: Option<u8>,
    /// Keys shown as pressed, with the time each was pressed.
    pub pressed: Map<char, u64>,
    /// Keys whose note is sounding until they are released.
    pub held: Set<char>,
}

/// `c` with ASCII upper-case letters turned to lower case.
pub open spec fn spec_ascii_lower(c: char) -> char {
    if 'A' <= c && c <= 'Z' {
        (((c as u8) + 32) as u8) as char
    } else {
        c
    }
}

/// Lower-cases ASCII letters and leaves every other character alone.
pub fn ascii_lower(c: char) -> (r: char)
    ensures
        r == spec_ascii_lower(c),
{
    if 'A' <= c && c <= 'Z' {
        ((c as u8) + 32) as char
    } else {
        c
    }
}

/// The state invariant: the octave stays in range, the layout is C- or
/// E-anchored, the last note is a playable note, every held key is shown as
/// pressed, and notes are held only with sound and release events.
pub open spec fn model_inv(m: AppModel) -> bool {
    &&& MIN_OCTAVE <= m.octave <= MAX_OCTAVE
    &&& m.key_shift == 0 || m.key_shift == E_SHIFT
    &&& m.last_note matches Some(n) ==> LOWEST_NOTE <= n <= HIGHEST_NOTE
    &&& forall|c: char| #[trigger] m.held.contains(c) ==> m.pressed.dom().contains(c)
    &&& (!m.audio || !m.enhanced) ==> m.held == Set::<char>::empty()
}

/// A playing-key event `c` (already lower-cased).
pub open spec fn press_model(m: AppModel, c: char, kind: KeyKind, now: u64) -> (AppModel, Action) {
    if m.enhanced && kind == KeyKind::Release {
        (
            AppModel { held: m.held.remove(c), pressed: m.pressed.remove(c), ..m },
            if m.held.contains(c) {
                Action::ReleaseHold(c)
            } else {
                Action::Nothing
            },
        )
    } else if m.enhanced && kind == KeyKind::Repeat {
        (m, Action::Nothing)
    } else {
        let enhanced_press = m.enhanced && kind == KeyKind::Press;
        if enhanced_press && m.held.contains(c) {
            (m, Action::Nothing)
        } else {
            match spec_midi_for_key(c, m.octave, m.key_shift) {
                None => (m, Action::Nothing),
                Some(midi) => {
                    let note = midi as u8;
                    let starts_hold = m.audio && enhanced_press;
                    (
                        AppModel {
                            pressed: m.pressed.insert(c, now),
                            last_note: Some(note),
                            held: if starts_hold {
                                m.held.insert(c)
                            } else {
                                m.held
                            },
                            ..m
                        },
                        if starts_hold {
                            Action::HoldNote(c, note)
                        } else if m.audio && !m.enhanced {
                            Action::PlayNote(note)
                        } else {
                            Action::Nothing
                        },
                    )
                },
            }
        }
    }
}

/// One key event at time `now`: the next state and what the caller must do.
pub open spec fn key_model(m: AppModel, key: KeyInput, kind: KeyKind, ctrl: bool, now: u64) -> (AppModel, Action) {
    match key {
        KeyInput::Esc => if kind == KeyKind::Press {
            (m, Action::Quit)
        } else {
            (m, Action::Nothing)
        },
        KeyInput::Right => if kind != KeyKind::Release {
            (AppModel { octave: if m.octave < MAX_OCTAVE { m.octave + 1 } else { m.octave }, ..m }, Action::Nothing)
        } else {
            (m, Action::Nothing)
        },
        KeyInput::Left => if kind != KeyKind::Release {
            (AppModel { octave: if m.octave > MIN_OCTAVE { m.octave - 1 } else { m.octave }, ..m }, Action::Nothing)
        } else {
            (m, Action::Nothing)
        },
        KeyInput::Tab => if kind == KeyKind::Press {
            (AppModel { key_shift: E_SHIFT - m.key_shift, ..m }, Action::Nothing)
        } else {
            (m, Action::Nothing)
        },
        KeyInput::Char(c) => if c == 'c' && ctrl && kind == KeyKind::Press {
            (m, Action::Quit)
        } else {
            press_model(m, spec_ascii_lower(c), kind, now)
        },
        KeyInput::Other => (m, Action::Nothing),
    }
}

/// The pressed keys that survive the highlight timeout at `now`.
pub open spec fn flash_kept(m: AppModel, now: u64) -> Map<char, u64> {
    if m.enhanced {
        m.pressed
    } else {
        younger_than(m.pressed, now, FLASH_NANOS)
    }
}

/// Keys still shown as pressed at `now` that have been down for longer than
/// `STUCK_NANOS`.
pub open spec fn stuck_keys(m: AppModel, now: u64) -> Set<char> {
    Set::new(|c: char| flash_kept(m, now).dom().contains(c) && elapsed(now, flash_kept(m, now)[c]) > STUCK_NANOS)
}

/// The state after the housekeeping done before each event poll at `now`.
pub open spec fn tick_model(m: AppModel, now: u64) -> AppModel {
    AppModel {
        pressed: flash_kept(m, now).remove_keys(stuck_keys(m, now)),
        held: m.held.difference(stuck_keys(m, now)),
        ..m
    }
}

/// The held keys whose notes the housekeeping at `now` lets go.
pub open spec fn released_by_tick(m: AppModel, now: u64) -> Set<char> {
    m.held.intersect(stuck_keys(m, now))
}

/// The piano's state: base octave, layout shift, pressed and held keys,
/// the last note played, and whether sound and key-release events exist.
pub struct AppState {
    octave: i32,
    key_shift: i32,
    enhanced: bool,
    audio: bool,
    last_note: Option<u8>,
    pressed: KeyTimes,
    held: KeySet,
}

impl AppState {
    /// The state, abstractly.
    pub closed spec fn model(&self) -> AppModel {
        AppModel {
            octave: self.octave as int,
            key_shift: self.key_shift as int,
            enhanced: self.enhanced,
            audio: self.audio,
            last_note: self.last_note,
            pressed: self.pressed.view(),
            held: self.held.view(),
        }
    }

    /// Well-formedness: the key collections are well-formed and the model
    /// invariant holds.
    pub closed spec fn wf(&self) -> bool {
        &&& self.pressed.wf()
        &&& self.held.wf()
        &&& model_inv(self.model())
    }

    /// A well-formed state satisfies the model invariant: octave in 1..=6,
    /// C or E layout, last note playable, held keys shown pressed, and notes
    /// held only with sound and release events.
    pub proof fn lemma_wf_gives_invariant(&self)
        requires
            self.wf(),
        ensures
            model_inv(self.model()),
    {
    }

    /// The start state: octave 4, C layout, nothing pressed, no note yet.
    /// `enhanced` tells whether the terminal reports key releases and repeats,
    /// `audio` whether an output device is open.
    pub fn new(enhanced: bool, audio: bool) -> (s: Self)
        ensures
            s.wf(),
            s.model() == (AppModel {
                octave: START_OCTAVE as int,
                key_shift: 0,
                enhanced,
                audio,
                last_note: None,
                pressed: Map::empty(),
                held: Set::empty(),
            }),
    {
        AppState {
            octave: START_OCTAVE,
            key_shift: 0,
            enhanced,
            audio,
            last_note: None,
            pressed: KeyTimes::new(),
            held: KeySet::new(),
        }
    }

    /// The base octave.
    pub fn octave(&self) -> (r: i32)
        ensures
            r == self.model().octave,
    {
        self.octave
    }

    /// The layout shift in semitones (0 for C, 4 for E).
    pub fn key_shift(&self) -> (r: i32)
        ensures
            r == self.model().key_shift,
    {
        self.key_shift
    }

    /// The last note played, if any.
    pub fn last_note(&self) -> (r: Option<u8>)
        ensures
            r == self.model().last_note,
    {
        self.last_note
    }

    /// Whether sound output is available.
    pub fn has_audio(&self) -> (r: bool)
        ensures
            r == self.model().audio,
    {
        self.audio
    }

    /// Whether the terminal reports key releases and repeats.
    pub fn is_enhanced(&self) -> (r: bool)
        ensures
            r == self.model().enhanced,
    {
        self.enhanced
    }

    /// Whether `key` is shown as pressed.
    pub fn is_pressed(&self, key: char) -> (r: bool)
        requires
            self.wf(),
        ensures
            r == self.model().pressed.dom().contains(key),
    {
        self.pressed.contains(key)
    }

    /// Whether `key` holds a sounding note.
    pub fn is_held(&self, key: char) -> (r: bool)
        requires
            self.wf(),
        ensures
            r == self.model().held.contains(key),
    {
        self.held.contains(key)
    }

    fn press_char(&mut self, c: char, kind: KeyKind, now: u64) -> (action: Action)
        requires
            old(self).wf(),
        ensures
            final(self).wf(),
            (final(self).model(), action) == press_model(old(self).model(), c, kind, now),
    {
        if self.enhanced && kind == KeyKind::Release {
            let was_held = self.held.remove(c);
            self.pressed.remove(c);
            assert(Set::<char>::empty().remove(c) =~= Set::<char>::empty());
            if was_held {
                Action::ReleaseHold(c)
            } else {
                Action::Nothing
            }
        } else if self.enhanced && kind == KeyKind::Repeat {
            Action::Nothing
        } else {
            let enhanced_press = self.enhanced && kind == KeyKind::Press;
            if enhanced_press && self.held.contains(c) {
                return Action::Nothing;
            }
            proof {
                law_key_offset_in_two_octaves(c);
            }
            match midi_for_key(c, self.octave, self.key_shift) {
                None => Action::Nothing,
                Some(midi) => {
                    let note = midi as u8;
                    let mut action = Action::Nothing;
                    if self.audio {
                        if enhanced_press {
                            self.held.insert(c);
                            action = Action::HoldNote(c, note);
                        } else if !self.enhanced {
                            action = Action::PlayNote(note);
                        }
                    }
                    self.pressed.insert(c, now);
                    self.last_note = Some(note);
                    assert(LOWEST_NOTE <= note <= HIGHEST_NOTE);
                    action
                },
            }
        }
    }

    /// Handles one key event at time `now` (nanoseconds on a monotonic clock)
    /// and tells the caller what to do.
    pub fn handle_key(&mut self, key: KeyInput, kind: KeyKind, ctrl: bool, now: u64) -> (action: Action)
        requires
            old(self).wf(),
        ensures
            final(self).wf(),
            (final(self).model(), action) == key_model(old(self).model(), key, kind, ctrl, now),
    {
        match key {
            KeyInput::Esc => if kind == KeyKind::Press {
                Action::Quit
            } else {
                Action::Nothing
            },
            KeyInput::Right => {
                if kind != KeyKind::Release && self.octave < MAX_OCTAVE {
                    self.octave = self.octave + 1;
                }
                Action::Nothing
            },
            KeyInput::Left => {
                if kind != KeyKind::Release && self.octave > MIN_OCTAVE {
                    self.octave = self.octave - 1;
                }
                Action::Nothing
            },
            KeyInput::Tab => {
                if kind == KeyKind::Press {
                    self.key_shift = E_SHIFT - self.key_shift;
                }
                Action::Nothing
            },
            KeyInput::Char(c) => if c == 'c' && ctrl && kind == KeyKind::Press {
                Action::Quit
            } else {
                self.press_char(ascii_lower(c), kind, now)
            },
            KeyInput::Other => Action::Nothing,
        }
    }

    /// The housekeeping done before each event poll at time `now`: on a
    /// terminal without release events, highlights older than `FLASH_NANOS`
    /// are cleared; then every key shown as pressed for longer than
    /// `STUCK_NANOS` is let go. Returns the held keys whose notes must be
    /// released, each once.
    pub fn tick(&mut self, now: u64) -> (released: Vec<char>)
        requires
            old(self).wf(),
        ensures
            final(self).wf(),
            final(self).model() == tick_model(old(self).model(), now),
            released@.no_duplicates(),
            forall|c: char| #[trigger] released@.contains(c) <==> released_by_tick(old(self).model(), now).contains(c),
    {
        let ghost m0 = self.model();
        if !self.enhanced {
            self.pressed.retain_younger_than(now, FLASH_NANOS);
        }
        let ghost p1 = self.pressed.view();
        assert(p1 == flash_kept(m0, now));
        let stuck = self.pressed.keys_older_than(now, STUCK_NANOS);
        assert(stuck@.to_set() =~= stuck_keys(m0, now));
        let mut released: Vec<char> = Vec::new();
        let mut i: usize = 0;
        while i < stuck.len()
            invariant
                i <= stuck@.len(),
                stuck@.no_duplicates(),
                stuck@.to_set() == stuck_keys(m0, now),
                self.pressed.wf(),
                self.held.wf(),
                self.pressed.view() == p1.remove_keys(stuck@.take(i as int).to_set()),
                self.held.view() == m0.held.difference(stuck@.take(i as int).to_set()),
                released@.no_duplicates(),
                forall|c: char| #[trigger] released@.contains(c) <==> (m0.held.contains(c) && stuck@.take(i as int).contains(c)),
                self.octave == m0.octave,
                self.key_shift == m0.key_shift,
                self.enhanced == m0.enhanced,
                self.audio == m0.audio,
                self.last_note == m0.last_note,
            decreases stuck@.len() - i,
        {
            let c = stuck[i];
            let ghost t0 = stuck@.take(i as int);
            let ghost r0 = released@;
            assert(stuck@.take(i + 1) =~= t0.push(c));
            assert(!t0.contains(c)) by {
                if t0.contains(c) {
                    let j = choose|j: int| 0 <= j < t0.len() && t0[j] == c;
                    assert(stuck@[j] == stuck@[i as int]);
                }
            }
            proof {
                t0.lemma_push_to_set_commute(c);
                vstd::seq_lib::lemma_seq_contains_after_push(t0, c, c);
            }
            let ghost h0 = self.held.view();
            if self.held.remove(c) {
                released.push(c);
                assert(released@ == r0.push(c));
                assert(released@.no_duplicates()) by {
                    assert(!r0.contains(c));
                    assert forall|a: int, b: int| 0 <= a < released@.len() && 0 <= b < released@.len() && a != b implies released@[a] != released@[b] by {
                        if a == r0.len() {
                            assert(released@[b] == r0[b]);
                        } else if b == r0.len() {
                            assert(released@[a] == r0[a]);
                        } else {
                            assert(released@[a] == r0[a] && released@[b] == r0[b]);
                        }
                    }
                }
                assert forall|k: char| #[trigger] released@.contains(k) <==> (m0.held.contains(k) && stuck@.take(i + 1).contains(k)) by {
                    vstd::seq_lib::lemma_seq_contains_after_push(t0, c, k);
                    vstd::seq_lib::lemma_seq_contains_after_push(r0, c, k);
                    if k == c {
                        assert(h0.contains(c));
                    }
                }
            } else {
                assert forall|k: char| #[trigger] released@.contains(k) <==> (m0.held.contains(k) && stuck@.take(i + 1).contains(k)) by {
                    vstd::seq_lib::lemma_seq_contains_after_push(t0, c, k);
                }
            }
            self.pressed.remove(c);
            assert(self.pressed.view() =~= p1.remove_keys(stuck@.take(i + 1).to_set()));
            assert(self.held.view() =~= m0.held.difference(stuck@.take(i + 1).to_set()));
            i = i + 1;
        }
        assert(stuck@.take(stuck@.len() as int) =~= stuck@);
        assert(self.model().pressed =~= tick_model(m0, now).pressed);
        assert(self.model().held =~= tick_model(m0, now).held);
        assert(self.model() == tick_model(m0, now));
        assert forall|c: char| #[trigger] released@.contains(c) <==> released_by_tick(m0, now).contains(c) by {
            assert(stuck@.contains(c) == stuck@.to_set().contains(c));
        }
        assert(model_inv(self.model())) by {
            if !m0.audio || !m0.enhanced {
                assert(self.model().held =~= Set::<char>::empty());
            }
            assert forall|c: char| #[trigger] self.model().held.contains(c) implies self.model().pressed.dom().contains(c) by {
                assert(m0.pressed.dom().contains(c));
            }
        }
        released
    }
}

/// A playing key sounds a note between `LOWEST_NOTE` and `HIGHEST_NOTE`
/// whenever the octave and layout satisfy the invariant.
proof fn lemma_note_in_range(m: AppModel, c: char)
    requires
        model_inv(m),
    ensures
        spec_midi_for_key(c, m.octave, m.key_shift) matches Some(n) ==> LOWEST_NOTE <= n <= HIGHEST_NOTE,
{
    law_key_offset_in_two_octaves(c);
}

/// Every key event keeps the state invariant.
pub proof fn law_key_event_keeps_invariant(m: AppModel, key: KeyInput, kind: KeyKind, ctrl: bool, now: u64)
    requires
        model_inv(m),
    ensures
        model_inv(key_model(m, key, kind, ctrl, now).0),
{
    if let KeyInput::Char(c) = key {
        lemma_note_in_range(m, spec_ascii_lower(c));
        assert(Set::<char>::empty().remove(spec_ascii_lower(c)) =~= Set::<char>::empty());
    }
}

/// The housekeeping keeps the state invariant.
pub proof fn law_tick_keeps_invariant(m: AppModel, now: u64)
    requires
        model_inv(m),
    ensures
        model_inv(tick_model(m, now)),
{
    if !m.audio || !m.enhanced {
        assert(tick_model(m, now).held =~= Set::<char>::empty());
    }
}

/// Pressing Tab twice brings back the layout it started from.
pub proof fn law_tab_twice_restores_layout(m: AppModel, ctrl: bool, now: u64)
    ensures
        key_model(key_model(m, KeyInput::Tab, KeyKind::Press, ctrl, now).0, KeyInput::Tab, KeyKind::Press, ctrl, now).0 == m,
{
}

/// Tab toggles between the C layout and the E layout, four semitones up.
pub proof fn law_tab_toggles_c_and_e(m: AppModel, ctrl: bool, now: u64)
    requires
        model_inv(m),
    ensures
        m.key_shift == 0 ==> key_model(m, KeyInput::Tab, KeyKind::Press, ctrl, now).0.key_shift == E_SHIFT,
        m.key_shift == E_SHIFT ==> key_model(m, KeyInput::Tab, KeyKind::Press, ctrl, now).0.key_shift == 0,
{
}

/// Below the top octave, one octave up followed by one octave down changes nothing.
pub proof fn law_octave_up_then_down(m: AppModel, ctrl: bool, now: u64)
    requires
        MIN_OCTAVE <= m.octave < MAX_OCTAVE,
    ensures
        key_model(key_model(m, KeyInput::Right, KeyKind::Press, ctrl, now).0, KeyInput::Left, KeyKind::Press, ctrl, now).0 == m,
{
}

/// The octave arrows stop at octaves 1 and 6.
pub proof fn law_octave_clamped(m: AppModel, kind: KeyKind, ctrl: bool, now: u64)
    requires
        model_inv(m),
    ensures
        m.octave == MAX_OCTAVE ==> key_model(m, KeyInput::Right, kind, ctrl, now).0 == m,
        m.octave == MIN_OCTAVE ==> key_model(m, KeyInput::Left, kind, ctrl, now).0 == m,
{
}

/// A note that is played or held is the note its key sounds at the current
/// octave and layout, lies between `LOWEST_NOTE` and `HIGHEST_NOTE`, and is
/// remembered as the last note.
pub proof fn law_played_note_is_the_keys_note(m: AppModel, c: char, kind: KeyKind, ctrl: bool, now: u64)
    requires
        model_inv(m),
    ensures
        ({
            let (m2, a) = key_model(m, KeyInput::Char(c), kind, ctrl, now);
            (a matches Action::PlayNote(n) ==> spec_midi_for_key(spec_ascii_lower(c), m.octave, m.key_shift)
                == Some(n as int) && LOWEST_NOTE <= n <= HIGHEST_NOTE && m2.last_note == Some(n))
            && (a matches Action::HoldNote(k, n) ==> k == spec_ascii_lower(c) && spec_midi_for_key(k, m.octave, m.key_shift)
                == Some(n as int) && LOWEST_NOTE <= n <= HIGHEST_NOTE && m2.last_note == Some(n))
        }),
{
    lemma_note_in_range(m, spec_ascii_lower(c));
}

/// Without sound the keyboard still works: a playing key is shown as pressed
/// and named as the last note, but nothing is asked to sound.
pub proof fn law_silent_mode_still_shows_keys(m: AppModel, c: char, now: u64)
    requires
        model_inv(m),
        !m.audio,
        spec_midi_for_key(spec_ascii_lower(c), m.octave, m.key_shift) is Some,
    ensures
        ({
            let (m2, a) = key_model(m, KeyInput::Char(c), KeyKind::Press, false, now);
            &&& a == Action::Nothing
            &&& m2.pressed.dom().contains(spec_ascii_lower(c))
            &&& m2.pressed[spec_ascii_lower(c)] == now
            &&& m2.last_note is Some
        }),
{
}

/// On a terminal that reports releases, key repeats change nothing.
pub proof fn law_repeats_ignored_when_enhanced(m: AppModel, c: char, ctrl: bool, now: u64)
    requires
        m.enhanced,
    ensures
        key_model(m, KeyInput::Char(c), KeyKind::Repeat, ctrl, now) == (m, Action::Nothing),
{
}

/// Releasing a key lets go of its note (reported exactly when it was held)
/// and clears its highlight.
pub proof fn law_release_ends_note(m: AppModel, c: char, ctrl: bool, now: u64)
    requires
        m.enhanced,
    ensures
        ({
            let k = spec_ascii_lower(c);
            let (m2, a) = key_model(m, KeyInput::Char(c), KeyKind::Release, ctrl, now);
            &&& !m2.held.contains(k)
            &&& !m2.pressed.dom().contains(k)
            &&& a == (if m.held.contains(k) { Action::ReleaseHold(k) } else { Action::Nothing })
        }),
{
}

/// Letter keys are case-insensitive.
pub proof fn law_letters_case_insensitive(m: AppModel, c: char, kind: KeyKind, now: u64)
    requires
        'A' <= c <= 'Z',
    ensures
        key_model(m, KeyInput::Char(c), kind, false, now) == key_model(m, KeyInput::Char(spec_ascii_lower(c)), kind, false, now),
{
    assert('a' <= spec_ascii_lower(c) <= 'z');
}

/// After the housekeeping on a terminal without release events, no key has
/// been highlighted for `FLASH_NANOS` or longer.
pub proof fn law_tick_clears_old_highlights(m: AppModel, now: u64, c: char)
    requires
        !m.enhanced,
        tick_model(m, now).pressed.dom().contains(c),
    ensures
        elapsed(now, tick_model(m, now).pressed[c]) < FLASH_NANOS,
{
}

/// After the housekeeping no key has been shown as pressed for longer than
/// `STUCK_NANOS`, and no key is left holding a note that was let go.
pub proof fn law_tick_lets_go_of_stuck_keys(m: AppModel, now: u64, c: char)
    ensures
        tick_model(m, now).pressed.dom().contains(c) ==> elapsed(now, tick_model(m, now).pressed[c]) <= STUCK_NANOS,
        released_by_tick(m, now).contains(c) ==> !tick_model(m, now).held.contains(c) && m.held.contains(c),
{
}

/// Pressing a playing key with sound available sounds its note: held until
/// release on a terminal that reports releases (unless already held), a
/// fixed-length note otherwise.
pub proof fn law_press_sounds_note(m: AppModel, c: char, now: u64)
    requires
        model_inv(m),
        m.audio,
        spec_midi_for_key(spec_ascii_lower(c), m.octave, m.key_shift) is Some,
    ensures
        ({
            let k = spec_ascii_lower(c);
            let n = spec_midi_for_key(k, m.octave, m.key_shift).unwrap() as u8;
            let (m2, a) = key_model(m, KeyInput::Char(c), KeyKind::Press, false, now);
            &&& !m.enhanced ==> a == Action::PlayNote(n) && m2.held == m.held
            &&& m.enhanced && !m.held.contains(k) ==> a == Action::HoldNote(k, n) && m2.held.contains(k)
            &&& m.enhanced && m.held.contains(k) ==> (m2, a) == (m, Action::Nothing)
        }),
{
}

/// Esc, and Ctrl+C, quit when pressed, and change nothing.
pub proof fn law_quit_keys(m: AppModel, ctrl: bool, now: u64)
    ensures
        key_model(m, KeyInput::Esc, KeyKind::Press, ctrl, now) == (m, Action::Quit),
        key_model(m, KeyInput::Char('c'), KeyKind::Press, true, now) == (m, Action::Quit),
{
}

/// On a terminal that reports releases, pressing a playing key that is not
/// down and then releasing it starts its note and then lets it go, leaving
/// the pressed and held keys as they were.
pub proof fn law_press_then_release_restores_keys(m: AppModel, c: char, t0: u64, t1: u64)
    requires
        model_inv(m),
        m.enhanced,
        m.audio,
        spec_midi_for_key(spec_ascii_lower(c), m.octave, m.key_shift) is Some,
        !m.pressed.dom().contains(spec_ascii_lower(c)),
    ensures
        ({
            let k = spec_ascii_lower(c);
            let (m1, a1) = key_model(m, KeyInput::Char(c), KeyKind::Press, false, t0);
            let (m2, a2) = key_model(m1, KeyInput::Char(c), KeyKind::Release, false, t1);
            &&& a1 matches Action::HoldNote(k1, _) && k1 == k
            &&& a2 == Action::ReleaseHold(k)
            &&& m2.pressed == m.pressed
            &&& m2.held == m.held
            &&& m2.octave == m.octave && m2.key_shift == m.key_shift
        }),
{
    let k = spec_ascii_lower(c);
    assert(!m.held.contains(k));
    let (m1, a1) = key_model(m, KeyInput::Char(c), KeyKind::Press, false, t0);
    let (m2, a2) = key_model(m1, KeyInput::Char(c), KeyKind::Release, false, t1);
    assert(m2.pressed =~= m.pressed);
    assert(m2.held =~= m.held);
}

/// Releasing an arrow key changes nothing: only presses and repeats move
/// the octave.
pub proof fn law_arrow_release_ignored(m: AppModel, ctrl: bool, now: u64)
    ensures
        key_model(m, KeyInput::Left, KeyKind::Release, ctrl, now) == (m, Action::Nothing),
        key_model(m, KeyInput::Right, KeyKind::Release, ctrl, now) == (m, Action::Nothing),
{
}

/// A press or repeat of an arrow moves the octave by exactly one step toward
/// its end of the range, stopping at 1 and 6, and changes nothing else.
pub proof fn law_arrow_moves_one_octave(m: AppModel, kind: KeyKind, ctrl: bool, now: u64)
    requires
        model_inv(m),
        kind != KeyKind::Release,
    ensures
        ({
            let (up, a) = key_model(m, KeyInput::Right, kind, ctrl, now);
            &&& a == Action::Nothing
            &&& up.octave == (if m.octave == MAX_OCTAVE { m.octave } else { m.octave + 1 })
            &&& up == AppModel { octave: up.octave, ..m }
        }),
        ({
            let (down, a) = key_model(m, KeyInput::Left, kind, ctrl, now);
            &&& a == Action::Nothing
            &&& down.octave == (if m.octave == MIN_OCTAVE { m.octave } else { m.octave - 1 })
            &&& down == AppModel { octave: down.octave, ..m }
        }),
{
}

/// On a terminal that reports releases, the housekeeping keeps every pressed
/// key that has not been down longer than `STUCK_NANOS`, with its press
/// time, and keeps its note held.
pub proof fn law_tick_keeps_recent_keys_when_enhanced(m: AppModel, now: u64, c: char)
    requires
        m.enhanced,
        m.pressed.dom().contains(c),
        elapsed(now, m.pressed[c]) <= STUCK_NANOS,
    ensures
        tick_model(m, now).pressed.dom().contains(c),
        tick_model(m, now).pressed[c] == m.pressed[c],
        tick_model(m, now).held.contains(c) == m.held.contains(c),
        !released_by_tick(m, now).contains(c),
{
}

/// On a terminal without release events, the housekeeping keeps exactly the
/// highlights younger than `FLASH_NANOS`, with their press times, whatever
/// the sound.
pub proof fn law_tick_flash_when_not_enhanced(m: AppModel, now: u64, c: char)
    requires
        !m.enhanced,
    ensures
        tick_model(m, now).pressed.dom().contains(c) <==> (m.pressed.dom().contains(c) && elapsed(now, m.pressed[c])
            < FLASH_NANOS),
        tick_model(m, now).pressed.dom().contains(c) ==> tick_model(m, now).pressed[c] == m.pressed[c],
{
}

/// Tab acts only when pressed: its repeats and releases change nothing.
pub proof fn law_tab_only_on_press(m: AppModel, ctrl: bool, now: u64)
    ensures
        key_model(m, KeyInput::Tab, KeyKind::Repeat, ctrl, now) == (m, Action::Nothing),
        key_model(m, KeyInput::Tab, KeyKind::Release, ctrl, now) == (m, Action::Nothing),
{
}

/// Esc acts only when pressed, and keys the piano does not use do nothing.
pub proof fn law_other_keys_do_nothing(m: AppModel, kind: KeyKind, ctrl: bool, now: u64)
    ensures
        kind != KeyKind::Press ==> key_model(m, KeyInput::Esc, kind, ctrl, now) == (m, Action::Nothing),
        key_model(m, KeyInput::Other, kind, ctrl, now) == (m, Action::Nothing),
{
}

/// Pressing or repeating a key that is not a playing key (and is not the
/// Ctrl+C that quits) changes nothing.
pub proof fn law_non_playing_key_does_nothing(m: AppModel, c: char, kind: KeyKind, ctrl: bool, now: u64)
    requires
        kind != KeyKind::Release,
        !(c == 'c' && ctrl && kind == KeyKind::Press),
        spec_midi_for_key(spec_ascii_lower(c), m.octave, m.key_shift) is None,
    ensures
        key_model(m, KeyInput::Char(c), kind, ctrl, now) == (m, Action::Nothing),
{
}

/// A press of a playing key that is not already held shows the key as
/// pressed at the time of the press and makes its note the last note.
pub proof fn law_press_records_key_and_note(m: AppModel, c: char, now: u64)
    requires
        model_inv(m),
        spec_midi_for_key(spec_ascii_lower(c), m.octave, m.key_shift) is Some,
        !m.held.contains(spec_ascii_lower(c)),
    ensures
        ({
            let k = spec_ascii_lower(c);
            let (m2, _a) = key_model(m, KeyInput::Char(c), KeyKind::Press, false, now);
            &&& m2.pressed == m.pressed.insert(k, now)
            &&& m2.last_note == Some(spec_midi_for_key(k, m.octave, m.key_shift).unwrap() as u8)
            &&& m2.octave == m.octave && m2.key_shift == m.key_shift
            &&& forall|x: char| x != k ==> (#[trigger] m2.held.contains(x) == m.held.contains(x))
        }),
{
}

/// On a terminal that reports releases, every held key that has been down
/// longer than `STUCK_NANOS` has its note let go by the housekeeping.
pub proof fn law_tick_releases_every_stuck_held_key(m: AppModel, now: u64, c: char)
    requires
        m.enhanced,
        m.held.contains(c),
        m.pressed.dom().contains(c),
        elapsed(now, m.pressed[c]) > STUCK_NANOS,
    ensures
        released_by_tick(m, now).contains(c),
        !tick_model(m, now).held.contains(c),
        !tick_model(m, now).pressed.dom().contains(c),
{
}

/// Lower-casing turns exactly the ASCII capitals into the small letters 32
/// code points above them and leaves every other character as it is.
pub proof fn law_ascii_lower(c: char)
    ensures
        ('A' <= c && c <= 'Z') ==> ('a' <= spec_ascii_lower(c) && spec_ascii_lower(c) <= 'z'
            && (spec_ascii_lower(c) as u32) == (c as u32) + 32),
        !('A' <= c && c <= 'Z') ==> spec_ascii_lower(c) == c,
{
}

} // verus!
