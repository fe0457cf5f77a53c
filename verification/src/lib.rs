//! A two-octave QWERTY piano for the terminal: the key layout, note naming,
//! the envelope of held notes, the application state machine and the
//! geometry of the keyboard drawing.
pub mod keymap;
pub mod note;
pub mod voice;
pub mod keys;
pub mod state;
pub mod layout;

pub use keymap::{KEYMAP, UPPER_WHITE, UPPER_BLACK, LOWER_WHITE, LOWER_BLACK, midi_for_key};
pub use note::{note_name, note_name_chars};
pub use voice::{SustainSource, VoiceFrame, SAMPLE_RATE, RELEASE_FADE_SAMPLES};
pub use state::{AppState, Action, KeyInput, KeyKind, ascii_lower};
pub use layout::{KeyRow, Paint, CellStyle, ThemeColor, paint_style, key_section, paint_runs, section_args_ok, cell_width, section_height};
