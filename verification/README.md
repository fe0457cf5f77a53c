# tui_piano

A virtual piano for the terminal, with a QWERTY layout over two octaves.

`src/` is a library verified with Verus:

- `keymap` — the key layout tables and `midi_for_key`, with laws about the
  layout (two-octave range, uniform transposition, major-scale white keys,
  black keys a semitone above their left neighbour).
- `note` — `note_name`, the scientific name of a MIDI note.
- `voice` — `SustainSource`, the envelope stage of a held note: full level
  while held, a linear fade of `RELEASE_FADE_SAMPLES` samples once released.
- `keys` — small verified collections of pressed keys and held keys.
- `state` — `AppState`, the piano's state machine: key events and the
  periodic housekeeping, each returning what the caller must do.
- `layout` — the character grid of each keyboard section and its runs of
  equal style.

`app/` is the program around it: terminal setup and the event loop
(crossterm, ratatui), sound synthesis and output (rodio), which are floating
point or I/O.
