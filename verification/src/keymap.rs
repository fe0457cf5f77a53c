use vstd::prelude::*;

verus! {

/// Semitone offset of each playing key from the C at the bottom of the layout
/// (MIDI `12 * (octave + 1)`).
///
/// ',' and 'q' both sound offset 12 on purpose: the lower row wraps into the
/// upper one, as on a desktop piano program.
pub const KEYMAP: [(char, i32); 28] = [
    ('z', 0), ('s', 1), ('x', 2), ('d', 3), ('c', 4),
    ('v', 5), ('g', 6), ('b', 7), ('h', 8), ('n', 9), ('j', 10),
    ('m', 11), ('l', 13), (',', 12),
    ('q', 12), ('2', 13), ('w', 14), ('3', 15), ('e', 16),
    ('r', 17), ('5', 18), ('t', 19), ('6', 20), ('y', 21), ('7', 22),
    ('u', 23), ('i', 24), ('9', 25),
];

/// White keys of the upper row: (key, semitone offset).
pub const UPPER_WHITE: [(char, i32); 8] = [
    ('q', 12), ('w', 14), ('e', 16), ('r', 17), ('t', 19), ('y', 21), ('u', 23), ('i', 24),
];

/// Black keys of the upper row: (key, index of the white key on its left).
/// Their pitch is looked up in `KEYMAP`.
pub const UPPER_BLACK: [(char, u8); 6] = [
    ('2', 0), ('3', 1), ('5', 3), ('6', 4), ('7', 5), ('9', 7),
];

/// White keys of the lower row: (key, semitone offset).
pub const LOWER_WHITE: [(char, i32); 8] = [
    ('z', 0), ('x', 2), ('c', 4), ('v', 5), ('b', 7), ('n', 9), ('m', 11), (',', 12),
];

/// Black keys of the lower row: (key, index of the white key on its left).
pub const LOWER_BLACK: [(char, u8); 6] = [
    ('s', 0), ('d', 1), ('g', 3), ('h', 4), ('j', 5), ('l', 7),
];

/// The offset paired with the first entry of `table` whose key is `key`.
pub open spec fn find_offset(table: Seq<(char, i32)>, key: char) -> Option<int>
    decreases table.len(),
{
    if table.len() == 0 {
        None
    } else if table[0].0 == key {
        Some(table[0].1 as int)
    } else {
        find_offset(table.drop_first(), key)
    }
}

/// The semitone offset of `key` in the layout, if it is a playing key.
pub open spec fn key_offset(key: char) -> Option<int> {
    find_offset(KEYMAP@, key)
}

/// The MIDI number of the layout's bottom C at `octave`, moved by `shift` semitones.
pub open spec fn base_note(octave: int, shift: int) -> int {
    12 * (octave + 1) + shift
}

/// The note that `key` sounds at `octave` and `shift`, if it is a playing key.
pub open spec fn spec_midi_for_key(key: char, octave: int, shift: int) -> Option<int> {
    match key_offset(key) {
        Some(off) => Some(base_note(octave, shift) + off),
        None => None,
    }
}

/// Every step of `12 * (octave + 1) + shift + offset` fits in an `i32`.
pub open spec fn note_arith_fits(octave: int, shift: int, offset: int) -> bool {
    &&& octave + 1 <= i32::MAX
    &&& i32::MIN <= 12 * (octave + 1) <= i32::MAX
    &&& i32::MIN <= 12 * (octave + 1) + shift <= i32::MAX
    &&& i32::MIN <= 12 * (octave + 1) + shift + offset <= i32::MAX
}

/// The offset of `key` in `KEYMAP`, by a front-to-back scan.
fn lookup_offset(key: char) -> (res: Option<i32>)
    ensures
        match res {
            Some(o) => key_offset(key) == Some(o as int),
            None => key_offset(key) is None,
        },
{
    let mut i: usize = 0;
    assert(KEYMAP@.skip(0) =~= KEYMAP@);
    while i < 28
        invariant
            i <= 28,
            key_offset(key) == find_offset(KEYMAP@.skip(i as int), key),
        decreases 28 - i,
    {
        let entry = KEYMAP[i];
        assert(KEYMAP@.skip(i as int)[0] == entry);
        assert(KEYMAP@.skip(i as int).drop_first() =~= KEYMAP@.skip(i + 1));
        if entry.0 == key {
            return Some(entry.1);
        }
        i = i + 1;
    }
    assert(KEYMAP@.skip(28).len() == 0);
    None
}

/// The MIDI note number that `key` plays at base octave `octave` with the
/// layout moved `shift` semitones; `None` when `key` is not a playing key.
pub fn midi_for_key(key: char, octave: i32, shift: i32) -> (res: Option<i32>)
    requires
        key_offset(key) matches Some(off) ==> note_arith_fits(octave as int, shift as int, off),
    ensures
        match res {
            Some(m) => spec_midi_for_key(key, octave as int, shift as int) == Some(m as int),
            None => spec_midi_for_key(key, octave as int, shift as int) is None,
        },
{
    match lookup_offset(key) {
        Some(offset) => Some(12 * (octave + 1) + shift + offset),
        None => None,
    }
}

/// `find_offset` only ever yields an offset carried by some entry of the table.
proof fn lemma_find_offset_bounded(table: Seq<(char, i32)>, key: char, lo: int, hi: int)
    requires
        forall|i: int| 0 <= i < table.len() ==> lo <= #[trigger] table[i].1 <= hi,
    ensures
        find_offset(table, key) matches Some(o) ==> lo <= o <= hi,
    decreases table.len(),
{
    if table.len() > 0 && table[0].0 != key {
        let rest = table.drop_first();
        assert forall|i: int| 0 <= i < rest.len() implies lo <= #[trigger] rest[i].1 <= hi by {
            assert(rest[i] == table[i + 1]);
        }
        lemma_find_offset_bounded(rest, key, lo, hi);
    }
}

/// Every playing key sounds within the two octaves above the base note:
/// its offset lies in `0..=25`.
pub proof fn law_key_offset_in_two_octaves(key: char)
    ensures
        key_offset(key) matches Some(o) ==> 0 <= o <= 25,
{
    assert forall|i: int| 0 <= i < KEYMAP@.len() implies 0 <= #[trigger] KEYMAP@[i].1 <= 25 by {}
    lemma_find_offset_bounded(KEYMAP@, key, 0, 25);
}

/// No key occurs twice in `KEYMAP`: looking up the key of any entry yields
/// that entry's offset.
pub proof fn law_keymap_entry_lookup(i: int)
    requires
        0 <= i < KEYMAP@.len(),
    ensures
        key_offset(KEYMAP@[i].0) == Some(KEYMAP@[i].1 as int),
{
    reveal_with_fuel(find_offset, 30);
}

/// The white keys drawn on each row play the offsets that `KEYMAP` gives them.
pub proof fn law_white_keys_match_keymap(i: int)
    requires
        0 <= i < 8,
    ensures
        key_offset(UPPER_WHITE@[i].0) == Some(UPPER_WHITE@[i].1 as int),
        key_offset(LOWER_WHITE@[i].0) == Some(LOWER_WHITE@[i].1 as int),
{
    reveal_with_fuel(find_offset, 30);
}

/// Each black key sounds one semitone above the white key on its left.
pub proof fn law_black_key_above_left_white(i: int)
    requires
        0 <= i < 6,
    ensures
        0 <= UPPER_BLACK@[i].1 < 8,
        0 <= LOWER_BLACK@[i].1 < 8,
        key_offset(UPPER_BLACK@[i].0) == Some(UPPER_WHITE@[UPPER_BLACK@[i].1 as int].1 + 1),
        key_offset(LOWER_BLACK@[i].0) == Some(LOWER_WHITE@[LOWER_BLACK@[i].1 as int].1 + 1),
{
    reveal_with_fuel(find_offset, 30);
}

/// The semitone steps of a major scale, from its first degree to the octave.
pub open spec fn major_scale_step(i: int) -> int {
    seq![0int, 2, 4, 5, 7, 9, 11, 12][i]
}

/// The white keys of each row, read left to right, form a major scale whose
/// last key is an octave above its first; the upper row starts an octave
/// above the lower one.
pub proof fn law_white_rows_are_major_scales(i: int)
    requires
        0 <= i < 8,
    ensures
        LOWER_WHITE@[i].1 - LOWER_WHITE@[0].1 == major_scale_step(i),
        UPPER_WHITE@[i].1 - UPPER_WHITE@[0].1 == major_scale_step(i),
        UPPER_WHITE@[0].1 == LOWER_WHITE@[0].1 + 12,
{
}

/// Moving the layout by `d` semitones moves every note by exactly `d`.
pub proof fn law_shift_transposes(key: char, octave: int, shift: int, d: int)
    ensures
        spec_midi_for_key(key, octave, shift + d) == match spec_midi_for_key(key, octave, shift) {
            Some(m) => Some(m + d),
            None => None::<int>,
        },
{
}

/// Raising the base octave by one raises every note by twelve semitones.
pub proof fn law_octave_up_adds_twelve(key: char, octave: int, shift: int)
    ensures
        spec_midi_for_key(key, octave + 1, shift) == match spec_midi_for_key(key, octave, shift) {
            Some(m) => Some(m + 12),
            None => None::<int>,
        },
{
}

/// `find_offset` only answers for keys the table holds, with their offset.
proof fn lemma_find_offset_from_table(table: Seq<(char, i32)>, key: char)
    ensures
        find_offset(table, key) matches Some(o) ==> exists|i: int|
            0 <= i < table.len() && #[trigger] table[i].0 == key && table[i].1 == o,
        (forall|i: int| 0 <= i < table.len() ==> #[trigger] table[i].0 != key) ==> find_offset(table, key) is None,
    decreases table.len(),
{
    if table.len() > 0 && table[0].0 != key {
        let rest = table.drop_first();
        lemma_find_offset_from_table(rest, key);
        if let Some(o) = find_offset(table, key) {
            let i = choose|i: int| 0 <= i < rest.len() && #[trigger] rest[i].0 == key && rest[i].1 == o;
            assert(table[i + 1] == rest[i]);
        }
        if forall|i: int| 0 <= i < table.len() ==> #[trigger] table[i].0 != key {
            assert forall|i: int| 0 <= i < rest.len() implies #[trigger] rest[i].0 != key by {
                assert(table[i + 1] == rest[i]);
            }
        }
    }
    if table.len() > 0 && table[0].0 == key {
        assert(table[0].0 == key);
    }
}

/// Only the keys listed in `KEYMAP` play, each with the offset listed for it;
/// every other key plays nothing.
pub proof fn law_only_keymap_keys_play(key: char)
    ensures
        key_offset(key) matches Some(o) ==> exists|i: int|
            0 <= i < KEYMAP@.len() && #[trigger] KEYMAP@[i].0 == key && KEYMAP@[i].1 == o,
        (forall|i: int| 0 <= i < KEYMAP@.len() ==> #[trigger] KEYMAP@[i].0 != key) ==> key_offset(key) is None,
{
    lemma_find_offset_from_table(KEYMAP@, key);
}

/// In the C layout the bottom-left key 'z' plays the C of the base octave:
/// MIDI `12 * (octave + 1)`, so octave 4 starts at middle C (60).
pub proof fn law_bottom_key_is_c(octave: int)
    ensures
        spec_midi_for_key('z', octave, 0) == Some(12 * (octave + 1)),
        spec_midi_for_key('z', 4, 0) == Some(60int),
{
    reveal_with_fuel(find_offset, 2);
}

} // verus!
