use vstd::prelude::*;

use crate::keymap::{base_note, spec_midi_for_key, LOWER_WHITE, UPPER_WHITE, LOWER_BLACK, UPPER_BLACK};

verus! {

/// The name of pitch class `pc` (0 = C, ..., 11 = B), sharps for black keys.
pub open spec fn pitch_name(pc: int) -> Seq<char> {
    if pc == 0 {
        seq!['C']
    } else if pc == 1 {
        seq!['C', '#']
    } else if pc == 2 {
        seq!['D']
    } else if pc == 3 {
        seq!['D', '#']
    } else if pc == 4 {
        seq!['E']
    } else if pc == 5 {
        seq!['F']
    } else if pc == 6 {
        seq!['F', '#']
    } else if pc == 7 {
        seq!['G']
    } else if pc == 8 {
        seq!['G', '#']
    } else if pc == 9 {
        seq!['A']
    } else if pc == 10 {
        seq!['A', '#']
    } else {
        seq!['B']
    }
}

/// The ASCII digit for `d` in `0..=9`.
pub open spec fn digit_char(d: int) -> char {
    ((d + 48) as u8) as char
}

/// The decimal digits of `n`, most significant first, without leading zeros.
pub open spec fn digits(n: nat) -> Seq<char>
    decreases n,
{
    if n < 10 {
        seq![digit_char(n as int)]
    } else {
        digits(n / 10).push(digit_char((n % 10) as int))
    }
}

/// `n` written in decimal, with a leading '-' when negative.
pub open spec fn decimal(n: int) -> Seq<char> {
    if n < 0 {
        seq!['-'] + digits((-n) as nat)
    } else {
        digits(n as nat)
    }
}

/// The scientific name of MIDI note `midi`: pitch name then octave number,
/// where MIDI 60 is "C4" (octave `midi / 12 - 1`, both Euclidean).
pub open spec fn spec_note_name(midi: int) -> Seq<char> {
    pitch_name(midi % 12) + decimal(midi / 12 - 1)
}

/// The characters of the name of pitch class `pc`.
fn pitch_name_chars(pc: i32) -> (res: Vec<char>)
    requires
        0 <= pc < 12,
    ensures
        res@ == pitch_name(pc as int),
{
    let res = if pc == 0 {
        vec!['C']
    } else if pc == 1 {
        vec!['C', '#']
    } else if pc == 2 {
        vec!['D']
    } else if pc == 3 {
        vec!['D', '#']
    } else if pc == 4 {
        vec!['E']
    } else if pc == 5 {
        vec!['F']
    } else if pc == 6 {
        vec!['F', '#']
    } else if pc == 7 {
        vec!['G']
    } else if pc == 8 {
        vec!['G', '#']
    } else if pc == 9 {
        vec!['A']
    } else if pc == 10 {
        vec!['A', '#']
    } else {
        vec!['B']
    };
    assert(res@ =~= pitch_name(pc as int));
    res
}

/// Appends the decimal digits of `n` to `out`.
fn push_digits(out: &mut Vec<char>, n: u32)
    ensures
        final(out)@ == old(out)@ + digits(n as nat),
    decreases n,
{
    if n < 10 {
        let d: u8 = n as u8;
        out.push((d + 48) as char);
        assert(digits(n as nat) =~= seq![digit_char(n as int)]);
    } else {
        push_digits(out, n / 10);
        let d: u8 = (n % 10) as u8;
        out.push((d + 48) as char);
        assert(old(out)@ + digits(n as nat) =~= (old(out)@ + digits((n / 10) as nat)).push(
            digit_char((n % 10) as int),
        ));
    }
}

/// Appends `n` in decimal to `out`.
fn push_decimal(out: &mut Vec<char>, n: i32)
    ensures
        final(out)@ == old(out)@ + decimal(n as int),
{
    if n < 0 {
        out.push('-');
        let m: i64 = -(n as i64);
        push_digits(out, m as u32);
        assert(old(out)@ + decimal(n as int) =~= old(out)@.push('-') + digits((-n) as nat));
    } else {
        push_digits(out, n as u32);
    }
}

/// The characters of the name of MIDI note `midi` (see `note_name`).
pub fn note_name_chars(midi: i32) -> (res: Vec<char>)
    ensures
        res@ == spec_note_name(midi as int),
{
    let pc: i32 = match midi.checked_rem_euclid(12) {
        Some(r) => r,
        None => 0,
    };
    let q: i32 = match midi.checked_div_euclid(12) {
        Some(d) => d,
        None => 0,
    };
    assert(pc == midi % 12 && q == midi / 12);
    let mut out = pitch_name_chars(pc);
    push_decimal(&mut out, q - 1);
    out
}

/// Builds a `String` holding exactly the characters of `chars`.
#[verifier::external_body]
fn string_from_chars(chars: &Vec<char>) -> (s: String)
    ensures
        s@ == chars@,
{
    chars.iter().collect()
}

/// MIDI note number to note name: 60 is "C4", 61 is "C#4", 69 is "A4".
pub fn note_name(midi: i32) -> (res: String)
    ensures
        res@ == spec_note_name(midi as int),
{
    let chars = note_name_chars(midi);
    string_from_chars(&chars)
}

/// Raising a note by twelve semitones keeps its pitch name and raises its
/// octave number by one.
pub proof fn law_octave_up_keeps_pitch_name(midi: int)
    ensures
        spec_note_name(midi + 12) == pitch_name(midi % 12) + decimal(midi / 12),
{
    assert((midi + 12) % 12 == midi % 12);
    assert((midi + 12) / 12 == midi / 12 + 1);
}

/// Notes twelve semitones apart share their pitch name.
proof fn lemma_octaves_share_pitch_class(m: int, k: int)
    ensures
        (m + 12 * k) % 12 == m % 12,
{
    vstd::arithmetic::div_mod::lemma_mod_multiples_vanish(k, m, 12);
    assert(12 * k + m == m + 12 * k);
}

/// Both ends of each keyboard row (offsets 0 and 12 on the lower row,
/// 12 and 24 on the upper one) sound the pitch that `shift` names: C with
/// no shift, E when the layout is moved up four semitones.
pub proof fn law_row_ends_named_by_shift(octave: int, shift: int)
    requires
        0 <= shift < 12,
    ensures
        forall|off: int|
            #![trigger base_note(octave, shift) + off]
            off == 0 || off == 12 || off == 24 ==> pitch_name((base_note(octave, shift) + off) % 12)
                == pitch_name(shift),
        shift == 0 ==> pitch_name(shift) == seq!['C'],
        shift == 4 ==> pitch_name(shift) == seq!['E'],
{
    assert forall|off: int|
        #![trigger base_note(octave, shift) + off]
        off == 0 || off == 12 || off == 24 implies (base_note(octave, shift) + off) % 12 == shift by {
        lemma_octaves_share_pitch_class(shift, octave + 1 + off / 12);
        assert(base_note(octave, shift) + off == shift + 12 * (octave + 1 + off / 12))
            by (nonlinear_arith)
            requires off == 0 || off == 12 || off == 24;
    }
}

/// `10` to the power `k`.
pub open spec fn pow10(k: nat) -> nat
    decreases k,
{
    if k == 0 {
        1
    } else {
        10 * pow10((k - 1) as nat)
    }
}

proof fn lemma_digits_len(n: nat, k: nat)
    requires
        k >= 1,
        n < pow10(k),
    ensures
        digits(n).len() <= k,
    decreases k,
{
    if n >= 10 {
        assert(k >= 2) by {
            if k == 1 {
                reveal_with_fuel(pow10, 2);
            }
        }
        lemma_digits_len(n / 10, (k - 1) as nat);
    }
}

/// A note name is at most 13 characters long: two for the pitch, one for a
/// sign and ten digits.
pub proof fn lemma_note_name_len(midi: int)
    requires
        i32::MIN <= midi <= i32::MAX,
    ensures
        2 <= spec_note_name(midi).len() <= 13,
{
    reveal_with_fuel(pow10, 11);
    assert(pow10(10) == 10_000_000_000nat);
    let q = midi / 12 - 1;
    if q < 0 {
        lemma_digits_len((-q) as nat, 10);
    } else {
        lemma_digits_len(q as nat, 10);
    }
}

/// `c` is an ASCII decimal digit.
pub open spec fn is_digit(c: char) -> bool {
    '0' <= c && c <= '9'
}

proof fn lemma_digit_char(a: int, b: int)
    requires
        0 <= a < 10,
        0 <= b < 10,
    ensures
        is_digit(digit_char(a)),
        digit_char(a) == digit_char(b) ==> a == b,
{
}

proof fn lemma_digits_shape(n: nat)
    ensures
        digits(n).len() >= 1,
        n >= 10 ==> digits(n).len() >= 2,
        forall|i: int| 0 <= i < digits(n).len() ==> is_digit(#[trigger] digits(n)[i]),
    decreases n,
{
    if n < 10 {
        lemma_digit_char(n as int, 0);
    } else {
        lemma_digits_shape(n / 10);
        lemma_digit_char((n % 10) as int, 0);
        let d = digits(n / 10);
        assert forall|i: int| 0 <= i < digits(n).len() implies is_digit(#[trigger] digits(n)[i]) by {
            if i < d.len() {
                assert(digits(n)[i] == d[i]);
            }
        }
    }
}

proof fn lemma_digits_injective(n: nat, m: nat)
    requires
        digits(n) == digits(m),
    ensures
        n == m,
    decreases n,
{
    lemma_digits_shape(n);
    lemma_digits_shape(m);
    if n < 10 && m < 10 {
        assert(digits(n)[0] == digit_char(n as int));
        assert(digits(m)[0] == digit_char(m as int));
        lemma_digit_char(n as int, m as int);
    } else if n >= 10 && m >= 10 {
        let dn = digits(n);
        assert(dn.last() == digit_char((n % 10) as int));
        assert(digits(m).last() == digit_char((m % 10) as int));
        lemma_digit_char((n % 10) as int, (m % 10) as int);
        assert(dn.drop_last() =~= digits(n / 10));
        assert(digits(m).drop_last() =~= digits(m / 10));
        lemma_digits_injective(n / 10, m / 10);
        assert(n == 10 * (n / 10) + n % 10);
        assert(m == 10 * (m / 10) + m % 10);
    } else if n < 10 {
        assert(digits(n).len() == 1);
    } else {
        assert(digits(m).len() == 1);
    }
}

proof fn lemma_decimal_shape(n: int)
    ensures
        decimal(n).len() >= 1,
        decimal(n)[0] == '-' || is_digit(decimal(n)[0]),
{
    if n < 0 {
        lemma_digits_shape((-n) as nat);
    } else {
        lemma_digits_shape(n as nat);
    }
}

proof fn lemma_decimal_injective(a: int, b: int)
    requires
        decimal(a) == decimal(b),
    ensures
        a == b,
{
    if a < 0 {
        lemma_digits_shape((-a) as nat);
    } else {
        lemma_digits_shape(a as nat);
    }
    if b < 0 {
        lemma_digits_shape((-b) as nat);
    } else {
        lemma_digits_shape(b as nat);
    }
    if a < 0 && b < 0 {
        assert(decimal(a).drop_first() =~= digits((-a) as nat));
        assert(decimal(b).drop_first() =~= digits((-b) as nat));
        lemma_digits_injective((-a) as nat, (-b) as nat);
    } else if a >= 0 && b >= 0 {
        lemma_digits_injective(a as nat, b as nat);
    } else if a < 0 {
        assert(decimal(a)[0] == '-');
        assert(is_digit(decimal(b)[0]));
    } else {
        assert(decimal(b)[0] == '-');
        assert(is_digit(decimal(a)[0]));
    }
}

/// Distinct notes have distinct names: the pitch class and the octave can
/// both be read back from the name.
pub proof fn law_note_name_injective(a: int, b: int)
    ensures
        spec_note_name(a) == spec_note_name(b) <==> a == b,
{
    if spec_note_name(a) == spec_note_name(b) {
        let pa = a % 12;
        let pb = b % 12;
        let s = spec_note_name(a);
        let na = pitch_name(pa);
        let nb = pitch_name(pb);
        let da = decimal(a / 12 - 1);
        let db = decimal(b / 12 - 1);
        lemma_decimal_shape(a / 12 - 1);
        lemma_decimal_shape(b / 12 - 1);
        assert(s == na + da);
        assert(s == nb + db);
        assert(na.len() == 2 <==> s[1] == '#') by {
            if na.len() == 1 {
                assert(s[1] == da[0]);
            }
        }
        assert(nb.len() == 2 <==> s[1] == '#') by {
            if nb.len() == 1 {
                assert(s[1] == db[0]);
            }
        }
        assert(na =~= s.take(na.len() as int));
        assert(nb =~= s.take(nb.len() as int));
        assert(na[0] == nb[0]);
        assert(pa == pb);
        assert(da =~= s.skip(na.len() as int));
        assert(db =~= s.skip(nb.len() as int));
        lemma_decimal_injective(a / 12 - 1, b / 12 - 1);
        assert(a == 12 * (a / 12) + pa);
        assert(b == 12 * (b / 12) + pb);
    }
}

/// The number that the decimal text `s` spells (an optional leading '-'
/// followed by ASCII digits).
pub open spec fn read_decimal(s: Seq<char>) -> int {
    if s.len() > 0 && s[0] == '-' {
        -read_digits(s.drop_first())
    } else {
        read_digits(s)
    }
}

/// The number spelled by the ASCII digits `s`, most significant first.
pub open spec fn read_digits(s: Seq<char>) -> int
    decreases s.len(),
{
    if s.len() == 0 {
        0
    } else {
        10 * read_digits(s.drop_last()) + ((s.last() as u32) - 48)
    }
}

proof fn lemma_read_digits(n: nat)
    ensures
        read_digits(digits(n)) == n,
    decreases n,
{
    let d = (n % 10) as int;
    assert((digit_char(d) as u32) == d + 48);
    if n < 10 {
        assert(digits(n).drop_last() =~= Seq::<char>::empty());
        assert(digits(n).last() == digit_char(d));
        assert(read_digits(Seq::<char>::empty()) == 0);
        assert(read_digits(digits(n)) == 10 * read_digits(digits(n).drop_last()) + ((digits(n).last() as u32) - 48));
    } else {
        lemma_read_digits(n / 10);
        assert(digits(n).drop_last() =~= digits(n / 10));
        assert(digits(n).last() == digit_char(d));
        assert(read_digits(digits(n)) == 10 * read_digits(digits(n).drop_last()) + ((digits(n).last() as u32) - 48));
        assert(n == 10 * (n / 10) + n % 10);
    }
}

/// The octave number of a note name reads back as the number it was made
/// from: decimal text is read back to its value.
pub proof fn law_decimal_reads_back(n: int)
    ensures
        read_decimal(decimal(n)) == n,
{
    if n < 0 {
        lemma_read_digits((-n) as nat);
        assert(decimal(n).drop_first() =~= digits((-n) as nat));
    } else {
        lemma_read_digits(n as nat);
        lemma_digits_shape(n as nat);
        lemma_digit_char(0, 0);
        assert(is_digit(digits(n as nat)[0]));
    }
}

/// The note name of MIDI `midi` is its pitch name followed by its octave
/// number `midi / 12 - 1` written in decimal: reading the text after the
/// pitch name gives back the octave; 60 + 12k is always C of octave k + 4.
pub proof fn law_note_name_octave(midi: int, k: int)
    ensures
        read_decimal(spec_note_name(midi).skip(pitch_name(midi % 12).len() as int)) == midi / 12 - 1,
        spec_note_name(60 + 12 * k) == seq!['C'] + decimal(k + 4),
{
    assert(spec_note_name(midi).skip(pitch_name(midi % 12).len() as int) =~= decimal(midi / 12 - 1));
    law_decimal_reads_back(midi / 12 - 1);
    assert((60 + 12 * k) % 12 == 0 && (60 + 12 * k) / 12 - 1 == k + 4);
}

/// Along each row the white keys, in the C layout, are the notes C D E F G A
/// B C, none of them sharp, in every octave.
pub proof fn law_white_keys_are_naturals(octave: int, i: int)
    requires
        0 <= i < 8,
    ensures
        pitch_name((base_note(octave, 0) + LOWER_WHITE@[i].1) % 12) == seq![seq!['C', 'D', 'E', 'F', 'G', 'A', 'B', 'C'][i]],
        pitch_name((base_note(octave, 0) + UPPER_WHITE@[i].1) % 12) == seq![seq!['C', 'D', 'E', 'F', 'G', 'A', 'B', 'C'][i]],
{
    let off_l = LOWER_WHITE@[i].1 as int;
    let off_u = UPPER_WHITE@[i].1 as int;
    lemma_octaves_share_pitch_class(off_l, octave + 1);
    lemma_octaves_share_pitch_class(off_u, octave + 1);
    assert(base_note(octave, 0) + off_l == off_l + 12 * (octave + 1));
    assert(base_note(octave, 0) + off_u == off_u + 12 * (octave + 1));
}

/// The black keys of each row, in the C layout, are the sharps C# D# F# G# A#.
pub proof fn law_black_keys_are_sharps(octave: int, i: int)
    requires
        0 <= i < 6,
    ensures
        pitch_name((spec_midi_for_key(LOWER_BLACK@[i].0, octave, 0).unwrap()) % 12).len() == 2,
        pitch_name((spec_midi_for_key(UPPER_BLACK@[i].0, octave, 0).unwrap()) % 12).len() == 2,
        pitch_name((spec_midi_for_key(LOWER_BLACK@[i].0, octave, 0).unwrap()) % 12)[1] == '#',
        pitch_name((spec_midi_for_key(UPPER_BLACK@[i].0, octave, 0).unwrap()) % 12)[1] == '#',
{
    crate::keymap::law_black_key_above_left_white(i);
    let off_l = LOWER_WHITE@[LOWER_BLACK@[i].1 as int].1 + 1;
    let off_u = UPPER_WHITE@[UPPER_BLACK@[i].1 as int].1 + 1;
    lemma_octaves_share_pitch_class(off_l, octave + 1);
    lemma_octaves_share_pitch_class(off_u, octave + 1);
    assert(base_note(octave, 0) + off_l == off_l + 12 * (octave + 1));
    assert(base_note(octave, 0) + off_u == off_u + 12 * (octave + 1));
}

} // verus!
