use vstd::prelude::*;

use crate::keymap::{note_arith_fits, base_note};
use crate::note::{spec_note_name, note_name_chars};
use crate::state::AppState;

verus! {

/// Narrowest white-key cell, in columns.
pub const MIN_CELL: usize = 4;

/// White keys per row.
pub const WHITE_KEYS: usize = 8;

/// How a cell of the keyboard drawing is styled.
#[derive(Clone, Copy, PartialEq, Eq, Structural, Debug)]
pub enum Paint {
    Normal,
    Dim,
    WhitePressed,
    Black,
    BlackPressed,
}

/// One text row of a keyboard section: a character and a paint per column.
pub struct KeyRow {
    pub chars: Vec<char>,
    pub paints: Vec<Paint>,
}

/// Everything a keyboard section drawing depends on.
pub struct SectionSpec {
    /// Keys shown as pressed.
    pub pressed: Set<char>,
    /// Black keys: key and index of the white key on its left.
    pub black: Seq<(char, u8)>,
    /// White keys: key and semitone offset.
    pub white: Seq<(char, i32)>,
    /// MIDI number of offset 0.
    pub base: int,
    /// Rows in the section.
    pub h: int,
    /// Width of a white-key cell.
    pub w: int,
    /// Columns available.
    pub width: int,
}

/// `x`, or 0 when negative (unsigned saturating arithmetic).
pub open spec fn sat(x: int) -> int {
    if x < 0 {
        0
    } else {
        x
    }
}

/// The smaller of `a` and `b`.
pub open spec fn min_int(a: int, b: int) -> int {
    if a <= b {
        a
    } else {
        b
    }
}

/// The larger of `a` and `b`.
pub open spec fn max_int(a: int, b: int) -> int {
    if a >= b {
        a
    } else {
        b
    }
}

/// Columns drawn: eight white cells of width `w`, cut at `width`.
pub open spec fn cols_of(w: int, width: int) -> int {
    min_int(WHITE_KEYS * w, width)
}

/// Columns drawn for section `g`.
pub open spec fn spec_cols(g: SectionSpec) -> int {
    cols_of(g.w, g.width)
}

/// Rows with black keys: three fifths of the section, at least one, leaving
/// at least two rows of white keys below when there is room.
pub open spec fn spec_black_rows(g: SectionSpec) -> int {
    let hi = max_int(sat(g.h - 2), 1);
    let x = g.h * 3 / 5;
    if x < 1 {
        1
    } else if x > hi {
        hi
    } else {
        x
    }
}

/// The row holding the white keys' letters.
pub open spec fn spec_label_row(g: SectionSpec) -> int {
    min_int(spec_black_rows(g) + 1, g.h - 1)
}

/// The bottom row, holding note names.
pub open spec fn spec_name_row(g: SectionSpec) -> int {
    g.h - 1
}

/// Width of a black key: about three fifths of a white cell of width `w`,
/// at least 3, at most a whole cell.
pub open spec fn cap_width_of(w: int) -> int {
    min_int(max_int(w * 3 / 5, 3), w)
}

/// Width of a black key of section `g`.
pub open spec fn spec_cap_width(g: SectionSpec) -> int {
    cap_width_of(g.w)
}

/// First column of black key `j`: centred on the boundary after its white
/// key, kept inside the drawing.
pub open spec fn spec_cap_left(g: SectionSpec, j: int) -> int {
    min_int(
        sat((g.black[j].1 + 1) * g.w - (spec_cap_width(g) / 2 + 1)),
        sat(spec_cols(g) - spec_cap_width(g)),
    )
}

/// Black key `j` covers column `c`.
pub open spec fn cap_covers(g: SectionSpec, j: int, c: int) -> bool {
    spec_cap_left(g, j) <= c < spec_cap_left(g, j) + spec_cap_width(g)
}

/// The last of the first `n` black keys that covers column `c`: the one drawn on top.
pub open spec fn cap_owner(g: SectionSpec, n: int, c: int) -> Option<int>
    decreases n,
{
    if n <= 0 {
        None
    } else if cap_covers(g, n - 1, c) {
        Some(n - 1)
    } else {
        cap_owner(g, n - 1, c)
    }
}

/// The note name written under white key `i`.
pub open spec fn white_name(g: SectionSpec, i: int) -> Seq<char> {
    spec_note_name(g.base + g.white[i].1)
}

/// First column of the note name under white key `i`: centred in its cell.
pub open spec fn name_start(g: SectionSpec, i: int) -> int {
    i * g.w + sat(g.w - white_name(g, i).len()) / 2
}

/// The name of white key `i` covers column `c`.
pub open spec fn name_covers(g: SectionSpec, i: int, c: int) -> bool {
    name_start(g, i) <= c < name_start(g, i) + white_name(g, i).len()
}

/// The last of the first `n` note names that covers column `c`.
pub open spec fn name_owner(g: SectionSpec, n: int, c: int) -> Option<int>
    decreases n,
{
    if n <= 0 {
        None
    } else if name_covers(g, n - 1, c) {
        Some(n - 1)
    } else {
        name_owner(g, n - 1, c)
    }
}

/// The character and paint at row `r`, column `c` of a keyboard section.
/// Layers, bottom to top: white cells (inverted when pressed), dim separators
/// between white cells, black keys in the upper rows (letter on the lowest
/// black row), white key letters, note names on the bottom row.
pub open spec fn spec_cell(g: SectionSpec, r: int, c: int) -> (char, Paint) {
    let i = c / g.w;
    let p1 = if i < g.white.len() && g.pressed.contains(g.white[i].0) {
        Paint::WhitePressed
    } else {
        Paint::Normal
    };
    let boundary = c % g.w == 0 && 1 <= i < WHITE_KEYS;
    let ch2 = if boundary { '│' } else { ' ' };
    let p2 = if boundary && p1 == Paint::Normal { Paint::Dim } else { p1 };
    let (ch3, p3) = if r < spec_black_rows(g) {
        match cap_owner(g, g.black.len() as int, c) {
            Some(j) => (
                if r == spec_black_rows(g) - 1 && c == spec_cap_left(g, j) + spec_cap_width(g) / 2 {
                    g.black[j].0
                } else {
                    '█'
                },
                if g.pressed.contains(g.black[j].0) {
                    Paint::BlackPressed
                } else {
                    Paint::Black
                },
            ),
            None => (ch2, p2),
        }
    } else {
        (ch2, p2)
    };
    let ch4 = if r == spec_label_row(g) && c % g.w == g.w / 2 && i < g.white.len() {
        g.white[i].0
    } else {
        ch3
    };
    if r == spec_name_row(g) {
        match name_owner(g, g.white.len() as int, c) {
            Some(k) => (
                white_name(g, k)[c - name_start(g, k)],
                if p3 == Paint::Normal { Paint::Dim } else { p3 },
            ),
            None => (ch4, p3),
        }
    } else {
        (ch4, p3)
    }
}

/// What drawing a section needs of its tables and sizes: at least one row;
/// when there are black keys, their letter falls inside the drawn columns;
/// every column computed while drawing (the edge of each black key, of each
/// pressed white cell, the letter and the name characters of each white key)
/// fits in a `usize`; every note number fits in an `i32`.
pub open spec fn section_args_fit(
    pressed: Set<char>,
    black: Seq<(char, u8)>,
    white: Seq<(char, i32)>,
    octave: i32,
    shift: i32,
    h: usize,
    w: usize,
    width: usize,
) -> bool {
    let g = section_of(pressed, black, white, octave, shift, h, w, width);
    &&& h >= 1
    &&& black.len() > 0 ==> cap_width_of(w as int) / 2 < cols_of(w as int, width as int)
    &&& h * 3 <= usize::MAX
    &&& WHITE_KEYS * w <= usize::MAX
    &&& forall|j: int| 0 <= j < black.len() ==> (#[trigger] black[j].1 + 1) * w <= usize::MAX
    &&& note_arith_fits(octave as int, shift as int, 0)
    &&& forall|i: int| 0 <= i < white.len() ==> note_arith_fits(octave as int, shift as int, #[trigger] white[i].1 as int)
    &&& forall|i: int| 0 <= i < white.len() ==> #[trigger] white_column_fits(g, i)
}

/// The columns computed for white key `i` fit in a `usize`: its letter
/// column, its cell's right edge when the key is pressed, and every column
/// of its note name.
pub open spec fn white_column_fits(g: SectionSpec, i: int) -> bool {
    &&& i * g.w + g.w / 2 <= usize::MAX
    &&& g.pressed.contains(g.white[i].0) ==> (i + 1) * g.w <= usize::MAX
    &&& name_start(g, i) + white_name(g, i).len() - 1 <= usize::MAX
}

/// The section drawn from `state`'s pressed keys and the given tables and sizes.
pub open spec fn section_of(
    pressed: Set<char>,
    black: Seq<(char, u8)>,
    white: Seq<(char, i32)>,
    octave: i32,
    shift: i32,
    h: usize,
    w: usize,
    width: usize,
) -> SectionSpec {
    SectionSpec {
        pressed,
        black,
        white,
        base: base_note(octave as int, shift as int),
        h: h as int,
        w: w as int,
        width: width as int,
    }
}

/// The values that every cell of a section is computed from.
struct SectionCtx {
    white: Vec<(char, i32)>,
    white_pressed: Vec<bool>,
    black: Vec<(char, u8)>,
    black_pressed: Vec<bool>,
    lefts: Vec<usize>,
    names: Vec<Vec<char>>,
    starts: Vec<usize>,
    cols: usize,
    black_h: usize,
    label_row: usize,
    name_row: usize,
    cap_w: usize,
    w: usize,
}

impl SectionCtx {
    spec fn matches(&self, g: SectionSpec) -> bool {
        &&& self.cols > 0 ==> g.w >= 1
        &&& self.w == g.w
        &&& self.cols == spec_cols(g)
        &&& self.black_h == spec_black_rows(g)
        &&& self.label_row == spec_label_row(g)
        &&& self.name_row == spec_name_row(g)
        &&& self.cap_w == spec_cap_width(g)
        &&& self.white@ == g.white
        &&& self.black@ == g.black
        &&& self.white_pressed@.len() == g.white.len()
        &&& forall|i: int| 0 <= i < g.white.len() ==> #[trigger] self.white_pressed@[i] == g.pressed.contains(g.white[i].0)
        &&& self.black_pressed@.len() == g.black.len()
        &&& forall|j: int| 0 <= j < g.black.len() ==> #[trigger] self.black_pressed@[j] == g.pressed.contains(g.black[j].0)
        &&& self.lefts@.len() == g.black.len()
        &&& forall|j: int| 0 <= j < g.black.len() ==> #[trigger] self.lefts@[j] == spec_cap_left(g, j)
        &&& self.names@.len() == g.white.len()
        &&& forall|i: int| 0 <= i < g.white.len() ==> #[trigger] self.names@[i]@ == white_name(g, i)
        &&& self.starts@.len() == g.white.len()
        &&& forall|i: int| 0 <= i < g.white.len() ==> #[trigger] self.starts@[i] == name_start(g, i)
        &&& forall|i: int| 0 <= i < g.white.len() ==> name_start(g, i) + #[trigger] white_name(g, i).len() <= usize::MAX + 1
        &&& forall|j: int| 0 <= j < g.black.len() ==> spec_cap_left(g, j) + spec_cap_width(g) <= usize::MAX
    }

    fn cap_owner(&self, Ghost(g): Ghost<SectionSpec>, c: usize) -> (r: Option<usize>)
        requires
            self.matches(g),
        ensures
            match r {
                Some(j) => cap_owner(g, g.black.len() as int, c as int) == Some(j as int) && j < g.black.len(),
                None => cap_owner(g, g.black.len() as int, c as int) is None,
            },
    {
        let mut j = self.lefts.len();
        while j > 0
            invariant
                self.matches(g),
                j <= g.black.len(),
                cap_owner(g, g.black.len() as int, c as int) == cap_owner(g, j as int, c as int),
            decreases j,
        {
            let left = self.lefts[j - 1];
            if left <= c && c < left + self.cap_w {
                return Some(j - 1);
            }
            j = j - 1;
        }
        None
    }

    fn name_owner(&self, Ghost(g): Ghost<SectionSpec>, c: usize) -> (r: Option<usize>)
        requires
            self.matches(g),
        ensures
            match r {
                Some(i) => name_owner(g, g.white.len() as int, c as int) == Some(i as int) && i < g.white.len()
                    && name_covers(g, i as int, c as int),
                None => name_owner(g, g.white.len() as int, c as int) is None,
            },
    {
        let mut i = self.starts.len();
        while i > 0
            invariant
                self.matches(g),
                i <= g.white.len(),
                name_owner(g, g.white.len() as int, c as int) == name_owner(g, i as int, c as int),
            decreases i,
        {
            let start = self.starts[i - 1];
            if start <= c && c - start < self.names[i - 1].len() {
                return Some(i - 1);
            }
            i = i - 1;
        }
        None
    }

    fn cell(&self, Ghost(g): Ghost<SectionSpec>, r: usize, c: usize) -> (res: (char, Paint))
        requires
            self.matches(g),
            c < self.cols,
        ensures
            res == spec_cell(g, r as int, c as int),
    {
        let i = c / self.w;
        let p1 = if i < self.white.len() && self.white_pressed[i] {
            Paint::WhitePressed
        } else {
            Paint::Normal
        };
        let boundary = c % self.w == 0 && 1 <= i && i < WHITE_KEYS;
        let ch2 = if boundary { '│' } else { ' ' };
        let p2 = if boundary && p1 == Paint::Normal { Paint::Dim } else { p1 };
        let (ch3, p3) = if r < self.black_h {
            match self.cap_owner(Ghost(g), c) {
                Some(j) => {
                    let ch = if r == self.black_h - 1 && c == self.lefts[j] + self.cap_w / 2 {
                        self.black[j].0
                    } else {
                        '█'
                    };
                    let p = if self.black_pressed[j] { Paint::BlackPressed } else { Paint::Black };
                    (ch, p)
                },
                None => (ch2, p2),
            }
        } else {
            (ch2, p2)
        };
        let ch4 = if r == self.label_row && c % self.w == self.w / 2 && i < self.white.len() {
            self.white[i].0
        } else {
            ch3
        };
        if r == self.name_row {
            match self.name_owner(Ghost(g), c) {
                Some(k) => {
                    let p = if p3 == Paint::Normal { Paint::Dim } else { p3 };
                    (self.names[k][c - self.starts[k]], p)
                },
                None => (ch4, p3),
            }
        } else {
            (ch4, p3)
        }
    }
}

/// One section of the keyboard (one row of keys), `h` text rows high with
/// white cells `w` columns wide in at most `width` columns: every cell is
/// the one `spec_cell` describes.
pub fn key_section(
    state: &AppState,
    black: &[(char, u8)],
    white: &[(char, i32)],
    octave: i32,
    shift: i32,
    h: usize,
    w: usize,
    width: usize,
) -> (rows: Vec<KeyRow>)
    requires
        state.wf(),
        section_args_fit(state.model().pressed.dom(), black@, white@, octave, shift, h, w, width),
    ensures
        rows@.len() == h,
        forall|r: int| 0 <= r < h ==> {
            let g = section_of(state.model().pressed.dom(), black@, white@, octave, shift, h, w, width);
            &&& #[trigger] rows@[r].chars@.len() == spec_cols(g)
            &&& rows@[r].paints@.len() == spec_cols(g)
            &&& forall|c: int| 0 <= c < spec_cols(g) ==> (#[trigger] rows@[r].chars@[c], rows@[r].paints@[c]) == spec_cell(g, r, c)
        },
{
    let ghost g = section_of(state.model().pressed.dom(), black@, white@, octave, shift, h, w, width);
    let cols = if WHITE_KEYS * w < width { WHITE_KEYS * w } else { width };
    let hi = if h >= 3 { h - 2 } else { 1 };
    let x = h * 3 / 5;
    let black_h = if x < 1 { 1 } else if x > hi { hi } else { x };
    let label_row = if black_h + 1 < h - 1 { black_h + 1 } else { h - 1 };
    let name_row = h - 1;
    let cap_base = w * 3 / 5;
    let cap_w = if cap_base > 3 { cap_base } else { 3 };
    let cap_w = if cap_w < w { cap_w } else { w };
    let base = 12 * (octave + 1) + shift;

    let mut white_v: Vec<(char, i32)> = Vec::new();
    let mut white_pressed: Vec<bool> = Vec::new();
    let mut names: Vec<Vec<char>> = Vec::new();
    let mut starts: Vec<usize> = Vec::new();
    let mut i: usize = 0;
    while i < white.len()
        invariant
            i <= white@.len(),
            g == section_of(state.model().pressed.dom(), black@, white@, octave, shift, h, w, width),
            section_args_fit(state.model().pressed.dom(), black@, white@, octave, shift, h, w, width),
            state.wf(),
            base == g.base,
            forall|i: int| 0 <= i < white@.len() ==> note_arith_fits(octave as int, shift as int, #[trigger] white@[i].1 as int),
            white_v@ == white@.take(i as int),
            white_pressed@.len() == i,
            forall|k: int| 0 <= k < i ==> #[trigger] white_pressed@[k] == g.pressed.contains(g.white[k].0),
            names@.len() == i,
            forall|k: int| 0 <= k < i ==> #[trigger] names@[k]@ == white_name(g, k),
            starts@.len() == i,
            forall|k: int| 0 <= k < i ==> #[trigger] starts@[k] == name_start(g, k),
            forall|k: int| 0 <= k < i ==> name_start(g, k) + #[trigger] white_name(g, k).len() <= usize::MAX + 1,
        decreases white@.len() - i,
    {
        let entry = white[i];
        white_v.push(entry);
        white_pressed.push(state.is_pressed(entry.0));
        let name = note_name_chars(base + entry.1);
        let name_len = name.len();
        proof {
            crate::note::lemma_note_name_len(base + entry.1);
            assert(white_column_fits(g, i as int));
        }
        let start = i * w + w.saturating_sub(name_len) / 2;
        names.push(name);
        starts.push(start);
        assert(white_v@ =~= white@.take(i + 1));
        i = i + 1;
    }
    assert(white_v@ =~= white@);

    let mut lefts: Vec<usize> = Vec::new();
    let mut black_v: Vec<(char, u8)> = Vec::new();
    let mut black_pressed: Vec<bool> = Vec::new();
    let mut j: usize = 0;
    while j < black.len()
        invariant
            j <= black@.len(),
            g == section_of(state.model().pressed.dom(), black@, white@, octave, shift, h, w, width),
            section_args_fit(state.model().pressed.dom(), black@, white@, octave, shift, h, w, width),
            state.wf(),
            cols == spec_cols(g),
            cap_w == spec_cap_width(g),
            black_v@ == black@.take(j as int),
            black_pressed@.len() == j,
            forall|k: int| 0 <= k < j ==> #[trigger] black_pressed@[k] == g.pressed.contains(g.black[k].0),
            lefts@.len() == j,
            forall|k: int| 0 <= k < j ==> #[trigger] lefts@[k] == spec_cap_left(g, k),
        decreases black@.len() - j,
    {
        let entry = black[j];
        assert((entry.1 as int + 1) * (w as int) <= usize::MAX) by {
            assert(g.black[j as int].1 == entry.1);
        }
        let boundary = (entry.1 as usize + 1) * w;
        let left_a = boundary.saturating_sub(cap_w / 2 + 1);
        let left_b = cols.saturating_sub(cap_w);
        let left = if left_a < left_b { left_a } else { left_b };
        lefts.push(left);
        black_v.push(entry);
        black_pressed.push(state.is_pressed(entry.0));
        assert(black_v@ =~= black@.take(j + 1));
        j = j + 1;
    }
    assert(black_v@ =~= black@);

    let ctx = SectionCtx {
        white: white_v,
        white_pressed,
        black: black_v,
        black_pressed,
        lefts,
        names,
        starts,
        cols,
        black_h,
        label_row,
        name_row,
        cap_w,
        w,
    };
    assert(ctx.matches(g)) by {
        assert forall|j: int| 0 <= j < g.black.len() implies spec_cap_left(g, j) + spec_cap_width(g) <= usize::MAX by {
            assert(spec_cap_left(g, j) <= sat(spec_cols(g) - spec_cap_width(g)));
        }
    }

    let mut rows: Vec<KeyRow> = Vec::new();
    let mut r: usize = 0;
    while r < h
        invariant
            r <= h,
            ctx.matches(g),
            cols == spec_cols(g),
            rows@.len() == r,
            forall|rr: int| 0 <= rr < r ==> {
                &&& #[trigger] rows@[rr].chars@.len() == spec_cols(g)
                &&& rows@[rr].paints@.len() == spec_cols(g)
                &&& forall|c: int| 0 <= c < spec_cols(g) ==> (#[trigger] rows@[rr].chars@[c], rows@[rr].paints@[c]) == spec_cell(g, rr, c)
            },
        decreases h - r,
    {
        let mut chars: Vec<char> = Vec::new();
        let mut paints: Vec<Paint> = Vec::new();
        let mut c: usize = 0;
        while c < cols
            invariant
                c <= cols,
                ctx.matches(g),
                cols == spec_cols(g),
                chars@.len() == c,
                paints@.len() == c,
                forall|cc: int| 0 <= cc < c ==> (#[trigger] chars@[cc], paints@[cc]) == spec_cell(g, r as int, cc),
            decreases cols - c,
        {
            let (ch, p) = ctx.cell(Ghost(g), r, c);
            chars.push(ch);
            paints.push(p);
            c = c + 1;
        }
        let ghost cs = chars@;
        let ghost ps = paints@;
        let ghost rows0 = rows@;
        rows.push(KeyRow { chars, paints });
        assert forall|rr: int| 0 <= rr < r + 1 implies {
            &&& #[trigger] rows@[rr].chars@.len() == spec_cols(g)
            &&& rows@[rr].paints@.len() == spec_cols(g)
            &&& forall|c: int| 0 <= c < spec_cols(g) ==> (#[trigger] rows@[rr].chars@[c], rows@[rr].paints@[c]) == spec_cell(g, rr, c)
        } by {
            if rr < r {
                assert(rows@[rr] == rows0[rr]);
            } else {
                assert(rows@[rr].chars@ == cs && rows@[rr].paints@ == ps);
                assert forall|c: int| 0 <= c < spec_cols(g) implies (#[trigger] rows@[rr].chars@[c], rows@[rr].paints@[c]) == spec_cell(g, rr, c) by {
                    assert((cs[c], ps[c]) == spec_cell(g, r as int, c));
                }
            }
        }
        r = r + 1;
    }
    rows
}

/// Whether `key_section` can draw these tables at these sizes for `state`:
/// exactly its requirements beyond the state's own well-formedness.
pub fn section_args_ok(
    state: &AppState,
    black: &[(char, u8)],
    white: &[(char, i32)],
    octave: i32,
    shift: i32,
    h: usize,
    w: usize,
    width: usize,
) -> (ok: bool)
    requires
        state.wf(),
    ensures
        ok == section_args_fit(state.model().pressed.dom(), black@, white@, octave, shift, h, w, width),
{
    let ghost g = section_of(state.model().pressed.dom(), black@, white@, octave, shift, h, w, width);
    if h == 0 || h > usize::MAX / 3 || w > usize::MAX / WHITE_KEYS {
        assert(h == 0 || h * 3 > usize::MAX || WHITE_KEYS * w > usize::MAX) by (nonlinear_arith)
            requires
                h == 0 || h > usize::MAX / 3 || w > usize::MAX / WHITE_KEYS;
        return false;
    }
    let cols = if WHITE_KEYS * w < width { WHITE_KEYS * w } else { width };
    let cap_base = w * 3 / 5;
    let cap_w = if cap_base > 3 { cap_base } else { 3 };
    let cap_w = if cap_w < w { cap_w } else { w };
    if black.len() > 0 && cap_w / 2 >= cols {
        return false;
    }
    let max: u128 = usize::MAX as u128;
    let wide: u128 = w as u128;
    let mut j: usize = 0;
    while j < black.len()
        invariant
            j <= black@.len(),
            max == usize::MAX,
            wide == w,
            forall|k: int| 0 <= k < j ==> (#[trigger] black@[k].1 + 1) * (w as int) <= usize::MAX,
        decreases black@.len() - j,
    {
        let k: u128 = black[j].1 as u128 + 1;
        assert(k * wide <= 256 * usize::MAX) by (nonlinear_arith)
            requires
                k <= 256,
                wide <= usize::MAX;
        if k * wide > max {
            return false;
        }
        j = j + 1;
    }
    if octave == i32::MAX {
        return false;
    }
    let o1 = octave as i64 + 1;
    let b = 12 * o1 + shift as i64;
    if 12 * o1 < i32::MIN as i64 || 12 * o1 > i32::MAX as i64 || b < i32::MIN as i64 || b > i32::MAX as i64 {
        return false;
    }
    let mut i: usize = 0;
    while i < white.len()
        invariant
            i <= white@.len(),
            g == section_of(state.model().pressed.dom(), black@, white@, octave, shift, h, w, width),
            state.wf(),
            max == usize::MAX,
            wide == w,
            w <= usize::MAX / WHITE_KEYS,
            b == 12 * (octave + 1) + shift,
            note_arith_fits(octave as int, shift as int, 0),
            forall|k: int| 0 <= k < i ==> note_arith_fits(octave as int, shift as int, #[trigger] white@[k].1 as int),
            forall|k: int| 0 <= k < i ==> #[trigger] white_column_fits(g, k),
        decreases white@.len() - i,
    {
        let entry = white[i];
        let n = b + entry.1 as i64;
        if n < i32::MIN as i64 || n > i32::MAX as i64 {
            return false;
        }
        let idx: u128 = i as u128;
        assert(usize::MAX <= 0xffff_ffff_ffff_ffffu128);
        assert(idx * wide <= 0x1_0000_0000_0000_0000u128 * 0x2000_0000_0000_0000u128) by (nonlinear_arith)
            requires
                idx <= 0x1_0000_0000_0000_0000u128,
                wide <= 0x2000_0000_0000_0000u128;
        let iw: u128 = idx * wide;
        assert((idx + 1) * wide == iw + wide) by (nonlinear_arith)
            requires
                iw == idx * wide;
        if iw + wide / 2 > max {
            assert(!white_column_fits(g, i as int));
            return false;
        }
        if state.is_pressed(entry.0) && iw + wide > max {
            assert(!white_column_fits(g, i as int));
            return false;
        }
        let name = note_name_chars(n as i32);
        proof {
            crate::note::lemma_note_name_len(n as int);
        }
        let name_len: u128 = name.len() as u128;
        let pad: u128 = (w.saturating_sub(name.len()) / 2) as u128;
        if iw + pad + name_len - 1 > max {
            assert(!white_column_fits(g, i as int));
            return false;
        }
        assert(white_column_fits(g, i as int));
        i = i + 1;
    }
    assert forall|i: int| 0 <= i < white@.len() implies #[trigger] white_column_fits(g, i) by {}
    true
}

/// Runs of equal paint in a row, as half-open column ranges `(start, end)`:
/// consecutive, covering the row from left to right, each maximal.
pub fn paint_runs(paints: &Vec<Paint>) -> (runs: Vec<(usize, usize)>)
    ensures
        runs@.len() == 0 <==> paints@.len() == 0,
        runs@.len() > 0 ==> runs@[0].0 == 0 && runs@[runs@.len() - 1].1 == paints@.len(),
        forall|k: int| 0 <= k < runs@.len() ==> #[trigger] runs@[k].0 < runs@[k].1 <= paints@.len(),
        forall|k: int| 0 <= k < runs@.len() - 1 ==> #[trigger] runs@[k].1 == runs@[k + 1].0,
        forall|k: int, c: int| 0 <= k < runs@.len() && runs@[k].0 <= c < runs@[k].1 ==> #[trigger] paints@[c] == paints@[#[trigger] runs@[k].0 as int],
        forall|k: int| 0 <= k < runs@.len() && #[trigger] runs@[k].1 < paints@.len() ==> paints@[runs@[k].1 as int] != paints@[runs@[k].0 as int],
{
    let mut runs: Vec<(usize, usize)> = Vec::new();
    let n = paints.len();
    let mut i: usize = 0;
    while i < n
        invariant
            n == paints@.len(),
            i <= n,
            runs@.len() == 0 <==> i == 0,
            runs@.len() > 0 ==> runs@[0].0 == 0 && runs@[runs@.len() - 1].1 == i,
            forall|k: int| 0 <= k < runs@.len() ==> #[trigger] runs@[k].0 < runs@[k].1 <= i,
            forall|k: int| 0 <= k < runs@.len() - 1 ==> #[trigger] runs@[k].1 == runs@[k + 1].0,
            forall|k: int, c: int| 0 <= k < runs@.len() && runs@[k].0 <= c < runs@[k].1 ==> #[trigger] paints@[c] == paints@[#[trigger] runs@[k].0 as int],
            forall|k: int| 0 <= k < runs@.len() && #[trigger] runs@[k].1 < i ==> paints@[runs@[k].1 as int] != paints@[runs@[k].0 as int],
            runs@.len() > 0 && i < n ==> paints@[i as int] != paints@[runs@[runs@.len() - 1].0 as int],
        decreases n - i,
    {
        let mut j = i + 1;
        while j < n && paints[j] == paints[i]
            invariant
                n == paints@.len(),
                i < j <= n,
                forall|c: int| i <= c < j ==> #[trigger] paints@[c] == paints@[i as int],
            decreases n - j,
        {
            j = j + 1;
        }
        let ghost r0 = runs@;
        runs.push((i, j));
        assert forall|k: int| 0 <= k < runs@.len() && #[trigger] runs@[k].1 < j implies paints@[runs@[k].1 as int] != paints@[runs@[k].0 as int] by {
            assert(k < r0.len());
            assert(runs@[k] == r0[k]);
        }
        i = j;
    }
    runs
}

/// Width of a white-key cell for a drawing `width` columns wide: an eighth
/// of the width, at least `MIN_CELL`.
pub fn cell_width(width: usize) -> (w: usize)
    ensures
        w == max_int(width as int / WHITE_KEYS as int, MIN_CELL as int),
{
    let w = width / WHITE_KEYS;
    if w > MIN_CELL { w } else { MIN_CELL }
}

/// Height of each of the two keyboard sections for a drawing `height` rows
/// high: half of what the header, footer and three spacer rows leave, at
/// least 3.
pub fn section_height(height: usize) -> (h: usize)
    ensures
        h == max_int(sat(height as int - 5) / 2, 3),
{
    let h = height.saturating_sub(5) / 2;
    if h > 3 { h } else { 3 }
}

/// The MIDI notes at the two ends of the keyboard: the bottom-left key and
/// two octaves above it.
pub fn keyboard_range(octave: i32, shift: i32) -> (r: (i32, i32))
    requires
        note_arith_fits(octave as int, shift as int, 24),
    ensures
        r.0 == base_note(octave as int, shift as int),
        r.1 == base_note(octave as int, shift as int) + 24,
{
    let low = 12 * (octave + 1) + shift;
    (low, low + 24)
}

/// The name of the layout: "C" when unshifted, "E" otherwise.
pub fn layout_name(shift: i32) -> (name: &'static str)
    ensures
        shift == 0 ==> name@ == "C"@,
        shift != 0 ==> name@ == "E"@,
{
    if shift == 0 { "C" } else { "E" }
}

/// The section's rows split as the drawing promises: at least one row of
/// black keys; when there are three rows or more, at least two rows below
/// them; the letter row and the name row inside the section; black keys no
/// wider than a white cell.
pub proof fn law_section_rows(g: SectionSpec)
    requires
        g.h >= 1,
        g.w >= 0,
    ensures
        1 <= spec_black_rows(g) <= g.h,
        g.h >= 3 ==> spec_black_rows(g) <= g.h - 2,
        spec_black_rows(g) <= spec_label_row(g) < g.h || g.h <= 2,
        0 <= spec_name_row(g) < g.h,
        spec_cap_width(g) <= g.w,
        g.w >= 3 ==> spec_cap_width(g) >= 3,
{
}

/// Below the black keys, away from the letter and name rows, a white key's
/// cell is drawn pressed exactly when its key is pressed, and cells are
/// separated by a dim '│' at every cell boundary.
pub proof fn law_white_cells(g: SectionSpec, r: int, c: int)
    requires
        g.w >= 1,
        0 <= c < spec_cols(g),
        spec_black_rows(g) <= r < g.h,
        r != spec_label_row(g),
        r != spec_name_row(g),
    ensures
        c / g.w < g.white.len() && c % g.w != 0 ==> (spec_cell(g, r, c).1 == Paint::WhitePressed
            <==> g.pressed.contains(g.white[c / g.w].0)),
        c % g.w == 0 && 1 <= c / g.w < WHITE_KEYS ==> spec_cell(g, r, c).0 == '│',
        c % g.w != 0 ==> spec_cell(g, r, c).0 == ' ',
{
}

/// On the letter row, when it is not also the name row, the centre of each
/// white cell shows that white key's letter.
pub proof fn law_white_letters(g: SectionSpec, i: int)
    requires
        g.w >= 1,
        0 <= i < g.white.len(),
        i * g.w + g.w / 2 < spec_cols(g),
        spec_label_row(g) != spec_name_row(g),
    ensures
        spec_cell(g, spec_label_row(g), i * g.w + g.w / 2).0 == g.white[i].0,
{
    let c = i * g.w + g.w / 2;
    assert(c / g.w == i && c % g.w == g.w / 2) by (nonlinear_arith)
        requires
            c == i * g.w + g.w / 2,
            g.w >= 1,
            i >= 0;
}

/// In the black-key rows, a column covered by a black key shows that key
/// (the last one drawn there): '█' styled by whether the key is pressed,
/// with the key's letter at its centre on the lowest black row.
pub proof fn law_black_caps(g: SectionSpec, r: int, c: int, j: int)
    requires
        0 <= r < spec_black_rows(g),
        r != spec_label_row(g),
        r != spec_name_row(g),
        cap_owner(g, g.black.len() as int, c) == Some(j),
    ensures
        spec_cell(g, r, c).1 == (if g.pressed.contains(g.black[j].0) { Paint::BlackPressed } else { Paint::Black }),
        r == spec_black_rows(g) - 1 && c == spec_cap_left(g, j) + spec_cap_width(g) / 2 ==> spec_cell(g, r, c).0
            == g.black[j].0,
        !(r == spec_black_rows(g) - 1 && c == spec_cap_left(g, j) + spec_cap_width(g) / 2) ==> spec_cell(g, r, c).0
            == '█',
{
}

proof fn lemma_name_owner_is(g: SectionSpec, n: int, i: int, c: int)
    requires
        g.w >= 1,
        0 <= i < n <= g.white.len(),
        name_covers(g, i, c),
        c < (i + 1) * g.w,
    ensures
        name_owner(g, n, c) == Some(i),
    decreases n,
{
    if n - 1 > i {
        assert(!name_covers(g, n - 1, c)) by {
            assert((n - 1) * g.w >= (i + 1) * g.w) by (nonlinear_arith)
                requires
                    n - 1 >= i + 1,
                    g.w >= 1;
        }
        lemma_name_owner_is(g, n - 1, i, c);
    }
}

/// On the bottom row, a white key's note name is written centred in its
/// cell whenever it fits in the cell.
pub proof fn law_note_names(g: SectionSpec, i: int, k: int)
    requires
        g.w >= 1,
        0 <= i < g.white.len(),
        white_name(g, i).len() <= g.w,
        0 <= k < white_name(g, i).len(),
        name_start(g, i) + k < spec_cols(g),
    ensures
        spec_cell(g, spec_name_row(g), name_start(g, i) + k).0 == white_name(g, i)[k],
{
    let c = name_start(g, i) + k;
    assert(c < (i + 1) * g.w) by (nonlinear_arith)
        requires
            c == i * g.w + sat(g.w - white_name(g, i).len()) / 2 + k,
            k < white_name(g, i).len(),
            white_name(g, i).len() <= g.w,
            g.w >= 1;
    lemma_name_owner_is(g, g.white.len() as int, i, c);
}

/// A colour of the terminal's theme used for the keyboard.
#[derive(Clone, Copy, PartialEq, Eq, Structural, Debug)]
pub enum ThemeColor {
    /// Secondary information: separators and note names.
    Dim,
    /// Black keys.
    BlackKey,
}

/// How a paint is shown: an optional foreground colour, and whether the
/// cell is shown reversed and bold.
#[derive(Clone, Copy, PartialEq, Eq, Structural, Debug)]
pub struct CellStyle {
    pub fg: Option<ThemeColor>,
    pub reversed_bold: bool,
}

/// The style of each paint: normal cells unstyled, dim cells and black keys
/// in their colour, pressed keys reversed and bold (black ones keeping their
/// colour).
pub open spec fn spec_paint_style(p: Paint) -> CellStyle {
    match p {
        Paint::Normal => CellStyle { fg: None, reversed_bold: false },
        Paint::Dim => CellStyle { fg: Some(ThemeColor::Dim), reversed_bold: false },
        Paint::Black => CellStyle { fg: Some(ThemeColor::BlackKey), reversed_bold: false },
        Paint::WhitePressed => CellStyle { fg: None, reversed_bold: true },
        Paint::BlackPressed => CellStyle { fg: Some(ThemeColor::BlackKey), reversed_bold: true },
    }
}

/// The style in which cells of paint `p` are shown.
pub fn paint_style(p: Paint) -> (s: CellStyle)
    ensures
        s == spec_paint_style(p),
{
    match p {
        Paint::Normal => CellStyle { fg: None, reversed_bold: false },
        Paint::Dim => CellStyle { fg: Some(ThemeColor::Dim), reversed_bold: false },
        Paint::Black => CellStyle { fg: Some(ThemeColor::BlackKey), reversed_bold: false },
        Paint::WhitePressed => CellStyle { fg: None, reversed_bold: true },
        Paint::BlackPressed => CellStyle { fg: Some(ThemeColor::BlackKey), reversed_bold: true },
    }
}

/// Exactly the cells of pressed keys are shown reversed and bold, and only
/// normal cells are shown without any style.
pub proof fn law_pressed_cells_stand_out(p: Paint)
    ensures
        spec_paint_style(p).reversed_bold <==> (p == Paint::WhitePressed || p == Paint::BlackPressed),
        (spec_paint_style(p) == CellStyle { fg: None, reversed_bold: false }) <==> p == Paint::Normal,
{
}

/// On every row at or below the black keys (the letter row and the name row
/// included) a column lies in a pressed white key's cell exactly when it is
/// highlighted as a pressed white key.
pub proof fn law_pressed_white_cells_highlighted(g: SectionSpec, r: int, c: int)
    requires
        g.w >= 1,
        0 <= c < spec_cols(g),
        spec_black_rows(g) <= r < g.h,
    ensures
        spec_cell(g, r, c).1 == Paint::WhitePressed <==> (c / g.w < g.white.len() && g.pressed.contains(
            g.white[c / g.w].0,
        )),
{
}

/// Wherever no black key is drawn over it, a column lies in a pressed white
/// key's cell exactly when it is highlighted as a pressed white key, on
/// every row.
pub proof fn law_pressed_white_cells_highlighted_everywhere(g: SectionSpec, r: int, c: int)
    requires
        g.w >= 1,
        0 <= c < spec_cols(g),
        0 <= r < g.h,
        r >= spec_black_rows(g) || cap_owner(g, g.black.len() as int, c) is None,
    ensures
        spec_cell(g, r, c).1 == Paint::WhitePressed <==> (c / g.w < g.white.len() && g.pressed.contains(
            g.white[c / g.w].0,
        )),
{
}

/// Below the black keys, away from the letter and name rows, the boundary
/// between two white cells is a '│' drawn dim, unless the cell to its right
/// is pressed.
pub proof fn law_separators_dim(g: SectionSpec, r: int, i: int)
    requires
        g.w >= 1,
        1 <= i < WHITE_KEYS,
        i * g.w < spec_cols(g),
        spec_black_rows(g) <= r < g.h,
        r != spec_label_row(g),
        r != spec_name_row(g),
        !(i < g.white.len() && g.pressed.contains(g.white[i].0)),
    ensures
        spec_cell(g, r, i * g.w) == ('│', Paint::Dim),
{
    assert((i * g.w) / g.w == i && (i * g.w) % g.w == 0) by (nonlinear_arith)
        requires
            g.w >= 1,
            i >= 0;
}

} // verus!
