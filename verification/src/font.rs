//! The embedded face: one table, one lookup.
use vstd::prelude::*;

use crate::ppm::{clamp, Tile};
use crate::typeset::Align;

verus! {

/// Cell width in font-pixels: 5 columns of ink plus one of advance.
pub const CELL_W: i64 = 6;
/// Cell height in font-pixels: 7 stored rows plus one of line gap.
pub const CELL_H: i64 = 8;
/// Rows from the cell top down to the baseline.
pub const BASELINE: i64 = 6;

/// The first code point the face covers.
pub const FIRST: u8 = 0x20;

/// One row-major 5 x 7 bitmap per printable ASCII code point `0x20..=0x7E`.
pub const GLYPHS: [[u8; 7]; 95] = [
    [0b00000, 0b00000, 0b00000, 0b00000, 0b00000, 0b00000, 0b00000], // ' '
    [0b00100, 0b00100, 0b00100, 0b00100, 0b00000, 0b00100, 0b00000], // '!'
    [0b01010, 0b01010, 0b00000, 0b00000, 0b00000, 0b00000, 0b00000], // '"'
    [0b01010, 0b11111, 0b01010, 0b11111, 0b01010, 0b00000, 0b00000], // '#'
    [0b00100, 0b01111, 0b10100, 0b01110, 0b00101, 0b11110, 0b00100], // '$'
    [0b11001, 0b11010, 0b00010, 0b00100, 0b01011, 0b10011, 0b00000], // '%'
    [0b01100, 0b10010, 0b01100, 0b10010, 0b10001, 0b01110, 0b00000], // '&'
    [0b00100, 0b00100, 0b00000, 0b00000, 0b00000, 0b00000, 0b00000], // "'"
    [0b00010, 0b00100, 0b01000, 0b01000, 0b00100, 0b00010, 0b00000], // '('
    [0b01000, 0b00100, 0b00010, 0b00010, 0b00100, 0b01000, 0b00000], // ')'
    [0b00000, 0b10101, 0b01110, 0b11111, 0b01110, 0b10101, 0b00000], // '*'
    [0b00000, 0b00100, 0b00100, 0b11111, 0b00100, 0b00100, 0b00000], // '+'
    [0b00000, 0b00000, 0b00000, 0b00000, 0b00000, 0b00110, 0b01000], // ','
    [0b00000, 0b00000, 0b00000, 0b11111, 0b00000, 0b00000, 0b00000], // '-'
    [0b00000, 0b00000, 0b00000, 0b00000, 0b00000, 0b00110, 0b00000], // '.'
    [0b00001, 0b00010, 0b00100, 0b00100, 0b01000, 0b10000, 0b00000], // '/'
    [0b01110, 0b10001, 0b10011, 0b10101, 0b11001, 0b01110, 0b00000], // '0'
    [0b00100, 0b01100, 0b00100, 0b00100, 0b00100, 0b01110, 0b00000], // '1'
    [0b01110, 0b10001, 0b00001, 0b00110, 0b01000, 0b11111, 0b00000], // '2'
    [0b11111, 0b00010, 0b00110, 0b00001, 0b10001, 0b01110, 0b00000], // '3'
    [0b00010, 0b00110, 0b01010, 0b10010, 0b11111, 0b00010, 0b00000], // '4'
    [0b11111, 0b10000, 0b11110, 0b00001, 0b10001, 0b01110, 0b00000], // '5'
    [0b00110, 0b01000, 0b10000, 0b11110, 0b10001, 0b01110, 0b00000], // '6'
    [0b11111, 0b00001, 0b00010, 0b00100, 0b00100, 0b00100, 0b00000], // '7'
    [0b01110, 0b10001, 0b01110, 0b10001, 0b10001, 0b01110, 0b00000], // '8'
    [0b01110, 0b10001, 0b10001, 0b01111, 0b00001, 0b01100, 0b00000], // '9'
    [0b00000, 0b00000, 0b00110, 0b00000, 0b00110, 0b00000, 0b00000], // ':'
    [0b00000, 0b00000, 0b00110, 0b00000, 0b00110, 0b00100, 0b01000], // ';'
    [0b00010, 0b00100, 0b01000, 0b01000, 0b00100, 0b00010, 0b00000], // '<'
    [0b00000, 0b00000, 0b11111, 0b00000, 0b11111, 0b00000, 0b00000], // '='
    [0b01000, 0b00100, 0b00010, 0b00010, 0b00100, 0b01000, 0b00000], // '>'
    [0b01110, 0b10001, 0b00010, 0b00100, 0b00000, 0b00100, 0b00000], // '?'
    [0b01110, 0b10001, 0b10111, 0b10111, 0b10000, 0b01110, 0b00000], // '@'
    [0b01110, 0b10001, 0b10001, 0b11111, 0b10001, 0b10001, 0b00000], // 'A'
    [0b11110, 0b10001, 0b11110, 0b10001, 0b10001, 0b11110, 0b00000], // 'B'
    [0b01110, 0b10001, 0b10000, 0b10000, 0b10001, 0b01110, 0b00000], // 'C'
    [0b11100, 0b10010, 0b10001, 0b10001, 0b10010, 0b11100, 0b00000], // 'D'
    [0b11111, 0b10000, 0b11110, 0b10000, 0b10000, 0b11111, 0b00000], // 'E'
    [0b11111, 0b10000, 0b11110, 0b10000, 0b10000, 0b10000, 0b00000], // 'F'
    [0b01110, 0b10001, 0b10000, 0b10011, 0b10001, 0b01110, 0b00000], // 'G'
    [0b10001, 0b10001, 0b11111, 0b10001, 0b10001, 0b10001, 0b00000], // 'H'
    [0b01110, 0b00100, 0b00100, 0b00100, 0b00100, 0b01110, 0b00000], // 'I'
    [0b00111, 0b00010, 0b00010, 0b00010, 0b10010, 0b01100, 0b00000], // 'J'
    [0b10001, 0b10010, 0b11100, 0b10010, 0b10010, 0b10001, 0b00000], // 'K'
    [0b10000, 0b10000, 0b10000, 0b10000, 0b10000, 0b11111, 0b00000], // 'L'
    [0b10001, 0b11011, 0b10101, 0b10001, 0b10001, 0b10001, 0b00000], // 'M'
    [0b10001, 0b11001, 0b10101, 0b10011, 0b10001, 0b10001, 0b00000], // 'N'
    [0b01110, 0b10001, 0b10001, 0b10001, 0b10001, 0b01110, 0b00000], // 'O'
    [0b11110, 0b10001, 0b10001, 0b11110, 0b10000, 0b10000, 0b00000], // 'P'
    [0b01110, 0b10001, 0b10001, 0b10101, 0b10010, 0b01101, 0b00000], // 'Q'
    [0b11110, 0b10001, 0b10001, 0b11110, 0b10010, 0b10001, 0b00000], // 'R'
    [0b01111, 0b10000, 0b01110, 0b00001, 0b00001, 0b11110, 0b00000], // 'S'
    [0b11111, 0b00100, 0b00100, 0b00100, 0b00100, 0b00100, 0b00000], // 'T'
    [0b10001, 0b10001, 0b10001, 0b10001, 0b10001, 0b01110, 0b00000], // 'U'
    [0b10001, 0b10001, 0b10001, 0b10001, 0b01010, 0b00100, 0b00000], // 'V'
    [0b10001, 0b10001, 0b10001, 0b10101, 0b11011, 0b10001, 0b00000], // 'W'
    [0b10001, 0b01010, 0b00100, 0b00100, 0b01010, 0b10001, 0b00000], // 'X'
    [0b10001, 0b01010, 0b00100, 0b00100, 0b00100, 0b00100, 0b00000], // 'Y'
    [0b11111, 0b00001, 0b00010, 0b00100, 0b01000, 0b11111, 0b00000], // 'Z'
    [0b00111, 0b00100, 0b00100, 0b00100, 0b00100, 0b00111, 0b00000], // '['
    [0b10000, 0b01000, 0b00100, 0b00100, 0b00010, 0b00001, 0b00000], // '\\'
    [0b11100, 0b00100, 0b00100, 0b00100, 0b00100, 0b11100, 0b00000], // ']'
    [0b00100, 0b01010, 0b10001, 0b00000, 0b00000, 0b00000, 0b00000], // '^'
    [0b00000, 0b00000, 0b00000, 0b00000, 0b00000, 0b11111, 0b00000], // '_'
    [0b01000, 0b00100, 0b00000, 0b00000, 0b00000, 0b00000, 0b00000], // '`'
    [0b00000, 0b00000, 0b01110, 0b00001, 0b01111, 0b01111, 0b00000], // 'a'
    [0b10000, 0b10000, 0b11110, 0b10001, 0b10001, 0b11110, 0b00000], // 'b'
    [0b00000, 0b00000, 0b01110, 0b10000, 0b10000, 0b01110, 0b00000], // 'c'
    [0b00001, 0b00001, 0b01111, 0b10001, 0b10001, 0b01111, 0b00000], // 'd'
    [0b00000, 0b00000, 0b01110, 0b11111, 0b10000, 0b01110, 0b00000], // 'e'
    [0b00110, 0b01000, 0b11110, 0b01000, 0b01000, 0b01000, 0b00000], // 'f'
    [0b00000, 0b00000, 0b01101, 0b10010, 0b10010, 0b01110, 0b00010], // 'g'
    [0b10000, 0b10000, 0b11110, 0b10001, 0b10001, 0b10001, 0b00000], // 'h'
    [0b00100, 0b00000, 0b01100, 0b00100, 0b00100, 0b01110, 0b00000], // 'i'
    [0b00010, 0b00000, 0b00110, 0b00010, 0b00010, 0b10010, 0b01100], // 'j'
    [0b10000, 0b10010, 0b10100, 0b11000, 0b10100, 0b10010, 0b00000], // 'k'
    [0b01100, 0b00100, 0b00100, 0b00100, 0b00100, 0b01110, 0b00000], // 'l'
    [0b00000, 0b00000, 0b11010, 0b10101, 0b10101, 0b10001, 0b00000], // 'm'
    [0b00000, 0b00000, 0b11110, 0b10001, 0b10001, 0b10001, 0b00000], // 'n'
    [0b00000, 0b00000, 0b01110, 0b10001, 0b10001, 0b01110, 0b00000], // 'o'
    [0b00000, 0b00000, 0b11110, 0b10001, 0b11110, 0b10000, 0b10000], // 'p'
    [0b00000, 0b00000, 0b01111, 0b10001, 0b01111, 0b00001, 0b00001], // 'q'
    [0b00000, 0b00000, 0b10110, 0b11000, 0b10000, 0b10000, 0b00000], // 'r'
    [0b00000, 0b00000, 0b01111, 0b01100, 0b00011, 0b11110, 0b00000], // 's'
    [0b01000, 0b01000, 0b11110, 0b01000, 0b01001, 0b00110, 0b00000], // 't'
    [0b00000, 0b00000, 0b10001, 0b10001, 0b10001, 0b01111, 0b00000], // 'u'
    [0b00000, 0b00000, 0b10001, 0b10001, 0b01010, 0b00100, 0b00000], // 'v'
    [0b00000, 0b00000, 0b10001, 0b10101, 0b10101, 0b01010, 0b00000], // 'w'
    [0b00000, 0b00000, 0b10001, 0b01010, 0b01010, 0b10001, 0b00000], // 'x'
    [0b00000, 0b00000, 0b10001, 0b10001, 0b01111, 0b00001, 0b01110], // 'y'
    [0b00000, 0b00000, 0b11111, 0b00010, 0b01000, 0b11111, 0b00000], // 'z'
    [0b00011, 0b00100, 0b01100, 0b00100, 0b00100, 0b00011, 0b00000], // '{'
    [0b00100, 0b00100, 0b00100, 0b00100, 0b00100, 0b00100, 0b00000], // '|'
    [0b11000, 0b00100, 0b00110, 0b00100, 0b00100, 0b11000, 0b00000], // '}'
    [0b00000, 0b00000, 0b01001, 0b10110, 0b00000, 0b00000, 0b00000], // '~'
];

/// The glyph drawn for `byte`: its own bitmap for printable ASCII, the
/// bitmap of `'?'` for anything else.
pub open spec fn glyph_of(byte: u8) -> [u8; 7] {
    if 0x20 <= byte <= 0x7E {
        GLYPHS[byte - 0x20]
    } else {
        GLYPHS[0x3F - 0x20]
    }
}

/// The glyph for `byte`. Printable ASCII is the face's whole domain; any
/// other byte falls back to `'?'` rather than panicking.
pub fn glyph(byte: u8) -> (rows: [u8; 7])
    ensures
        rows == glyph_of(byte),
{
    if FIRST <= byte && byte <= 0x7E {
        GLYPHS[(byte - FIRST) as usize]
    } else {
        GLYPHS[(0x3F - FIRST) as usize]
    }
}

/// The characters whose glyph reaches the descender row: `g j p q y`,
/// `,` `;`, and the `$` whose stem pierces the baseline.
pub open spec fn is_descender(c: u8) -> bool {
    c == 0x67 || c == 0x6A || c == 0x70 || c == 0x71 || c == 0x79 || c == 0x2C || c == 0x3B
        || c == 0x24
}

/// Every row of every glyph fits the five-column cell: only the low five
/// bits are ever set.
pub proof fn law_rows_fit_five_columns(byte: u8, row: int)
    requires
        0 <= row < 7,
    ensures
        glyph_of(byte)[row] <= 0b11111,
{
    assert(forall|i: int, r: int| 0 <= i < 95 && 0 <= r < 7 ==> #[trigger] GLYPHS[i][r] <= 31);
}

/// Exactly the documented descenders put ink on row 6; every other glyph
/// stays at or above the baseline.
pub proof fn law_only_known_descenders(byte: u8)
    requires
        0x20 <= byte <= 0x7E,
    ensures
        glyph_of(byte)[6] != 0 <==> is_descender(byte),
{
    assert(forall|i: int| 0 <= i < 95 ==> (#[trigger] GLYPHS[i][6] != 0 <==> is_descender(
        (i + 0x20) as u8,
    )));
}

/// Outside printable ASCII every byte draws the glyph of `'?'`.
pub proof fn law_out_of_range_is_question_mark(byte: u8)
    requires
        !(0x20 <= byte <= 0x7E),
    ensures
        glyph_of(byte) == glyph_of(0x3F),
{
}

/// Every printable character is drawn with its own entry of the table:
/// the glyph of `b` is row `b - 0x20` of [`GLYPHS`], for each of the 95
/// printable bytes.
pub proof fn law_printable_glyph_is_its_table_entry(b: u8)
    requires
        0x20 <= b <= 0x7E,
    ensures
        glyph_of(b) == GLYPHS[b - 0x20],
{
}

/// A glyph's seven five-bit rows packed into one number.
pub open spec fn glyph_code(g: [u8; 7]) -> int {
    g[0] + 32 * g[1] + 1024 * g[2] + 32768 * g[3] + 1048576 * g[4] + 33554432 * g[5] + 1073741824
        * g[6]
}

/// Distinct printable characters are drawn differently, with exactly two
/// exceptions: `(` shares its bitmap with `<`, and `)` with `>`.
#[verifier::rlimit(100)]
#[verifier::spinoff_prover]
pub proof fn law_distinct_characters_look_distinct(a: u8, b: u8)
    requires
        0x20 <= a <= 0x7E,
        0x20 <= b <= 0x7E,
        a != b,
        !(a == 0x28 && b == 0x3C) && !(a == 0x3C && b == 0x28),
        !(a == 0x29 && b == 0x3E) && !(a == 0x3E && b == 0x29),
    ensures
        glyph_of(a) != glyph_of(b),
{
    assert(forall|i: int, j: int|
        0 <= i < 95 && 0 <= j < 95 && i < j && !(i == 8 && j == 28) && !(i == 9 && j == 30)
            ==> #[trigger] glyph_code(GLYPHS[i]) != #[trigger] glyph_code(GLYPHS[j]));
    if glyph_of(a) == glyph_of(b) {
        assert(glyph_code(GLYPHS[a - 0x20]) == glyph_code(GLYPHS[b - 0x20]));
    }
}

/// The byte the face draws a character as: its own code for printable
/// ASCII, `'?'` for every other character.
pub open spec fn face_byte(c: char) -> u8 {
    if 0x20 <= (c as u32) <= 0x7E {
        (c as u32) as u8
    } else {
        0x3F
    }
}

/// A run as the face spells it, character by character.
pub open spec fn face_spelling(text: Seq<char>) -> Seq<u8> {
    text.map_values(|c: char| face_byte(c))
}

/// A run as the face spells it: one byte per character, so an unprintable
/// or non-ASCII character is exactly one `'?'` and the run keeps its
/// character count.
pub fn face_bytes(text: &str) -> (out: Vec<u8>)
    ensures
        out@ == face_spelling(text@),
{
    let n = text.unicode_len();
    let mut out: Vec<u8> = Vec::new();
    let mut i: usize = 0;
    while i < n
        invariant
            n == text@.len(),
            i <= n,
            out@ == face_spelling(text@.take(i as int)),
        decreases n - i,
    {
        let c = text.get_char(i);
        let code = c as u32;
        let b: u8 = if 0x20 <= code && code <= 0x7E {
            code as u8
        } else {
            0x3F
        };
        out.push(b);
        assert(text@.take(i + 1) =~= text@.take(i as int).push(c));
        i = i + 1;
        assert(out@ =~= face_spelling(text@.take(i as int)));
    }
    assert(text@.take(n as int) =~= text@);
    out
}

/// Spelling a run for the face keeps its length, yields printable ASCII
/// only, and leaves a run of printable ASCII exactly as it was.
pub proof fn law_face_bytes_keep_the_count(text: Seq<char>)
    ensures
        face_spelling(text).len() == text.len(),
        forall|i: int|
            0 <= i < text.len() ==> 0x20 <= #[trigger] face_spelling(text)[i]
                <= 0x7E,
        forall|i: int|
            0 <= i < text.len() && 0x20 <= (#[trigger] text[i] as u32) <= 0x7E ==> face_spelling(text)[i] == text[i] as u32,
{
}

/// Whether font pixel `(r, c)` — row `r` from the cell top, column `c`
/// from the left — of the glyph for byte `i` of `text` is inked.
pub open spec fn lit(text: Seq<u8>, i: int, r: int, c: int) -> bool {
    &&& 0 <= i < text.len()
    &&& 0 <= r < 7
    &&& 0 <= c < 5
    &&& glyph_of(text[i])[r] & (0x10u8 >> (c as u8)) != 0
}

/// Whether pixel `(x, y)` lies in the `k × k` block that font pixel
/// `(r, c)` of the `i`-th glyph occupies, for a run whose pen starts at
/// `pen` with its baseline on row `base`. Cells are `CELL_W` wide and the
/// baseline sits `BASELINE` rows below the cell top; pixel rows grow
/// downward.
pub open spec fn in_block(pen: int, base: int, k: int, i: int, r: int, c: int, x: int, y: int) -> bool {
    &&& pen + (6 * i + c) * k <= x < pen + (6 * i + c) * k + k
    &&& base + (r - 6) * k <= y < base + (r - 6) * k + k
}

/// The pen position of a run of `n` cells at scale `k` whose anchor is at
/// column `px`: the run starts at the anchor, is centred on it, or ends at
/// it. The run is `CELL_W · k · n` pixels wide, an even number, so the
/// centring is exact.
pub open spec fn pen_x(px: int, k: int, n: int, align: Align) -> int {
    match align {
        Align::Left => px,
        Align::Center => px - (6 * k * n) / 2,
        Align::Right => px - 6 * k * n,
    }
}

/// Whether the run lights pixel `(x, y)` of a `dims` canvas.
pub open spec fn run_lights(
    text: Seq<u8>,
    pen: int,
    base: int,
    k: int,
    dims: (u32, u32),
    x: int,
    y: int,
) -> bool {
    &&& 0 <= x < dims.0
    &&& 0 <= y < dims.1
    &&& exists|i: int, r: int, c: int| #[trigger]
        lit(text, i, r, c) && in_block(pen, base, k, i, r, c, x, y)
}

/// Every tile is non-empty and lies on a `dims` canvas.
pub open spec fn on_canvas(tiles: Seq<Tile>, dims: (u32, u32)) -> bool {
    forall|j: int|
        0 <= j < tiles.len() ==> #[trigger] tiles[j].wf() && tiles[j].x1 <= dims.0 && tiles[j].y1
            <= dims.1
}

/// No two tiles share a pixel.
pub open spec fn pairwise_disjoint(tiles: Seq<Tile>) -> bool {
    forall|a: int, b: int, x: int, y: int|
        0 <= a < tiles.len() && 0 <= b < tiles.len() && a != b && #[trigger] tiles[a].contains(x, y)
            ==> !#[trigger] tiles[b].contains(x, y)
}

/// Whether some tile of `tiles` covers `(x, y)`.
pub open spec fn covered(tiles: Seq<Tile>, x: int, y: int) -> bool {
    exists|j: int| 0 <= j < tiles.len() && #[trigger] tiles[j].contains(x, y)
}

/// Font pixel `(i, r, c)` comes before `(i0, r0, c0)` in run order.
pub open spec fn before(i: int, r: int, c: int, i0: int, r0: int, c0: int) -> bool {
    i < i0 || (i == i0 && (r < r0 || (r == r0 && c < c0)))
}

/// Two blocks of one run that share a pixel are the same font pixel.
proof fn lemma_blocks_are_disjoint(
    pen: int,
    base: int,
    k: int,
    i: int,
    r: int,
    c: int,
    i2: int,
    r2: int,
    c2: int,
    x: int,
    y: int,
)
    requires
        k >= 1,
        0 <= c < 5,
        0 <= c2 < 5,
        in_block(pen, base, k, i, r, c, x, y),
        in_block(pen, base, k, i2, r2, c2, x, y),
    ensures
        i == i2 && r == r2 && c == c2,
{
    lemma_same_slot(6 * i + c, 6 * i2 + c2, k, x - pen);
    lemma_same_slot(r - 6, r2 - 6, k, y - base);
}

/// A coordinate lies in exactly one `k`-wide slot.
proof fn lemma_same_slot(u: int, v: int, k: int, d: int)
    requires
        k >= 1,
        u * k <= d < u * k + k,
        v * k <= d < v * k + k,
    ensures
        u == v,
{
    if u < v {
        assert(u * k + k <= v * k) by (nonlinear_arith)
            requires
                u < v,
                k >= 1,
        ;
    } else if v < u {
        assert(v * k + k <= u * k) by (nonlinear_arith)
            requires
                v < u,
                k >= 1,
        ;
    }
}

/// `v` clamped to `[0, hi]`, as a pixel coordinate.
fn clamp_wide(v: i128, hi: u32) -> (c: u32)
    ensures
        c == clamp(v as int, 0, hi as int),
{
    if v < 0 {
        0
    } else if v > hi as i128 {
        hi
    } else {
        v as u32
    }
}

/// A block's rectangle clipped to a `dims` canvas, as [`Tile::clip`] does
/// for coordinates that need more than 64 bits.
fn clip_block(x0: i128, y0: i128, x1: i128, y1: i128, dims: (u32, u32)) -> (t: Option<Tile>)
    ensures
        t == crate::ppm::tile_of(
            clamp(x0 as int, 0, dims.0 as int),
            clamp(y0 as int, 0, dims.1 as int),
            clamp(x1 as int, 0, dims.0 as int),
            clamp(y1 as int, 0, dims.1 as int),
        ),
{
    Tile::new(clamp_wide(x0, dims.0), clamp_wide(y0, dims.1), clamp_wide(x1, dims.0), clamp_wide(y1, dims.1))
}

/// The pixel tiles a run of ASCII text lights on a `dims` canvas when set
/// in the embedded face at integer scale `k` (each font pixel a `k × k`
/// block), anchored at pixel `(px, py)` on its baseline and placed by
/// `align`.
///
/// Every tile lies on the canvas, no two tiles share a pixel (so each lit
/// pixel is composited exactly once), and a pixel is covered exactly when
/// it is on the canvas and inside the block of an inked font pixel. Bytes
/// outside printable ASCII draw the `'?'` glyph. A run of any length and
/// any anchor is accepted; a font pixel may be up to `2^32` canvas pixels
/// wide, wider than any canvas a `u32` can size.
pub fn glyph_run(text: &[u8], px: i64, py: i64, k: i64, align: Align, dims: (u32, u32)) -> (tiles:
    Vec<Tile>)
    requires
        1 <= k <= 0x1_0000_0000,
    ensures
        on_canvas(tiles@, dims),
        forall|x: int, y: int|
            #[trigger] covered(tiles@, x, y) <==> run_lights(
                text@,
                pen_x(px as int, k as int, text@.len() as int, align),
                py as int,
                k as int,
                dims,
                x,
                y,
            ),
        pairwise_disjoint(tiles@),
{
    // Pixel coordinates are computed in i128, where no run a usize can
    // index overflows them.
    let kk = k as i128;
    let n = text.len() as i128;
    assert(0 <= 6 * kk * n <= 6 * 0x1_0000_0000 * 0x1_0000_0000_0000_0000) by (nonlinear_arith)
        requires
            1 <= kk <= 0x1_0000_0000,
            0 <= n <= 0x1_0000_0000_0000_0000,
    ;
    let w = 6 * kk * n;
    let ppx = px as i128;
    let ppy = py as i128;
    let pen: i128 = match align {
        Align::Left => ppx,
        Align::Center => ppx - w / 2,
        Align::Right => ppx - w,
    };
    let ghost spen = pen_x(px as int, k as int, text@.len() as int, align);
    assert(pen == spen);
    let mut tiles: Vec<Tile> = Vec::new();
    let mut i: usize = 0;
    while i < text.len()
        invariant
            1 <= k <= 0x1_0000_0000,
            kk == k,
            ppy == py,
            -0x10_0000_0000_0000_0000_0000_0000 <= pen <= 0x10_0000_0000_0000_0000_0000_0000,
            pen == spen,
            i <= text@.len(),
            on_canvas(tiles@, dims),
            forall|x: int, y: int|
                #[trigger] covered(tiles@, x, y) <==> (0 <= x < dims.0 && 0 <= y < dims.1
                    && exists|i2: int, r2: int, c2: int|
                    #[trigger] lit(text@, i2, r2, c2) && before(i2, r2, c2, i as int, 0, 0)
                        && in_block(pen as int, py as int, k as int, i2, r2, c2, x, y)),
            pairwise_disjoint(tiles@),
        decreases text@.len() - i,
    {
        let rows = glyph(text[i]);
        let mut r: usize = 0;
        while r < 7
            invariant
                1 <= k <= 0x1_0000_0000,
                kk == k,
                ppy == py,
                -0x10_0000_0000_0000_0000_0000_0000 <= pen <= 0x10_0000_0000_0000_0000_0000_0000,
                i < text@.len(),
                rows == glyph_of(text@[i as int]),
                r <= 7,
                on_canvas(tiles@, dims),
                forall|x: int, y: int|
                    #[trigger] covered(tiles@, x, y) <==> (0 <= x < dims.0 && 0 <= y < dims.1
                        && exists|i2: int, r2: int, c2: int|
                        #[trigger] lit(text@, i2, r2, c2) && before(
                            i2,
                            r2,
                            c2,
                            i as int,
                            r as int,
                            0,
                        ) && in_block(pen as int, py as int, k as int, i2, r2, c2, x, y)),
                pairwise_disjoint(tiles@),
            decreases 7 - r,
        {
            let row = rows[r];
            let mut c: usize = 0;
            while c < 5
                invariant
                    1 <= k <= 0x1_0000_0000,
                    kk == k,
                    ppy == py,
                    -0x10_0000_0000_0000_0000_0000_0000 <= pen <= 0x10_0000_0000_0000_0000_0000_0000,
                    i < text@.len(),
                    r < 7,
                    row == glyph_of(text@[i as int])[r as int],
                    c <= 5,
                    on_canvas(tiles@, dims),
                    forall|x: int, y: int|
                        #[trigger] covered(tiles@, x, y) <==> (0 <= x < dims.0 && 0 <= y < dims.1
                            && exists|i2: int, r2: int, c2: int|
                            #[trigger] lit(text@, i2, r2, c2) && before(
                                i2,
                                r2,
                                c2,
                                i as int,
                                r as int,
                                c as int,
                            ) && in_block(pen as int, py as int, k as int, i2, r2, c2, x, y)),
                    forall|a: int, b: int, x: int, y: int|
                        0 <= a < tiles@.len() && 0 <= b < tiles@.len() && a != b
                            && #[trigger] tiles@[a].contains(x, y)
                            ==> !#[trigger] tiles@[b].contains(x, y),
                decreases 5 - c,
            {
                let ghost old_tiles = tiles@;
                let inked = row & (0x10u8 >> (c as u8)) != 0;
                assert(inked == lit(text@, i as int, r as int, c as int));
                if inked {
                    proof {
                        assert(0 <= (6 * i + c) * k <= 6 * 0x1_0000_0000_0000_0000 * 0x1_0000_0000)
                            by (nonlinear_arith)
                            requires
                                0 <= i < 0x1_0000_0000_0000_0000,
                                0 <= c < 5,
                                1 <= k <= 0x1_0000_0000,
                        ;
                        assert(-7 * 0x1_0000_0000 <= (r - 6) * k <= 0) by (nonlinear_arith)
                            requires
                                0 <= r < 7,
                                1 <= k <= 0x1_0000_0000,
                        ;
                    }
                    let x0 = pen + (6 * (i as i128) + (c as i128)) * kk;
                    let y0 = ppy + ((r as i128) - 6) * kk;
                    let t = clip_block(x0, y0, x0 + kk, y0 + kk, dims);
                    if let Some(t) = t {
                        tiles.push(t);
                    }
                    proof {
                        lemma_push_block(
                            old_tiles,
                            tiles@,
                            t,
                            text@,
                            pen as int,
                            py as int,
                            k as int,
                            dims,
                            i as int,
                            r as int,
                            c as int,
                        );
                    }
                } else {
                    proof {
                        lemma_skip_block(
                            tiles@,
                            text@,
                            pen as int,
                            py as int,
                            k as int,
                            dims,
                            i as int,
                            r as int,
                            c as int,
                        );
                    }
                }
                c = c + 1;
            }
            proof {
                lemma_next_row(tiles@, text@, pen as int, py as int, k as int, dims, i as int, r as int);
            }
            r = r + 1;
        }
        proof {
            lemma_next_glyph(tiles@, text@, pen as int, py as int, k as int, dims, i as int);
        }
        i = i + 1;
    }
    tiles
}

/// The run is `CELL_W · k · n` pixels wide, always even, so a centred run
/// straddles its anchor exactly; a right-aligned run ends on it.
pub proof fn law_alignment_is_exact(px: int, k: int, n: int)
    requires
        k >= 0,
        n >= 0,
    ensures
        (6 * k * n) % 2 == 0,
        pen_x(px, k, n, Align::Center) + (6 * k * n) / 2 == px,
        pen_x(px, k, n, Align::Right) + 6 * k * n == px,
        pen_x(px, k, n, Align::Left) == px,
{
    assert(6 * k * n == 2 * (3 * k * n)) by (nonlinear_arith);
}

/// A run without descenders sits on its baseline: every pixel it lights is
/// in the `6k` rows directly above the baseline row, never on or below it.
pub proof fn law_ink_sits_on_the_baseline(
    text: Seq<u8>,
    pen: int,
    base: int,
    k: int,
    dims: (u32, u32),
    x: int,
    y: int,
)
    requires
        k >= 1,
        forall|i: int| 0 <= i < text.len() ==> 0x20 <= #[trigger] text[i] <= 0x7E && !is_descender(text[i]),
        run_lights(text, pen, base, k, dims, x, y),
    ensures
        base - 6 * k <= y < base,
{
    let (i, r, c) = choose|i: int, r: int, c: int| #[trigger]
        lit(text, i, r, c) && in_block(pen, base, k, i, r, c, x, y);
    law_only_known_descenders(text[i]);
    assert(r != 6) by {
        if r == 6 {
            assert(glyph_of(text[i])[6] & (0x10u8 >> (c as u8)) != 0);
            assert(glyph_of(text[i])[6] == 0);
            assert(0u8 & (0x10u8 >> (c as u8)) == 0) by (bit_vector);
        }
    }
    assert(base + (r - 6) * k + k <= base && base - 6 * k <= base + (r - 6) * k) by (nonlinear_arith)
        requires
            0 <= r < 6,
            k >= 1,
    ;
}

/// The coverage invariant at a point of the run walk.
pub open spec fn covers_before(
    tiles: Seq<Tile>,
    text: Seq<u8>,
    pen: int,
    base: int,
    k: int,
    dims: (u32, u32),
    i: int,
    r: int,
    c: int,
) -> bool {
    forall|x: int, y: int|
        #[trigger] covered(tiles, x, y) <==> (0 <= x < dims.0 && 0 <= y < dims.1 && exists|
            i2: int,
            r2: int,
            c2: int,
        |
            #[trigger] lit(text, i2, r2, c2) && before(i2, r2, c2, i, r, c) && in_block(
                pen,
                base,
                k,
                i2,
                r2,
                c2,
                x,
                y,
            ))
}

proof fn lemma_skip_block(
    tiles: Seq<Tile>,
    text: Seq<u8>,
    pen: int,
    base: int,
    k: int,
    dims: (u32, u32),
    i: int,
    r: int,
    c: int,
)
    requires
        covers_before(tiles, text, pen, base, k, dims, i, r, c),
        !lit(text, i, r, c),
    ensures
        covers_before(tiles, text, pen, base, k, dims, i, r, c + 1),
{
    assert forall|x: int, y: int| #[trigger] covered(tiles, x, y) <==> (0 <= x < dims.0 && 0 <= y
        < dims.1 && exists|i2: int, r2: int, c2: int|
        #[trigger] lit(text, i2, r2, c2) && before(i2, r2, c2, i, r, c + 1) && in_block(
            pen,
            base,
            k,
            i2,
            r2,
            c2,
            x,
            y,
        )) by {
        if exists|i2: int, r2: int, c2: int|
            #[trigger] lit(text, i2, r2, c2) && before(i2, r2, c2, i, r, c + 1) && in_block(
                pen,
                base,
                k,
                i2,
                r2,
                c2,
                x,
                y,
            ) {
            let (i2, r2, c2) = choose|i2: int, r2: int, c2: int|
                #[trigger] lit(text, i2, r2, c2) && before(i2, r2, c2, i, r, c + 1) && in_block(
                    pen,
                    base,
                    k,
                    i2,
                    r2,
                    c2,
                    x,
                    y,
                );
            assert(before(i2, r2, c2, i, r, c));
        }
    }
}

proof fn lemma_push_block(
    old_tiles: Seq<Tile>,
    tiles: Seq<Tile>,
    t: Option<Tile>,
    text: Seq<u8>,
    pen: int,
    base: int,
    k: int,
    dims: (u32, u32),
    i: int,
    r: int,
    c: int,
)
    requires
        k >= 1,
        covers_before(old_tiles, text, pen, base, k, dims, i, r, c),
        pairwise_disjoint(old_tiles),
        on_canvas(old_tiles, dims),
        lit(text, i, r, c),
        t == crate::ppm::tile_of(
            clamp(pen + (6 * i + c) * k, 0, dims.0 as int),
            clamp(base + (r - 6) * k, 0, dims.1 as int),
            clamp(pen + (6 * i + c) * k + k, 0, dims.0 as int),
            clamp(base + (r - 6) * k + k, 0, dims.1 as int),
        ),
        t matches Some(tt) ==> tiles == old_tiles.push(tt),
        t is None ==> tiles == old_tiles,
    ensures
        covers_before(tiles, text, pen, base, k, dims, i, r, c + 1),
        pairwise_disjoint(tiles),
        on_canvas(tiles, dims),
{
    // The new block, clipped to the canvas, covers exactly its on-canvas pixels.
    assert forall|x: int, y: int| #[trigger] covered(tiles, x, y) <==> (0 <= x < dims.0 && 0 <= y
        < dims.1 && exists|i2: int, r2: int, c2: int|
        #[trigger] lit(text, i2, r2, c2) && before(i2, r2, c2, i, r, c + 1) && in_block(
            pen,
            base,
            k,
            i2,
            r2,
            c2,
            x,
            y,
        )) by {
        let here = 0 <= x < dims.0 && 0 <= y < dims.1 && in_block(pen, base, k, i, r, c, x, y);
        if covered(tiles, x, y) {
            let j = choose|j: int| 0 <= j < tiles.len() && #[trigger] tiles[j].contains(x, y);
            if j < old_tiles.len() {
                assert(old_tiles[j] == tiles[j]);
                assert(covered(old_tiles, x, y));
                let (i2, r2, c2) = choose|i2: int, r2: int, c2: int|
                    #[trigger] lit(text, i2, r2, c2) && before(i2, r2, c2, i, r, c) && in_block(
                        pen,
                        base,
                        k,
                        i2,
                        r2,
                        c2,
                        x,
                        y,
                    );
                assert(before(i2, r2, c2, i, r, c + 1));
            } else {
                assert(here);
                assert(lit(text, i, r, c) && before(i, r, c, i, r, c + 1));
            }
        }
        if 0 <= x < dims.0 && 0 <= y < dims.1 && exists|i2: int, r2: int, c2: int|
            #[trigger] lit(text, i2, r2, c2) && before(i2, r2, c2, i, r, c + 1) && in_block(
                pen,
                base,
                k,
                i2,
                r2,
                c2,
                x,
                y,
            ) {
            let (i2, r2, c2) = choose|i2: int, r2: int, c2: int|
                #[trigger] lit(text, i2, r2, c2) && before(i2, r2, c2, i, r, c + 1) && in_block(
                    pen,
                    base,
                    k,
                    i2,
                    r2,
                    c2,
                    x,
                    y,
                );
            if before(i2, r2, c2, i, r, c) {
                assert(covered(old_tiles, x, y));
                let j = choose|j: int|
                    0 <= j < old_tiles.len() && #[trigger] old_tiles[j].contains(x, y);
                assert(tiles[j] == old_tiles[j]);
                assert(covered(tiles, x, y));
            } else {
                assert(i2 == i && r2 == r && c2 == c);
                let tt = t.unwrap();
                assert(tt.contains(x, y));
                assert(tiles[old_tiles.len() as int] == tt);
                assert(covered(tiles, x, y));
            }
        }
    }
    // The new tile shares no pixel with an earlier one: an earlier tile's
    // pixel lies in the block of an earlier font pixel.
    if let Some(tt) = t {
        assert forall|a: int, b: int, x: int, y: int|
            0 <= a < tiles.len() && 0 <= b < tiles.len() && a != b && #[trigger] tiles[a].contains(
                x,
                y,
            ) implies !#[trigger] tiles[b].contains(x, y) by {
            let last = old_tiles.len() as int;
            if a < last && b < last {
                assert(tiles[a] == old_tiles[a] && tiles[b] == old_tiles[b]);
            } else {
                let other = if a == last { b } else { a };
                if tiles[b].contains(x, y) {
                    assert(tiles[other] == old_tiles[other]);
                    assert(old_tiles[other].contains(x, y));
                    assert(covered(old_tiles, x, y));
                    let (i2, r2, c2) = choose|i2: int, r2: int, c2: int|
                        #[trigger] lit(text, i2, r2, c2) && before(i2, r2, c2, i, r, c)
                            && in_block(pen, base, k, i2, r2, c2, x, y);
                    assert(tt.contains(x, y));
                    assert(in_block(pen, base, k, i, r, c, x, y));
                    lemma_blocks_are_disjoint(pen, base, k, i, r, c, i2, r2, c2, x, y);
                }
            }
        }
    }
}

proof fn lemma_next_row(
    tiles: Seq<Tile>,
    text: Seq<u8>,
    pen: int,
    base: int,
    k: int,
    dims: (u32, u32),
    i: int,
    r: int,
)
    requires
        covers_before(tiles, text, pen, base, k, dims, i, r, 5),
    ensures
        covers_before(tiles, text, pen, base, k, dims, i, r + 1, 0),
{
    assert forall|i2: int, r2: int, c2: int| #[trigger]
        lit(text, i2, r2, c2) implies before(i2, r2, c2, i, r, 5) == before(
        i2,
        r2,
        c2,
        i,
        r + 1,
        0,
    ) by {}
}

proof fn lemma_next_glyph(
    tiles: Seq<Tile>,
    text: Seq<u8>,
    pen: int,
    base: int,
    k: int,
    dims: (u32, u32),
    i: int,
)
    requires
        covers_before(tiles, text, pen, base, k, dims, i, 7, 0),
    ensures
        covers_before(tiles, text, pen, base, k, dims, i + 1, 0, 0),
{
    assert forall|i2: int, r2: int, c2: int| #[trigger]
        lit(text, i2, r2, c2) implies before(i2, r2, c2, i, 7, 0) == before(
        i2,
        r2,
        c2,
        i + 1,
        0,
        0,
    ) by {}
}

} // verus!
