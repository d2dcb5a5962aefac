//! The font: a 4×4 picture for each character that the display can show.

use vstd::prelude::*;

verus! {

/// Width of a glyph in pixels.
pub const GLYPH_WIDTH: usize = 4;

/// Height of a glyph in pixels.
pub const GLYPH_HEIGHT: usize = 4;

/// The picture of one character: four rows of four pixels from top to
/// bottom, each row from left to right, 1 for a lit pixel and 0 for a dark
/// one.
pub type Glyph = [[u16; 4]; 4];

/// The space: nothing is lit.
pub const SPACE: Glyph = [
    [0, 0, 0, 0],
    [0, 0, 0, 0],
    [0, 0, 0, 0],
    [0, 0, 0, 0],
];

/// The filled block that stands for every character without a glyph.
pub const UNKNOWN: Glyph = [
    [1, 1, 1, 0],
    [1, 1, 1, 0],
    [1, 1, 1, 0],
    [1, 1, 1, 0],
];

/// The underscore.
pub const UNDERSCORE: Glyph = [
    [0, 0, 0, 0],
    [0, 0, 0, 0],
    [0, 0, 0, 0],
    [1, 1, 1, 0],
];

/// The digit `0`.
pub const DIGIT_0: Glyph = [
    [1, 1, 1, 0],
    [1, 0, 1, 0],
    [1, 0, 1, 0],
    [1, 1, 1, 0],
];

/// The digit `1`.
pub const DIGIT_1: Glyph = [
    [0, 1, 0, 0],
    [1, 1, 0, 0],
    [0, 1, 0, 0],
    [1, 1, 1, 0],
];

/// The digit `2`.
pub const DIGIT_2: Glyph = [
    [1, 1, 0, 0],
    [0, 0, 1, 0],
    [0, 1, 0, 0],
    [1, 1, 1, 0],
];

/// The digit `3`.
pub const DIGIT_3: Glyph = [
    [1, 1, 1, 0],
    [0, 0, 1, 0],
    [0, 1, 1, 0],
    [1, 1, 1, 0],
];

/// The digit `4`.
pub const DIGIT_4: Glyph = [
    [1, 0, 1, 0],
    [1, 0, 1, 0],
    [1, 1, 1, 0],
    [0, 0, 1, 0],
];

/// The letter `a`.
pub const LETTER_A: Glyph = [
    [0, 1, 1, 0],
    [1, 0, 1, 0],
    [1, 0, 1, 0],
    [0, 1, 1, 0],
];

/// The letter `b`.
pub const LETTER_B: Glyph = [
    [1, 0, 0, 0],
    [1, 1, 0, 0],
    [1, 0, 1, 0],
    [1, 1, 1, 0],
];

/// The letter `c`.
pub const LETTER_C: Glyph = [
    [0, 1, 1, 0],
    [1, 0, 0, 0],
    [1, 0, 0, 0],
    [0, 1, 1, 0],
];

/// The letter `d`.
pub const LETTER_D: Glyph = [
    [0, 0, 1, 0],
    [0, 1, 1, 0],
    [1, 0, 1, 0],
    [0, 1, 1, 0],
];

/// The letter `e`.
pub const LETTER_E: Glyph = [
    [0, 1, 1, 0],
    [1, 0, 1, 0],
    [1, 1, 0, 0],
    [0, 1, 1, 0],
];

/// The letter `f`.
pub const LETTER_F: Glyph = [
    [0, 1, 1, 0],
    [0, 1, 0, 0],
    [1, 1, 1, 0],
    [0, 1, 0, 0],
];

/// The letter `g`.
pub const LETTER_G: Glyph = [
    [0, 1, 1, 0],
    [1, 0, 1, 0],
    [0, 1, 1, 0],
    [1, 1, 0, 0],
];

/// The letter `h`.
pub const LETTER_H: Glyph = [
    [1, 0, 0, 0],
    [1, 1, 1, 0],
    [1, 0, 1, 0],
    [1, 0, 1, 0],
];

/// The letter `i`.
pub const LETTER_I: Glyph = [
    [1, 0, 0, 0],
    [0, 0, 0, 0],
    [1, 0, 0, 0],
    [1, 0, 0, 0],
];

/// The letter `j`.
pub const LETTER_J: Glyph = [
    [0, 1, 0, 0],
    [0, 0, 0, 0],
    [0, 1, 0, 0],
    [1, 0, 0, 0],
];

/// The letter `k`.
pub const LETTER_K: Glyph = [
    [1, 0, 0, 0],
    [1, 0, 1, 0],
    [1, 1, 0, 0],
    [1, 0, 1, 0],
];

/// The letter `l`.
pub const LETTER_L: Glyph = [
    [1, 0, 0, 0],
    [1, 0, 0, 0],
    [1, 0, 0, 0],
    [1, 1, 0, 0],
];

/// The letter `m`.
pub const LETTER_M: Glyph = [
    [1, 0, 1, 0],
    [1, 1, 1, 0],
    [1, 0, 1, 0],
    [1, 0, 1, 0],
];

/// The letter `n`.
pub const LETTER_N: Glyph = [
    [0, 0, 0, 0],
    [1, 1, 0, 0],
    [1, 0, 1, 0],
    [1, 0, 1, 0],
];

/// The letter `o`.
pub const LETTER_O: Glyph = [
    [0, 1, 0, 0],
    [1, 0, 1, 0],
    [1, 0, 1, 0],
    [0, 1, 0, 0],
];

/// The letter `p`.
pub const LETTER_P: Glyph = [
    [1, 1, 0, 0],
    [1, 0, 1, 0],
    [1, 1, 0, 0],
    [1, 0, 0, 0],
];

/// The letter `q`.
pub const LETTER_Q: Glyph = [
    [0, 1, 1, 0],
    [1, 0, 1, 0],
    [0, 1, 1, 0],
    [0, 0, 1, 0],
];

/// The letter `r`.
pub const LETTER_R: Glyph = [
    [1, 0, 1, 0],
    [1, 1, 0, 0],
    [1, 0, 0, 0],
    [1, 0, 0, 0],
];

/// The letter `s`.
pub const LETTER_S: Glyph = [
    [0, 1, 1, 0],
    [1, 1, 0, 0],
    [0, 0, 1, 0],
    [1, 1, 0, 0],
];

/// The letter `t`.
pub const LETTER_T: Glyph = [
    [0, 1, 0, 0],
    [1, 1, 1, 0],
    [0, 1, 0, 0],
    [0, 1, 1, 0],
];

/// The letter `u`.
pub const LETTER_U: Glyph = [
    [1, 0, 1, 0],
    [1, 0, 1, 0],
    [1, 0, 1, 0],
    [0, 1, 1, 0],
];

/// The letter `v`.
pub const LETTER_V: Glyph = [
    [1, 0, 1, 0],
    [1, 0, 1, 0],
    [1, 0, 1, 0],
    [0, 1, 0, 0],
];

/// The letter `w`.
pub const LETTER_W: Glyph = [
    [1, 0, 1, 0],
    [1, 0, 1, 0],
    [1, 1, 1, 0],
    [1, 0, 1, 0],
];

/// The letter `x`.
pub const LETTER_X: Glyph = [
    [1, 0, 1, 0],
    [0, 1, 0, 0],
    [1, 0, 1, 0],
    [1, 0, 1, 0],
];

/// The letter `z`.
pub const LETTER_Z: Glyph = [
    [1, 1, 1, 0],
    [0, 0, 1, 0],
    [0, 1, 0, 0],
    [1, 1, 1, 0],
];

/// Whether the font has a glyph for `c`: the space, the underscore, the
/// digits `0` to `4`, and the lower-case letters but `y`.
pub open spec fn has_glyph(c: char) -> bool {
    c == ' ' || c == '_' || ('0' <= c && c <= '4') || ('a' <= c && c <= 'x') || c == 'z'
}

/// The glyph that stands for `c`. Each character of the font has a glyph
/// of its own; every other character is shown as `UNKNOWN`.
pub open spec fn glyph_of(c: char) -> Glyph {
    match c {
        ' ' => SPACE,
        '_' => UNDERSCORE,
        '0' => DIGIT_0,
        '1' => DIGIT_1,
        '2' => DIGIT_2,
        '3' => DIGIT_3,
        '4' => DIGIT_4,
        'a' => LETTER_A,
        'b' => LETTER_B,
        'c' => LETTER_C,
        'd' => LETTER_D,
        'e' => LETTER_E,
        'f' => LETTER_F,
        'g' => LETTER_G,
        'h' => LETTER_H,
        'i' => LETTER_I,
        'j' => LETTER_J,
        'k' => LETTER_K,
        'l' => LETTER_L,
        'm' => LETTER_M,
        'n' => LETTER_N,
        'o' => LETTER_O,
        'p' => LETTER_P,
        'q' => LETTER_Q,
        'r' => LETTER_R,
        's' => LETTER_S,
        't' => LETTER_T,
        'u' => LETTER_U,
        'v' => LETTER_V,
        'w' => LETTER_W,
        'x' => LETTER_X,
        'z' => LETTER_Z,
        _ => UNKNOWN,
    }
}

/// Looks up the glyph of `c`. There is a glyph for every character.
pub fn glyph(c: char) -> (g: Glyph)
    ensures
        g == glyph_of(c),
{
    match c {
        ' ' => SPACE,
        '_' => UNDERSCORE,
        '0' => DIGIT_0,
        '1' => DIGIT_1,
        '2' => DIGIT_2,
        '3' => DIGIT_3,
        '4' => DIGIT_4,
        'a' => LETTER_A,
        'b' => LETTER_B,
        'c' => LETTER_C,
        'd' => LETTER_D,
        'e' => LETTER_E,
        'f' => LETTER_F,
        'g' => LETTER_G,
        'h' => LETTER_H,
        'i' => LETTER_I,
        'j' => LETTER_J,
        'k' => LETTER_K,
        'l' => LETTER_L,
        'm' => LETTER_M,
        'n' => LETTER_N,
        'o' => LETTER_O,
        'p' => LETTER_P,
        'q' => LETTER_Q,
        'r' => LETTER_R,
        's' => LETTER_S,
        't' => LETTER_T,
        'u' => LETTER_U,
        'v' => LETTER_V,
        'w' => LETTER_W,
        'x' => LETTER_X,
        'z' => LETTER_Z,
        _ => UNKNOWN,
    }
}

/// The sixteen pixels of a glyph read as one binary number, the top left
/// pixel first.
#[verifier::opaque]
spec fn glyph_bits(g: Glyph) -> int {
    row_bits(g[0]) * 4096 + row_bits(g[1]) * 256 + row_bits(g[2]) * 16 + row_bits(g[3])
}

/// The four pixels of a row read as one binary number.
spec fn row_bits(row: [u16; 4]) -> int {
    row[0] * 8 + row[1] * 4 + row[2] * 2 + row[3]
}

/// The number of each glyph of the font. No number occurs twice.
proof fn lemma_glyph_bits()
    ensures
        glyph_bits(SPACE) == 0x0000,
        glyph_bits(UNKNOWN) == 0xeeee,
        glyph_bits(UNDERSCORE) == 0x000e,
        glyph_bits(DIGIT_0) == 0xeaae,
        glyph_bits(DIGIT_1) == 0x4c4e,
        glyph_bits(DIGIT_2) == 0xc24e,
        glyph_bits(DIGIT_3) == 0xe26e,
        glyph_bits(DIGIT_4) == 0xaae2,
        glyph_bits(LETTER_A) == 0x6aa6,
        glyph_bits(LETTER_B) == 0x8cae,
        glyph_bits(LETTER_C) == 0x6886,
        glyph_bits(LETTER_D) == 0x26a6,
        glyph_bits(LETTER_E) == 0x6ac6,
        glyph_bits(LETTER_F) == 0x64e4,
        glyph_bits(LETTER_G) == 0x6a6c,
        glyph_bits(LETTER_H) == 0x8eaa,
        glyph_bits(LETTER_I) == 0x8088,
        glyph_bits(LETTER_J) == 0x4048,
        glyph_bits(LETTER_K) == 0x8aca,
        glyph_bits(LETTER_L) == 0x888c,
        glyph_bits(LETTER_M) == 0xaeaa,
        glyph_bits(LETTER_N) == 0x0caa,
        glyph_bits(LETTER_O) == 0x4aa4,
        glyph_bits(LETTER_P) == 0xcac8,
        glyph_bits(LETTER_Q) == 0x6a62,
        glyph_bits(LETTER_R) == 0xac88,
        glyph_bits(LETTER_S) == 0x6c2c,
        glyph_bits(LETTER_T) == 0x4e46,
        glyph_bits(LETTER_U) == 0xaaa6,
        glyph_bits(LETTER_V) == 0xaaa4,
        glyph_bits(LETTER_W) == 0xaaea,
        glyph_bits(LETTER_X) == 0xa4aa,
        glyph_bits(LETTER_Z) == 0xe24e,
{
    reveal(glyph_bits);
}

/// Every pixel of every glyph is either dark or lit.
pub proof fn lemma_glyph_is_binary(c: char, y: int, x: int)
    requires
        0 <= y < GLYPH_HEIGHT,
        0 <= x < GLYPH_WIDTH,
    ensures
        glyph_of(c)[y][x] == 0 || glyph_of(c)[y][x] == 1,
{
}

/// A character without a glyph of its own is shown as the filled block.
pub proof fn lemma_unknown_fallback(c: char)
    requires
        !has_glyph(c),
    ensures
        glyph_of(c) == UNKNOWN,
{
}

/// No character of the font is shown as the filled block.
pub proof fn lemma_glyph_is_not_unknown(c: char)
    requires
        has_glyph(c),
    ensures
        glyph_of(c) != UNKNOWN,
{
    lemma_glyph_bits();
}

/// No two characters of the font share a glyph.
pub proof fn lemma_glyphs_distinct(a: char, b: char)
    requires
        has_glyph(a),
        has_glyph(b),
        a != b,
    ensures
        glyph_of(a) != glyph_of(b),
{
    lemma_glyph_bits();
}

} // verus!
