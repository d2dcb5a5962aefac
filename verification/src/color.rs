//! Colours written as six hexadecimal digits.

use vstd::std_specs::iter::IteratorSpec;
use vstd::prelude::*;

verus! {

/// Why a text is not a colour.
#[derive(Debug, Clone, Copy, PartialEq, Eq, Structural)]
pub enum ParseError {
    /// The text ends before the two digits of a byte.
    TooShort,
    /// One of the two characters of a byte is not a hexadecimal digit.
    InvalidDigit,
}

/// Whether `c` is one of `0` to `9`, `a` to `f` or `A` to `F`.
pub open spec fn is_hex_digit(c: char) -> bool {
    ('0' <= c && c <= '9') || ('a' <= c && c <= 'f') || ('A' <= c && c <= 'F')
}

/// What the hexadecimal digit `c` is worth: 0 to 15.
pub open spec fn hex_digit_value(c: char) -> int
    recommends
        is_hex_digit(c),
{
    if '0' <= c && c <= '9' {
        c as int - '0' as int
    } else if 'a' <= c && c <= 'f' {
        c as int - 'a' as int + 10
    } else {
        c as int - 'A' as int + 10
    }
}

/// `text` without the `#` signs at its start.
pub open spec fn strip_hashes(text: Seq<char>) -> Seq<char>
    decreases text.len(),
{
    if text.len() > 0 && text[0] == '#' {
        strip_hashes(text.drop_first())
    } else {
        text
    }
}

/// The byte that the two characters of `digits` from position `at` on
/// spell. A sign is no digit: `+f` spells nothing.
pub open spec fn hex_byte(digits: Seq<char>, at: int) -> Result<u8, ParseError> {
    if digits.len() < at + 2 {
        Err(ParseError::TooShort)
    } else if !is_hex_digit(digits[at]) || !is_hex_digit(digits[at + 1]) {
        Err(ParseError::InvalidDigit)
    } else {
        Ok((16 * hex_digit_value(digits[at]) + hex_digit_value(digits[at + 1])) as u8)
    }
}

/// The colour that `text` spells: behind any `#` signs, two digits each
/// for red, green and blue. The bytes are read in this order and the first
/// one that cannot be read decides the error. What follows the six digits
/// is not looked at.
pub open spec fn decode_hex(text: Seq<char>) -> Result<(u8, u8, u8), ParseError> {
    let digits = strip_hashes(text);
    match hex_byte(digits, 0) {
        Err(e) => Err(e),
        Ok(r) => match hex_byte(digits, 2) {
            Err(e) => Err(e),
            Ok(g) => match hex_byte(digits, 4) {
                Err(e) => Err(e),
                Ok(b) => Ok((r, g, b)),
            },
        },
    }
}

/// Whether `text` is a colour: behind its `#` signs stand at least six
/// characters, and the first six are hexadecimal digits.
pub open spec fn is_color(text: Seq<char>) -> bool {
    let digits = strip_hashes(text);
    digits.len() >= 6 && forall|i: int| 0 <= i < 6 ==> is_hex_digit(#[trigger] digits[i])
}

/// Two hexadecimal digits always fit a byte.
pub proof fn lemma_hex_byte_range(digits: Seq<char>, at: int)
    requires
        0 <= at,
        at + 2 <= digits.len(),
        is_hex_digit(digits[at]),
        is_hex_digit(digits[at + 1]),
    ensures
        0 <= 16 * hex_digit_value(digits[at]) + hex_digit_value(digits[at + 1]) <= 255,
        hex_byte(digits, at) == Ok::<u8, ParseError>(
            (16 * hex_digit_value(digits[at]) + hex_digit_value(digits[at + 1])) as u8,
        ),
{
}

/// `text` without its first `k` characters is `strip_hashes(text)` when
/// those are all `#` and the next one, if there is one, is not.
pub proof fn lemma_strip_hashes_skip(text: Seq<char>, k: int)
    requires
        0 <= k <= text.len(),
        forall|i: int| 0 <= i < k ==> text[i] == '#',
        k < text.len() ==> text[k] != '#',
    ensures
        strip_hashes(text) == text.skip(k),
    decreases k,
{
    if k == 0 {
        assert(text.skip(0) =~= text);
    } else {
        lemma_strip_hashes_skip(text.drop_first(), k - 1);
        assert(text.drop_first().skip(k - 1) =~= text.skip(k));
    }
}

/// A `#` sign in front changes nothing: with it and without it a text
/// spells the same colour, or fails in the same way.
pub proof fn lemma_hash_prefix_is_ignored(text: Seq<char>)
    ensures
        decode_hex(seq!['#'] + text) == decode_hex(text),
{
    assert((seq!['#'] + text).drop_first() =~= text);
}

/// A text spells a colour if and only if it is one; every other text is
/// refused.
pub proof fn lemma_decode_hex_succeeds_iff_color(text: Seq<char>)
    ensures
        decode_hex(text) is Ok <==> is_color(text),
        decode_hex(text) is Err <==> !is_color(text),
{
    let digits = strip_hashes(text);
    if is_color(text) {
        assert(is_hex_digit(digits[0]) && is_hex_digit(digits[1]));
        assert(is_hex_digit(digits[2]) && is_hex_digit(digits[3]));
        assert(is_hex_digit(digits[4]) && is_hex_digit(digits[5]));
    }
}

/// Characters added at the end of a text stay behind what is left of it
/// without its `#` signs, as long as something is left.
pub proof fn lemma_strip_hashes_append(text: Seq<char>, rest: Seq<char>)
    requires
        strip_hashes(text).len() > 0,
    ensures
        strip_hashes(text + rest) == strip_hashes(text) + rest,
    decreases text.len(),
{
    if text[0] == '#' {
        assert((text + rest).drop_first() =~= text.drop_first() + rest);
        lemma_strip_hashes_append(text.drop_first(), rest);
    }
}

/// What follows the six digits does not matter.
pub proof fn lemma_decode_hex_ignores_rest(text: Seq<char>, rest: Seq<char>)
    requires
        strip_hashes(text).len() >= 6,
    ensures
        decode_hex(text + rest) == decode_hex(text),
{
    lemma_strip_hashes_append(text, rest);
}

/// The worth of `c` if it is a hexadecimal digit.
fn hex_digit(c: char) -> (d: Option<u8>)
    ensures
        is_hex_digit(c) ==> d == Some(hex_digit_value(c) as u8),
        !is_hex_digit(c) ==> d.is_none(),
        d matches Some(v) ==> v < 16,
{
    if '0' <= c && c <= '9' {
        Some(c as u8 - '0' as u8)
    } else if 'a' <= c && c <= 'f' {
        Some(c as u8 - 'a' as u8 + 10)
    } else if 'A' <= c && c <= 'F' {
        Some(c as u8 - 'A' as u8 + 10)
    } else {
        None
    }
}

/// The byte that two characters spell, of which either may be missing.
fn byte_of(high: Option<char>, low: Option<char>) -> (byte: Result<u8, ParseError>)
    ensures
        byte == match (high, low) {
            (Some(h), Some(l)) => hex_byte(seq![h, l], 0),
            _ => Err(ParseError::TooShort),
        },
{
    match (high, low) {
        (Some(h), Some(l)) => {
            match (hex_digit(h), hex_digit(l)) {
                (Some(a), Some(b)) => Ok(16 * a + b),
                _ => Err(ParseError::InvalidDigit),
            }
        },
        _ => Err(ParseError::TooShort),
    }
}

/// Reads a colour written as `RRGGBB` or `#RRGGBB`, in either case of
/// the letters.
pub fn hex_to_rgb(hex: &str) -> (rgb: Result<(u8, u8, u8), ParseError>)
    ensures
        rgb == decode_hex(hex@),
{
    let mut chars = hex.chars();
    let mut first = chars.next();
    let ghost mut k: int = 0;
    while first == Some('#')
        invariant
            0 <= k <= hex@.len(),
            forall|i: int| 0 <= i < k ==> hex@[i] == '#',
            chars.obeys_prophetic_iter_laws(),
            first matches Some(c) ==> k < hex@.len() && hex@[k] == c && chars.remaining()
                == hex@.skip(k + 1),
            first is None ==> k == hex@.len() && chars.remaining().len() == 0,
        decreases hex@.len() - k,
    {
        first = chars.next();
        proof {
            k = k + 1;
        }
    }
    proof {
        lemma_strip_hashes_skip(hex@, k);
    }
    let second = chars.next();
    let red = byte_of(first, second)?;
    let third = chars.next();
    let fourth = chars.next();
    let green = byte_of(third, fourth)?;
    let fifth = chars.next();
    let sixth = chars.next();
    let blue = byte_of(fifth, sixth)?;
    Ok((red, green, blue))
}

} // verus!
