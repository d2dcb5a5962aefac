//! From a text to the frame that shows it.

use crate::diff::uniform_cell;
use crate::font::{
    glyph, glyph_of, has_glyph, Glyph, GLYPH_HEIGHT, GLYPH_WIDTH, SPACE, UNKNOWN,
};
use crate::pixel_buf::PixelBuf;
use vstd::prelude::*;

verus! {

/// Number of cells that the buffer of a text keeps track of.
pub const LINE_CELLS: usize = 3;

/// The frame that shows `text`: the glyph of each character, in the order
/// of the text.
pub open spec fn glyphs_of(text: Seq<char>) -> Seq<Glyph> {
    Seq::new(text.len(), |i: int| glyph_of(text[i]))
}

/// A character that the font does not have is shown as the filled block,
/// wherever in the text it stands.
pub proof fn lemma_unknown_char_in_text(text: Seq<char>, i: int)
    requires
        0 <= i < text.len(),
        !has_glyph(text[i]),
    ensures
        glyphs_of(text).len() == text.len(),
        glyphs_of(text)[i] == UNKNOWN,
{
}

/// Draws `text`, one cell for each of its characters.
pub fn rasterize(text: &str) -> (frame: Vec<Glyph>)
    ensures
        frame@ == glyphs_of(text@),
{
    let mut frame: Vec<Glyph> = Vec::new();
    for c in it: text.chars()
        invariant
            it.seq() == text@,
            frame@ == glyphs_of(text@.take(it.index())),
    {
        frame.push(glyph(c));
    }
    frame
}

/// A buffer that holds the frame of `text`, for a display that is dark.
pub fn text_to_px(text: &str) -> (buf: PixelBuf<u16, GLYPH_WIDTH, GLYPH_HEIGHT, LINE_CELLS>)
    ensures
        buf.frame() == glyphs_of(text@),
        buf.shown() == Seq::new(LINE_CELLS as nat, |i: int| SPACE),
{
    let mut buf = PixelBuf::filled(0u16);
    buf.set_frame(rasterize(text));
    proof {
        let dark: Glyph = uniform_cell(0u16);
        assert forall|y: int| 0 <= y < 4 implies dark[y] == SPACE[y] by {
            assert(dark[y] =~= SPACE[y]);
        }
        assert(dark =~= SPACE);
    }
    buf
}

} // verus!
