use pixelbuf::font::{
    glyph, Glyph, GLYPH_HEIGHT, GLYPH_WIDTH, LETTER_A, LETTER_B, LETTER_R, LETTER_S, SPACE,
    UNDERSCORE, UNKNOWN,
};
use pixelbuf::raster::{rasterize, text_to_px, LINE_CELLS};

const FONT: &str = " _01234abcdefghijklmnopqrstuvwxz";

#[test]
fn glyphs_are_four_by_four() {
    assert_eq!(GLYPH_WIDTH, 4);
    assert_eq!(GLYPH_HEIGHT, 4);
    let g: Glyph = glyph('a');
    assert_eq!(g.len(), GLYPH_HEIGHT);
    assert_eq!(g[0].len(), GLYPH_WIDTH);
}

#[test]
fn some_glyphs() {
    assert_eq!(glyph(' '), [[0, 0, 0, 0], [0, 0, 0, 0], [0, 0, 0, 0], [0, 0, 0, 0]]);
    assert_eq!(glyph('_'), [[0, 0, 0, 0], [0, 0, 0, 0], [0, 0, 0, 0], [1, 1, 1, 0]]);
    assert_eq!(glyph('0'), [[1, 1, 1, 0], [1, 0, 1, 0], [1, 0, 1, 0], [1, 1, 1, 0]]);
    assert_eq!(glyph('a'), [[0, 1, 1, 0], [1, 0, 1, 0], [1, 0, 1, 0], [0, 1, 1, 0]]);
    assert_eq!(glyph('b'), [[1, 0, 0, 0], [1, 1, 0, 0], [1, 0, 1, 0], [1, 1, 1, 0]]);
    assert_eq!(glyph('z'), [[1, 1, 1, 0], [0, 0, 1, 0], [0, 1, 0, 0], [1, 1, 1, 0]]);
    assert_eq!(glyph(' '), SPACE);
    assert_eq!(glyph('_'), UNDERSCORE);
    assert_eq!(glyph('a'), LETTER_A);
}

#[test]
fn r_and_s_have_glyphs_of_their_own() {
    assert_eq!(glyph('r'), [[1, 0, 1, 0], [1, 1, 0, 0], [1, 0, 0, 0], [1, 0, 0, 0]]);
    assert_eq!(glyph('s'), [[0, 1, 1, 0], [1, 1, 0, 0], [0, 0, 1, 0], [1, 1, 0, 0]]);
    assert_eq!(glyph('r'), LETTER_R);
    assert_eq!(glyph('s'), LETTER_S);
    assert_ne!(glyph('r'), glyph('s'));
}

#[test]
fn no_two_characters_share_a_glyph() {
    let chars: Vec<char> = FONT.chars().collect();
    assert_eq!(chars.len(), 32);
    for (i, a) in chars.iter().enumerate() {
        assert_ne!(glyph(*a), UNKNOWN, "{:?} looks like the filled block", a);
        for b in &chars[i + 1..] {
            assert_ne!(glyph(*a), glyph(*b), "{:?} and {:?} look alike", a, b);
        }
    }
}

#[test]
fn every_pixel_is_dark_or_lit() {
    for c in FONT.chars().chain("y5?é".chars()) {
        for row in glyph(c) {
            for pixel in row {
                assert!(pixel == 0 || pixel == 1);
            }
        }
    }
}

#[test]
fn characters_without_a_glyph_are_a_filled_block() {
    assert_eq!(UNKNOWN, [[1, 1, 1, 0], [1, 1, 1, 0], [1, 1, 1, 0], [1, 1, 1, 0]]);
    for c in ['y', '5', '9', 'A', 'Z', '?', '#', '\n', '\0', 'é', '€', '😀'] {
        assert_eq!(glyph(c), UNKNOWN, "{:?}", c);
    }
}

#[test]
fn rasterize_gives_one_glyph_for_each_character() {
    assert_eq!(rasterize(""), Vec::<Glyph>::new());
    assert_eq!(rasterize("ab"), vec![LETTER_A, LETTER_B]);
    assert_eq!(rasterize("a b_"), vec![LETTER_A, SPACE, LETTER_B, UNDERSCORE]);
}

#[test]
fn a_character_of_several_bytes_is_one_cell() {
    assert_eq!("aé€😀b".len(), 11);
    assert_eq!(rasterize("aé€😀b"), vec![LETTER_A, UNKNOWN, UNKNOWN, UNKNOWN, LETTER_B]);
}

#[test]
fn an_unknown_character_keeps_its_place() {
    assert_eq!(rasterize("a?b"), vec![LETTER_A, UNKNOWN, LETTER_B]);
    assert_eq!(rasterize("Y"), vec![UNKNOWN]);
}

#[test]
fn text_to_px_holds_the_frame_of_the_text_over_a_dark_display() {
    assert_eq!(LINE_CELLS, 3);
    let buf = text_to_px("a");
    // Against a dark display exactly the lit pixels of the glyph are pending.
    assert_eq!(
        buf.pending_changes(),
        vec![(1, 0, 1), (2, 0, 1), (0, 1, 1), (2, 1, 1), (0, 2, 1), (2, 2, 1), (1, 3, 1), (2, 3, 1)]
    );
    assert_eq!(text_to_px("").pending_changes(), vec![]);
    assert_eq!(text_to_px("   ").pending_changes(), vec![]);
}

#[test]
fn text_to_px_calls_are_independent() {
    let first = text_to_px("a");
    let second = text_to_px("b");
    assert_eq!(first.pending_changes(), text_to_px("a").pending_changes());
    assert_ne!(first.pending_changes(), second.pending_changes());
}
