use pixelbuf::font::{Glyph, LETTER_A, LETTER_B, SPACE, UNKNOWN};
use pixelbuf::diff::PixelChange;
use pixelbuf::pixel_buf::PixelBuf;
use pixelbuf::raster::{rasterize, text_to_px};
use std::cell::RefCell;

/// Walks the buffer and returns what the callback was given, in order.
fn walk<const L: usize>(buf: &mut PixelBuf<u16, 4, 4, L>) -> Vec<PixelChange<u16>> {
    let seen = RefCell::new(Vec::new());
    buf.foreach_px(|x, y, v| seen.borrow_mut().push((x, y, v)));
    seen.into_inner()
}

/// Renders a frame and returns what the callback was given, in order.
fn show<const L: usize>(
    buf: &mut PixelBuf<u16, 4, 4, L>,
    frame: Vec<Glyph>,
) -> Vec<PixelChange<u16>> {
    let seen = RefCell::new(Vec::new());
    buf.render(frame, |x, y, v| seen.borrow_mut().push((x, y, v)));
    seen.into_inner()
}

const CHANGES_OF_A: [(usize, usize, u16); 8] =
    [(1, 0, 1), (2, 0, 1), (0, 1, 1), (2, 1, 1), (0, 2, 1), (2, 2, 1), (1, 3, 1), (2, 3, 1)];

const CHANGES_OF_B: [(usize, usize, u16); 8] =
    [(0, 0, 1), (0, 1, 1), (1, 1, 1), (0, 2, 1), (2, 2, 1), (0, 3, 1), (1, 3, 1), (2, 3, 1)];

#[test]
fn a_new_buffer_is_dark_and_empty() {
    let mut buf: PixelBuf<u16, 4, 4, 3> = PixelBuf::new();
    assert_eq!(buf.pending_changes(), vec![]);
    assert_eq!(walk(&mut buf), vec![]);
    // Dark: a frame of spaces changes nothing, a lit pixel does.
    assert_eq!(show(&mut buf, vec![SPACE, SPACE, SPACE]), vec![]);
    let mut dot = SPACE;
    dot[0][0] = 1;
    assert_eq!(show(&mut buf, vec![dot]), vec![(0, 0, 1)]);
}

#[test]
fn filled_starts_from_the_given_value() {
    let mut buf: PixelBuf<u16, 4, 4, 2> = PixelBuf::filled(1);
    // Over a display of ones, the filled block differs in its last column.
    assert_eq!(show(&mut buf, vec![UNKNOWN]), vec![(3, 0, 0), (3, 1, 0), (3, 2, 0), (3, 3, 0)]);
}

#[test]
fn end_to_end_ab() {
    let mut buf: PixelBuf<u16, 4, 4, 2> = PixelBuf::new();
    let seen = show(&mut buf, rasterize("ab"));
    let mut expected: Vec<PixelChange<u16>> = CHANGES_OF_A.to_vec();
    expected.extend(CHANGES_OF_B.iter().map(|&(x, y, v)| (x + 4, y, v)));
    assert_eq!(seen, expected);
    assert_eq!(seen.len(), 16);
    // One call for each lit pixel, none for a dark one.
    assert!(seen.iter().all(|&(_, _, v)| v == 1));
    assert!(seen[..8].iter().all(|&(x, _, _)| x < 4));
    assert!(seen[8..].iter().all(|&(x, _, _)| (4..8).contains(&x)));
}

#[test]
fn text_to_px_then_walk() {
    let mut buf = text_to_px("ab");
    let pending = buf.pending_changes();
    let seen = walk(&mut buf);
    assert_eq!(seen, pending);
    assert_eq!(seen.len(), 16);
    assert_eq!(seen[0], (1, 0, 1));
    assert_eq!(seen[8], (4, 0, 1));
}

#[test]
fn the_callback_gets_what_was_pending() {
    let mut buf: PixelBuf<u16, 4, 4, 3> = PixelBuf::new();
    buf.set_frame(rasterize("z_4"));
    let pending = buf.pending_changes();
    assert_eq!(buf.pending_changes(), pending);
    assert_eq!(walk(&mut buf), pending);
    assert_eq!(buf.pending_changes(), vec![]);
}

#[test]
fn set_frame_keeps_what_is_shown() {
    let mut buf: PixelBuf<u16, 4, 4, 3> = PixelBuf::new();
    assert_eq!(show(&mut buf, rasterize("a")).len(), 8);
    buf.set_frame(rasterize("a"));
    assert_eq!(buf.pending_changes(), vec![]);
    buf.set_frame(rasterize(" "));
    let back: Vec<PixelChange<u16>> = CHANGES_OF_A.iter().map(|&(x, y, _)| (x, y, 0)).collect();
    assert_eq!(buf.pending_changes(), back);
}

#[test]
fn rendering_the_same_frame_again_is_silent() {
    let mut buf: PixelBuf<u16, 4, 4, 3> = PixelBuf::new();
    assert_eq!(show(&mut buf, rasterize("abc")).len(), 8 + 8 + 6);
    assert_eq!(show(&mut buf, rasterize("abc")), vec![]);
    assert_eq!(walk(&mut buf), vec![]);
    assert_eq!(walk(&mut buf), vec![]);
}

#[test]
fn rendering_a_long_frame_again_is_silent() {
    let mut buf: PixelBuf<u16, 4, 4, 2> = PixelBuf::new();
    assert_eq!(show(&mut buf, rasterize("abcd")).len(), 16);
    assert_eq!(show(&mut buf, rasterize("abcd")), vec![]);
}

#[test]
fn one_changed_pixel_gives_one_call() {
    let frame = rasterize("abc");
    for cell in 0..3 {
        for y in 0..4 {
            for x in 0..4 {
                let mut buf: PixelBuf<u16, 4, 4, 3> = PixelBuf::new();
                show(&mut buf, frame.clone());
                let mut next = frame.clone();
                next[cell][y][x] = 7;
                assert_eq!(show(&mut buf, next), vec![(x + 4 * cell, y, 7)]);
            }
        }
    }
}

#[test]
fn one_pixel_switched_off() {
    let mut buf: PixelBuf<u16, 4, 4, 3> = PixelBuf::new();
    show(&mut buf, vec![LETTER_A, LETTER_B]);
    let mut b = LETTER_B;
    b[2][2] = 0;
    assert_eq!(show(&mut buf, vec![LETTER_A, b]), vec![(6, 2, 0)]);
}

#[test]
fn a_change_beyond_the_capacity_gives_no_call() {
    let frame = rasterize("abcd");
    let mut buf: PixelBuf<u16, 4, 4, 3> = PixelBuf::new();
    show(&mut buf, frame.clone());
    let mut next = frame.clone();
    next[3][1][1] = 7;
    assert_eq!(show(&mut buf, next), vec![]);
}

#[test]
fn only_cells_within_the_capacity_are_walked() {
    let mut buf: PixelBuf<u16, 4, 4, 3> = PixelBuf::new();
    let seen = show(&mut buf, rasterize("aaaaaa"));
    assert_eq!(seen.len(), 3 * 8);
    assert!(seen.iter().all(|&(x, _, _)| x < 3 * 4));
    let mut short: PixelBuf<u16, 4, 4, 3> = PixelBuf::new();
    assert_eq!(show(&mut short, rasterize("aaa")), seen);
}

#[test]
fn no_cell_at_the_capacity_is_touched() {
    let mut buf: PixelBuf<u16, 4, 4, 1> = PixelBuf::new();
    let seen = show(&mut buf, rasterize("ab"));
    assert_eq!(seen, CHANGES_OF_A.to_vec());
    let mut none: PixelBuf<u16, 4, 4, 0> = PixelBuf::new();
    assert_eq!(show(&mut none, rasterize("ab")), vec![]);
    assert_eq!(none.pending_changes(), vec![]);
}

#[test]
fn a_shorter_frame_leaves_the_other_cells_as_shown() {
    let mut buf: PixelBuf<u16, 4, 4, 3> = PixelBuf::new();
    show(&mut buf, rasterize("ab"));
    // The new frame has one cell: the second cell is not walked and stays
    // remembered as `b`.
    assert_eq!(show(&mut buf, rasterize("a")), vec![]);
    assert_eq!(show(&mut buf, rasterize("ab")), vec![]);
    let dark_b: Vec<PixelChange<u16>> =
        CHANGES_OF_B.iter().map(|&(x, y, _)| (x + 4, y, 0)).collect();
    assert_eq!(show(&mut buf, rasterize("a ")), dark_b);
}

#[test]
fn changes_come_cell_by_cell_row_by_row_left_to_right() {
    let mut buf: PixelBuf<u16, 2, 3, 2> = PixelBuf::filled(0);
    buf.set_frame(vec![[[1, 2], [3, 4], [5, 6]], [[7, 8], [9, 10], [11, 12]]]);
    assert_eq!(
        buf.pending_changes(),
        vec![
            (0, 0, 1),
            (1, 0, 2),
            (0, 1, 3),
            (1, 1, 4),
            (0, 2, 5),
            (1, 2, 6),
            (2, 0, 7),
            (3, 0, 8),
            (2, 1, 9),
            (3, 1, 10),
            (2, 2, 11),
            (3, 2, 12),
        ]
    );
}

#[test]
fn pixels_may_have_more_than_two_levels() {
    let mut buf: PixelBuf<u8, 1, 1, 1> = PixelBuf::new();
    let seen = RefCell::new(Vec::new());
    for level in [0u8, 3, 3, 200, 0] {
        buf.render(vec![[[level]]], |x, y, v| seen.borrow_mut().push((x, y, v)));
    }
    assert_eq!(seen.into_inner(), vec![(0, 0, 3), (0, 0, 200), (0, 0, 0)]);
}
