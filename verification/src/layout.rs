//! Positions of the keys of a split 52-key board in its chain of lights.

use vstd::prelude::*;

verus! {

/// Number of rows of the key matrix.
pub const LAYOUT_ROWS: usize = 5;

/// Number of columns of the key matrix.
pub const LAYOUT_COLS: usize = 12;

/// Number of lights in the chain; every real index is below it.
pub const KEY_COUNT: usize = 52;

/// Entry of a matrix position behind which no key sits.
pub const UNUSED: usize = 60;

/// The index of the light under the key in column `x` of row `y`.
///
/// The four upper rows hold six keys per half: the left half counts
/// from 0, the right half from 26, row by row. The bottom row holds the
/// two thumb keys of each half in its four middle columns. The inner left
/// thumb key answers to 26, as does the first key of the right half.
pub open spec fn layout_index(x: int, y: int) -> int
    recommends
        0 <= x < LAYOUT_COLS,
        0 <= y < LAYOUT_ROWS,
{
    if y < 4 {
        if x < 6 {
            6 * y + x
        } else {
            26 + 6 * y + (x - 6)
        }
    } else if x == 4 {
        24
    } else if x == 5 {
        26
    } else if x == 6 {
        50
    } else if x == 7 {
        51
    } else {
        UNUSED as int
    }
}

/// Every position of the matrix holds the index of a light or `UNUSED`.
pub proof fn lemma_layout_index_in_range(x: int, y: int)
    requires
        0 <= x < LAYOUT_COLS,
        0 <= y < LAYOUT_ROWS,
    ensures
        0 <= layout_index(x, y) < KEY_COUNT || layout_index(x, y) == UNUSED,
{
}

/// Looks up the light of the key in column `x` of row `y`.
pub fn pos_to_voyager(x: u16, y: u16) -> (index: usize)
    requires
        x < LAYOUT_COLS,
        y < LAYOUT_ROWS,
    ensures
        index == layout_index(x as int, y as int),
        index < KEY_COUNT || index == UNUSED,
{
    let table: [[usize; 12]; 5] = [
        [0, 1, 2, 3, 4, 5, 26, 27, 28, 29, 30, 31],
        [6, 7, 8, 9, 10, 11, 32, 33, 34, 35, 36, 37],
        [12, 13, 14, 15, 16, 17, 38, 39, 40, 41, 42, 43],
        [18, 19, 20, 21, 22, 23, 44, 45, 46, 47, 48, 49],
        [60, 60, 60, 60, 24, 26, 50, 51, 60, 60, 60, 60],
    ];
    table[y as usize][x as usize]
}

} // verus!
