use pixelbuf::layout::{pos_to_voyager, KEY_COUNT, LAYOUT_COLS, LAYOUT_ROWS, UNUSED};

#[test]
fn the_table_has_five_rows_of_twelve() {
    assert_eq!(LAYOUT_ROWS, 5);
    assert_eq!(LAYOUT_COLS, 12);
    assert_eq!(KEY_COUNT, 52);
    assert_eq!(UNUSED, 60);
}

#[test]
fn every_position_is_a_light_or_unused() {
    for y in 0..LAYOUT_ROWS as u16 {
        for x in 0..LAYOUT_COLS as u16 {
            let index = pos_to_voyager(x, y);
            assert!(index < KEY_COUNT || index == UNUSED, "({}, {}) gives {}", x, y, index);
        }
    }
}

#[test]
fn the_whole_table() {
    let expected: [[usize; 12]; 5] = [
        [0, 1, 2, 3, 4, 5, 26, 27, 28, 29, 30, 31],
        [6, 7, 8, 9, 10, 11, 32, 33, 34, 35, 36, 37],
        [12, 13, 14, 15, 16, 17, 38, 39, 40, 41, 42, 43],
        [18, 19, 20, 21, 22, 23, 44, 45, 46, 47, 48, 49],
        [60, 60, 60, 60, 24, 26, 50, 51, 60, 60, 60, 60],
    ];
    for y in 0..5u16 {
        for x in 0..12u16 {
            assert_eq!(pos_to_voyager(x, y), expected[y as usize][x as usize]);
        }
    }
}

#[test]
fn the_halves_count_row_by_row() {
    assert_eq!(pos_to_voyager(0, 0), 0);
    assert_eq!(pos_to_voyager(5, 0), 5);
    assert_eq!(pos_to_voyager(0, 1), 6);
    assert_eq!(pos_to_voyager(5, 3), 23);
    assert_eq!(pos_to_voyager(6, 0), 26);
    assert_eq!(pos_to_voyager(11, 0), 31);
    assert_eq!(pos_to_voyager(6, 1), 32);
    assert_eq!(pos_to_voyager(11, 3), 49);
}

#[test]
fn the_thumb_keys() {
    assert_eq!(pos_to_voyager(4, 4), 24);
    assert_eq!(pos_to_voyager(5, 4), 26);
    assert_eq!(pos_to_voyager(6, 4), 50);
    assert_eq!(pos_to_voyager(7, 4), 51);
}

#[test]
fn unused_positions_can_be_skipped() {
    let mut lit = Vec::new();
    for x in 0..12u16 {
        let index = pos_to_voyager(x, 4);
        if index == UNUSED {
            continue;
        }
        lit.push(index);
    }
    assert_eq!(lit, vec![24, 26, 50, 51]);
}
