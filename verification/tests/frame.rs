use raycaster::{clear, draw_vertical_line, wall_strip, Axis, Column, MaterialTable, RayHit, Screen, Strip};

#[test]
fn wall_strip_is_centred_and_clamped() {
    assert_eq!(wall_strip(100, 480), Strip { start: 190, end: 290 });
    assert_eq!(wall_strip(101, 480), Strip { start: 190, end: 290 });
    assert_eq!(wall_strip(0, 480), Strip { start: 240, end: 240 });
    assert_eq!(wall_strip(1, 480), Strip { start: 240, end: 240 });
    assert_eq!(wall_strip(478, 480), Strip { start: 1, end: 479 });
    assert_eq!(wall_strip(480, 480), Strip { start: 0, end: 479 });
    assert_eq!(wall_strip(1000, 480), Strip { start: 0, end: 479 });
    assert_eq!(wall_strip(i32::MAX, 480), Strip { start: 0, end: 479 });
    assert_eq!(wall_strip(3, 7), Strip { start: 2, end: 4 });
    assert_eq!(wall_strip(5, 1), Strip { start: 0, end: 0 });
    assert_eq!(wall_strip(2, u32::MAX), Strip { start: 2147483646, end: 2147483648 });
}

#[test]
fn nearer_walls_get_taller_strips() {
    let height = 480u32;
    let mut last = wall_strip(0, height);
    for line_height in 1..1200 {
        let strip = wall_strip(line_height, height);
        assert!(strip.start <= last.start && last.end <= strip.end);
        assert!(strip.start <= strip.end && strip.end < height as usize);
        last = strip;
    }
    // The projection of a wall is the screen height divided by its distance.
    let mut previous = i32::MAX;
    for tenths in 1..200 {
        let distance = tenths as f32 / 10.0;
        let line_height = (height as f32 / distance) as i32;
        assert!(line_height <= previous);
        previous = line_height;
    }
}

#[test]
fn clear_zeroes_every_byte() {
    let mut frame = vec![7u8; 24];
    clear(&mut frame);
    assert_eq!(frame, vec![0u8; 24]);
    let mut none: Vec<u8> = vec![];
    clear(&mut none);
    assert!(none.is_empty());
}

#[test]
fn draw_vertical_line_paints_one_column() {
    // Three pixels wide, four rows.
    let mut frame = vec![0u8; 3 * 4 * 4];
    draw_vertical_line(1, 1, 2, [1, 2, 3, 4], &mut frame, 3);
    let mut expected = vec![0u8; 48];
    expected[16..20].copy_from_slice(&[1, 2, 3, 4]);
    expected[28..32].copy_from_slice(&[1, 2, 3, 4]);
    assert_eq!(frame, expected);
}

#[test]
fn draw_vertical_line_keeps_what_it_does_not_paint() {
    let mut frame: Vec<u8> = (0..48).collect();
    draw_vertical_line(2, 0, 3, [200, 201, 202, 203], &mut frame, 3);
    for (i, byte) in frame.iter().enumerate() {
        let (pixel, channel) = (i / 4, i % 4);
        if pixel % 3 == 2 {
            assert_eq!(*byte as usize, 200 + channel);
        } else {
            assert_eq!(*byte as usize, i);
        }
    }
}

#[test]
fn draw_vertical_line_with_the_ends_swapped_paints_nothing() {
    let mut frame = vec![9u8; 48];
    draw_vertical_line(0, 2, 1, [1, 2, 3, 4], &mut frame, 3);
    assert_eq!(frame, vec![9u8; 48]);
    draw_vertical_line(0, 3, 3, [1, 2, 3, 4], &mut frame, 3);
    assert_eq!(&frame[36..40], &[1, 2, 3, 4]);
    assert_eq!(&frame[..36], &[9u8; 36][..]);
    assert_eq!(&frame[40..], &[9u8; 8][..]);
}

#[test]
fn frame_bytes_is_four_per_pixel() {
    assert_eq!(Screen { height: 480, width: 640 }.frame_bytes(), Some(1_228_800));
    assert_eq!(Screen { height: 0, width: 640 }.frame_bytes(), Some(0));
    assert_eq!(Screen { height: 3, width: 1 }.frame_bytes(), Some(12));
    assert_eq!(Screen { height: u32::MAX, width: u32::MAX }.frame_bytes(), None);
}

#[test]
fn paint_column_fills_the_strip_of_its_column() {
    let screen = Screen { height: 6, width: 2 };
    let mut frame = vec![0u8; 48];
    screen.paint_column(&mut frame, 1, 3, [9, 8, 7, 6]);
    // Rows 2 to 4 of column 1.
    for row in 0..6 {
        for col in 0..2 {
            let at = (row * 2 + col) * 4;
            let expected = if col == 1 && (2..=4).contains(&row) { [9, 8, 7, 6] } else { [0, 0, 0, 0] };
            assert_eq!(&frame[at..at + 4], &expected, "pixel ({}, {})", col, row);
        }
    }
    screen.paint_column(&mut frame, 0, 100, [1, 1, 1, 1]);
    for row in 0..6 {
        assert_eq!(&frame[row * 8..row * 8 + 4], &[1, 1, 1, 1]);
    }
}

#[test]
fn paint_column_on_a_screen_without_rows_does_nothing() {
    let screen = Screen { height: 0, width: 5 };
    let mut frame: Vec<u8> = vec![];
    screen.paint_column(&mut frame, 2, 10, [1, 2, 3, 4]);
    assert!(frame.is_empty());
}

#[test]
fn paint_hit_shades_by_side() {
    let screen = Screen { height: 4, width: 2 };
    let table = MaterialTable::new();
    let mut frame = vec![0u8; 32];
    screen.paint_hit(&mut frame, 0, 4, &RayHit { x: 3, y: 3, side: Axis::X, material: 1 }, &table);
    screen.paint_hit(&mut frame, 1, 2, &RayHit { x: 3, y: 3, side: Axis::Y, material: 1 }, &table);
    for row in 0..4 {
        assert_eq!(&frame[row * 8..row * 8 + 4], &[0x5e, 0x48, 0xe8, 0xff]);
        let expected = if (1..=3).contains(&row) { [0x2f, 0x24, 0x74, 0xff] } else { [0, 0, 0, 0] };
        assert_eq!(&frame[row * 8 + 4..row * 8 + 8], &expected);
    }
    screen.paint_hit(&mut frame, 1, 0, &RayHit { x: 0, y: 0, side: Axis::X, material: 77 }, &table);
    assert_eq!(&frame[2 * 8 + 4..2 * 8 + 8], &[0xff, 0x00, 0xff, 0xff]);
}

#[test]
fn paint_frame_shows_each_column_in_its_place() {
    let screen = Screen { height: 6, width: 3 };
    let mut table = MaterialTable::new();
    table.add([200, 100, 50, 255]);
    let columns = [
        Column { line_height: 6, hit: RayHit { x: 4, y: 1, side: Axis::X, material: 1 } },
        Column { line_height: 2, hit: RayHit { x: 4, y: 2, side: Axis::Y, material: 2 } },
        Column { line_height: 0, hit: RayHit { x: 4, y: 3, side: Axis::X, material: 9 } },
    ];
    // What was in the frame before does not show.
    let mut frame = vec![0xabu8; 6 * 3 * 4];
    screen.paint_frame(&mut frame, &columns, &table);
    let strips = [(0, 5, [0x5e, 0x48, 0xe8, 0xff]), (2, 4, [100, 50, 25, 255]), (3, 3, [0xff, 0x00, 0xff, 0xff])];
    for row in 0..6 {
        for col in 0..3 {
            let (start, end, color) = strips[col];
            let at = (row * 3 + col) * 4;
            let expected = if start <= row && row <= end { color } else { [0, 0, 0, 0] };
            assert_eq!(&frame[at..at + 4], &expected, "pixel ({}, {})", col, row);
        }
    }
    // Drawing the same columns again gives the same frame.
    let first = frame.clone();
    screen.paint_frame(&mut frame, &columns, &table);
    assert_eq!(frame, first);
}

#[test]
fn paint_frame_of_an_empty_screen_paints_nothing() {
    let table = MaterialTable::new();
    let mut frame: Vec<u8> = vec![];
    Screen { height: 4, width: 0 }.paint_frame(&mut frame, &[], &table);
    assert!(frame.is_empty());
    let column = Column { line_height: 3, hit: RayHit { x: 0, y: 0, side: Axis::X, material: 1 } };
    Screen { height: 0, width: 2 }.paint_frame(&mut frame, &[column, column], &table);
    assert!(frame.is_empty());
}
