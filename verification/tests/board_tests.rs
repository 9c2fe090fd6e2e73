use rusty_snake::Board;
use rusty_snake::BoardBuilder;
use rusty_snake::Direction;
use rusty_snake::PixelCanvasError;
use rusty_snake::Position;
use rusty_snake::RGBA;
use rusty_snake::move_one;

fn pixel(board: &Board, row: u32, col: u32) -> (u8, u8, u8, u8) {
    let idx = ((board.pixel_width * row + col) * 4) as usize;
    (
        board.raw_buffer[idx],
        board.raw_buffer[idx + 1],
        board.raw_buffer[idx + 2],
        board.raw_buffer[idx + 3],
    )
}

#[test]
fn direction_reverse_is_total_bijection() {
    assert_eq!(Direction::N.reverse(), Direction::S);
    assert_eq!(Direction::S.reverse(), Direction::N);
    assert_eq!(Direction::E.reverse(), Direction::W);
    assert_eq!(Direction::W.reverse(), Direction::E);
    assert_eq!(Direction::N.reverse().reverse(), Direction::N);
}

#[test]
fn move_one_steps_one_cell() {
    let p = Position { x: 3, y: 5 };
    assert_eq!(move_one(p, Direction::N, 20, 20), Position { x: 3, y: 6 });
    assert_eq!(move_one(p, Direction::S, 20, 20), Position { x: 3, y: 4 });
    assert_eq!(move_one(p, Direction::E, 20, 20), Position { x: 4, y: 5 });
    assert_eq!(move_one(p, Direction::W, 20, 20), Position { x: 2, y: 5 });
}

#[test]
fn move_one_wraps_around_every_edge() {
    assert_eq!(
        move_one(Position { x: 19, y: 0 }, Direction::E, 20, 20),
        Position { x: 0, y: 0 }
    );
    assert_eq!(
        move_one(Position { x: 0, y: 7 }, Direction::W, 20, 20),
        Position { x: 19, y: 7 }
    );
    assert_eq!(
        move_one(Position { x: 4, y: 19 }, Direction::N, 20, 20),
        Position { x: 4, y: 0 }
    );
    assert_eq!(
        move_one(Position { x: 4, y: 0 }, Direction::S, 20, 20),
        Position { x: 4, y: 19 }
    );
}

#[test]
fn move_one_round_trip_over_whole_board() {
    let dirs = [Direction::N, Direction::E, Direction::S, Direction::W];
    for x in 0..20 {
        for y in 0..20 {
            let p = Position { x, y };
            for d in dirs {
                let there = move_one(p, d, 20, 20);
                assert!(there.x < 20 && there.y < 20);
                assert_eq!(move_one(there, d.reverse(), 20, 20), p);
            }
        }
    }
}

#[test]
fn builder_fills_buffer_with_background() {
    let board = BoardBuilder::new(2, 3, 4)
        .unwrap()
        .with_default_background_color(RGBA { r: 9, g: 8, b: 7, a: 6 })
        .unwrap()
        .build()
        .unwrap();
    assert_eq!(board.width, 2);
    assert_eq!(board.height, 3);
    assert_eq!(board.unit_size, 4);
    assert_eq!(board.pixel_width, 8);
    assert_eq!(board.pixel_height, 12);
    assert_eq!(board.raw_buffer.len(), 8 * 12 * 4);
    for p in 0..(8 * 12) {
        assert_eq!(board.raw_buffer[p * 4], 9);
        assert_eq!(board.raw_buffer[p * 4 + 1], 8);
        assert_eq!(board.raw_buffer[p * 4 + 2], 7);
        assert_eq!(board.raw_buffer[p * 4 + 3], 6);
    }
}

#[test]
fn builder_default_background_is_black() {
    let board = BoardBuilder::new(1, 1, 2).unwrap().build().unwrap();
    assert_eq!(board.raw_buffer, vec![0, 0, 0, 1, 0, 0, 0, 1, 0, 0, 0, 1, 0, 0, 0, 1]);
}

#[test]
fn builder_grid_adds_gutters_to_pixel_size() {
    let board = BoardBuilder::new(20, 20, 16)
        .unwrap()
        .with_grid(5, RGBA { r: 1, g: 2, b: 3, a: 4 })
        .unwrap()
        .build()
        .unwrap();
    assert_eq!(board.pixel_width, 20 * 16 + 21 * 5);
    assert_eq!(board.pixel_height, 425);
    assert_eq!(board.raw_buffer.len(), 425 * 425 * 4);
}

#[test]
fn builder_rejects_zero_dimensions() {
    let r = BoardBuilder::new(0, 5, 4).unwrap().build();
    assert!(matches!(r, Err(PixelCanvasError::InvalidDimensions)));
    let r = BoardBuilder::new(5, 0, 4).unwrap().build();
    assert!(matches!(r, Err(PixelCanvasError::InvalidDimensions)));
    let r = BoardBuilder::new(5, 5, 0).unwrap().build();
    assert!(matches!(r, Err(PixelCanvasError::InvalidDimensions)));
}

#[test]
fn builder_rejects_unaddressable_buffers() {
    let r = BoardBuilder::new(u32::MAX, u32::MAX, u32::MAX).unwrap().build();
    assert!(matches!(r, Err(PixelCanvasError::InvalidDimensions)));
    // 70000 * 70000 pixels would need more than 32-bit byte indexing
    let r = BoardBuilder::new(70000, 70000, 1).unwrap().build();
    assert!(matches!(r, Err(PixelCanvasError::InvalidDimensions)));
}

#[test]
fn clear_paints_background_and_grid_stripes() {
    // 2x2 cells of 2 pixels with a 1-pixel gutter: 7x7 pixels, stripes at
    // columns/rows 0, 3, and 6.
    let mut board = BoardBuilder::new(2, 2, 2)
        .unwrap()
        .with_grid(1, RGBA { r: 10, g: 20, b: 30, a: 40 })
        .unwrap()
        .with_default_background_color(RGBA { r: 200, g: 201, b: 202, a: 203 })
        .unwrap()
        .build()
        .unwrap();
    assert_eq!(board.pixel_width, 7);
    board.clear();
    for row in 0..7 {
        for col in 0..7 {
            let on_stripe = row % 3 == 0 || col % 3 == 0;
            let want = if on_stripe { (10, 20, 30, 40) } else { (200, 201, 202, 203) };
            assert_eq!(pixel(&board, row, col), want);
        }
    }
}

#[test]
fn clear_twice_leaves_the_same_buffer() {
    let mut board = BoardBuilder::new(3, 2, 4)
        .unwrap()
        .with_grid(2, RGBA { r: 1, g: 2, b: 3, a: 4 })
        .unwrap()
        .with_default_background_color(RGBA { r: 50, g: 60, b: 70, a: 80 })
        .unwrap()
        .build()
        .unwrap();
    // scribble over the buffer first, then clear
    Board::set_pixel_color(&mut board.raw_buffer, 0, &RGBA { r: 9, g: 9, b: 9, a: 9 });
    board.clear();
    let once = board.raw_buffer.clone();
    board.clear();
    assert_eq!(board.raw_buffer, once);
}

#[test]
fn draw_paints_exactly_one_cell_block() {
    // no grid: cell (1, 0) covers pixel columns 2..4 of rows 0..2
    let mut board = BoardBuilder::new(3, 3, 2)
        .unwrap()
        .with_default_background_color(RGBA { r: 0, g: 0, b: 0, a: 255 })
        .unwrap()
        .build()
        .unwrap();
    board.draw(Position { x: 1, y: 0 }, RGBA { r: 11, g: 22, b: 33, a: 44 });
    for row in 0..6 {
        for col in 0..6 {
            let inside = row < 2 && (2..4).contains(&col);
            let want = if inside { (11, 22, 33, 44) } else { (0, 0, 0, 255) };
            assert_eq!(pixel(&board, row, col), want);
        }
    }
}

#[test]
fn draw_with_grid_sits_inside_the_gutter_box() {
    // 1-pixel gutter, 2-pixel cells: cell (0, 0) covers rows 1..3, cols 1..3
    let mut board = BoardBuilder::new(2, 2, 2)
        .unwrap()
        .with_grid(1, RGBA { r: 5, g: 5, b: 5, a: 5 })
        .unwrap()
        .with_default_background_color(RGBA { r: 0, g: 0, b: 0, a: 0 })
        .unwrap()
        .build()
        .unwrap();
    board.clear();
    board.draw(Position { x: 0, y: 0 }, RGBA { r: 99, g: 98, b: 97, a: 96 });
    assert_eq!(pixel(&board, 1, 1), (99, 98, 97, 96));
    assert_eq!(pixel(&board, 2, 2), (99, 98, 97, 96));
    // the gutter around the cell keeps the grid color
    assert_eq!(pixel(&board, 0, 0), (5, 5, 5, 5));
    assert_eq!(pixel(&board, 0, 1), (5, 5, 5, 5));
    assert_eq!(pixel(&board, 3, 1), (5, 5, 5, 5));
    // the neighboring cell keeps the background
    assert_eq!(pixel(&board, 4, 4), (0, 0, 0, 0));
}

#[test]
fn set_pixel_color_writes_four_bytes_in_order() {
    let mut buffer = vec![7u8; 12];
    Board::set_pixel_color(&mut buffer, 4, &RGBA { r: 1, g: 2, b: 3, a: 4 });
    assert_eq!(buffer, vec![7, 7, 7, 7, 1, 2, 3, 4, 7, 7, 7, 7]);
}
