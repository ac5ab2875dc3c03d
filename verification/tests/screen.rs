use pcd68_display::error::ConfigError;
use pcd68_display::font::GlyphSource;
use pcd68_display::frame::FrameSize;
use pcd68_display::glyph::Glyph;
use pcd68_display::layout::Cursor;
use pcd68_display::pixel::Pixel;
use pcd68_display::screen::{Screen, CHAR_HEIGHT, CHAR_WIDTH, HEIGHT, TEXT_COLS, TEXT_ROWS, WIDTH};

fn block_font(width: usize, height: usize) -> GlyphSource {
    let mut font = GlyphSource::new(Glyph::new(width, height, vec![false; width * height]).unwrap());
    font.insert('#', Glyph::new(width, height, vec![true; width * height]).unwrap()).unwrap();
    font
}

fn pixel_at(buffer: &[u8], width: usize, x: usize, y: usize) -> [u8; 4] {
    let at = (y * width + x) * 4;
    [buffer[at], buffer[at + 1], buffer[at + 2], buffer[at + 3]]
}

#[test]
fn default_sizes_fit_with_one_row_of_slack() {
    assert_eq!((WIDTH, HEIGHT), (400, 300));
    assert_eq!((TEXT_ROWS, TEXT_COLS), (23, 80));
    assert_eq!((CHAR_WIDTH, CHAR_HEIGHT), (5, 13));
    assert_eq!(TEXT_COLS * CHAR_WIDTH, WIDTH);
    assert_eq!(TEXT_ROWS * CHAR_HEIGHT + 1, HEIGHT);
    let frame = FrameSize { width: WIDTH, height: HEIGHT };
    let screen = Screen::new(frame, TEXT_ROWS, TEXT_COLS, block_font(CHAR_WIDTH, CHAR_HEIGHT)).unwrap();
    assert_eq!(screen.frame(), frame);
    assert_eq!((screen.grid().rows(), screen.grid().cols()), (23, 80));
    assert_eq!((screen.glyphs().width(), screen.glyphs().height()), (5, 13));
}

#[test]
fn new_screen_is_blank() {
    let screen = Screen::new(FrameSize { width: 8, height: 8 }, 2, 3, block_font(2, 3)).unwrap();
    assert_eq!(screen.grid().row(0), Some(vec![' ', ' ', ' ']));
    assert_eq!(screen.grid().row(1), Some(vec![' ', ' ', ' ']));
    let mut buffer = vec![7u8; 8 * 8 * 4];
    assert_eq!(screen.draw(&mut buffer), Ok(()));
    for y in 0..8 {
        for x in 0..8 {
            let expected = if x < 6 && y < 6 { [255, 255, 255, 255] } else { [7, 7, 7, 7] };
            assert_eq!(pixel_at(&buffer, 8, x, y), expected);
        }
    }
}

#[test]
fn grid_wider_than_the_frame_is_refused() {
    let frame = FrameSize { width: 400, height: 300 };
    assert_eq!(Screen::new(frame, 23, 81, block_font(5, 13)).err(), Some(ConfigError::GridTooWide));
    assert_eq!(Screen::new(frame, 23, 80, block_font(6, 13)).err(), Some(ConfigError::GridTooWide));
    assert_eq!(
        Screen::new(frame, 23, usize::MAX, block_font(5, 13)).err(),
        Some(ConfigError::GridTooWide)
    );
    assert_eq!(Screen::new(frame, 24, 81, block_font(5, 13)).err(), Some(ConfigError::GridTooWide));
    assert!(Screen::new(frame, 23, 80, block_font(5, 13)).is_ok());
    assert!(Screen::new(frame, 23, 79, block_font(5, 13)).is_ok());
}

#[test]
fn grid_taller_than_the_frame_is_refused() {
    let frame = FrameSize { width: 400, height: 300 };
    assert_eq!(Screen::new(frame, 24, 80, block_font(5, 13)).err(), Some(ConfigError::GridTooTall));
    assert_eq!(Screen::new(frame, 23, 80, block_font(5, 14)).err(), Some(ConfigError::GridTooTall));
    assert_eq!(
        Screen::new(frame, usize::MAX, 80, block_font(5, 13)).err(),
        Some(ConfigError::GridTooTall)
    );
    let exact = FrameSize { width: 400, height: 299 };
    assert!(Screen::new(exact, 23, 80, block_font(5, 13)).is_ok());
    let short = FrameSize { width: 400, height: 298 };
    assert_eq!(Screen::new(short, 23, 80, block_font(5, 13)).err(), Some(ConfigError::GridTooTall));
}

#[test]
fn grid_that_cannot_be_stored_is_refused() {
    let frame = FrameSize { width: 400, height: 300 };
    assert_eq!(
        Screen::new(frame, usize::MAX, usize::MAX, block_font(0, 0)).err(),
        Some(ConfigError::GridTooLarge)
    );
    assert_eq!(
        Screen::new(frame, usize::MAX, 1, block_font(1, 0)).err(),
        Some(ConfigError::GridTooLarge)
    );
    assert!(Screen::new(frame, 4, 4, block_font(0, 0)).is_ok());
}

#[test]
fn update_text_buffer_lays_the_text_out() {
    let mut screen = Screen::new(FrameSize { width: 4, height: 4 }, 2, 2, block_font(2, 2)).unwrap();
    let end = screen.update_text_buffer("ab\ncd");
    assert_eq!(end, Cursor { row: 1, col: 2 });
    assert_eq!(screen.grid().row(0), Some(vec!['a', 'b']));
    assert_eq!(screen.grid().row(1), Some(vec!['c', 'd']));
    let end = screen.update_text_buffer("x");
    assert_eq!(end, Cursor { row: 0, col: 1 });
    assert_eq!(screen.grid().row(0), Some(vec!['x', 'b']));
    assert_eq!(screen.grid().row(1), Some(vec!['c', 'd']));
}

#[test]
fn update_changes_nothing() {
    let mut screen = Screen::new(FrameSize { width: 4, height: 4 }, 2, 2, block_font(2, 2)).unwrap();
    screen.update_text_buffer("#\n #");
    let mut before = vec![7u8; 64];
    screen.draw(&mut before).unwrap();
    screen.update();
    let mut after = vec![7u8; 64];
    screen.draw(&mut after).unwrap();
    assert_eq!(before, after);
    assert_eq!(screen.grid().row(0), Some(vec!['#', ' ']));
    assert_eq!(screen.grid().row(1), Some(vec![' ', '#']));
}

#[test]
fn draw_paints_black_ink_on_white() {
    let mut screen = Screen::new(FrameSize { width: 4, height: 2 }, 1, 2, block_font(2, 2)).unwrap();
    screen.update_text_buffer(" #");
    let mut buffer = vec![7u8; 32];
    assert_eq!(screen.draw(&mut buffer), Ok(()));
    for y in 0..2 {
        assert_eq!(pixel_at(&buffer, 4, 0, y), [255, 255, 255, 255]);
        assert_eq!(pixel_at(&buffer, 4, 1, y), [255, 255, 255, 255]);
        assert_eq!(pixel_at(&buffer, 4, 2, y), [0, 0, 0, 255]);
        assert_eq!(pixel_at(&buffer, 4, 3, y), [0, 0, 0, 255]);
    }
}

#[test]
fn set_colours_changes_what_draw_paints() {
    let mut screen = Screen::new(FrameSize { width: 2, height: 1 }, 1, 2, block_font(1, 1)).unwrap();
    screen.update_text_buffer("# ");
    screen.set_colours(Pixel::new(10, 20, 30, 40), Pixel::new(50, 60, 70, 80));
    let mut buffer = vec![0u8; 8];
    screen.draw(&mut buffer).unwrap();
    assert_eq!(buffer, vec![10, 20, 30, 40, 50, 60, 70, 80]);
    assert_eq!(screen.grid().row(0), Some(vec!['#', ' ']));
}

#[test]
fn draw_refuses_a_short_buffer() {
    let mut screen = Screen::new(FrameSize { width: 4, height: 2 }, 1, 2, block_font(2, 2)).unwrap();
    screen.update_text_buffer("##");
    let mut buffer = vec![7u8; 31];
    assert_eq!(screen.draw(&mut buffer), Err(ConfigError::BufferTooShort));
    assert_eq!(buffer, vec![7u8; 31]);
}

#[test]
fn render_lays_out_then_draws() {
    let mut screen = Screen::new(FrameSize { width: 2, height: 2 }, 2, 2, block_font(1, 1)).unwrap();
    let mut buffer = vec![7u8; 16];
    assert_eq!(screen.render("#\n #", &mut buffer), Ok(()));
    assert_eq!(
        buffer,
        vec![0, 0, 0, 255, 255, 255, 255, 255, 255, 255, 255, 255, 0, 0, 0, 255]
    );
    assert_eq!(screen.grid().row(0), Some(vec!['#', ' ']));
    assert_eq!(screen.grid().row(1), Some(vec![' ', '#']));
}

#[test]
fn render_with_a_short_buffer_still_lays_the_text_out() {
    let mut screen = Screen::new(FrameSize { width: 2, height: 2 }, 2, 2, block_font(1, 1)).unwrap();
    let mut buffer = vec![7u8; 15];
    assert_eq!(screen.render("ab", &mut buffer), Err(ConfigError::BufferTooShort));
    assert_eq!(buffer, vec![7u8; 15]);
    assert_eq!(screen.grid().row(0), Some(vec!['a', 'b']));
}

#[test]
fn rendering_the_same_text_twice_gives_the_same_frame() {
    let mut screen = Screen::new(FrameSize { width: 6, height: 4 }, 2, 3, block_font(2, 2)).unwrap();
    let mut first = vec![7u8; 6 * 4 * 4];
    screen.render("#a#\n##", &mut first).unwrap();
    let mut second = first.clone();
    screen.render("#a#\n##", &mut second).unwrap();
    assert_eq!(first, second);
}
