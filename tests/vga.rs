use kernel::vga_buffer::{Color, ColorCode, ScreenChar, Writer, BUFFER_HEIGHT, BUFFER_WIDTH};

fn cell(b: u8, code: ColorCode) -> ScreenChar {
    ScreenChar { ascii_character: b, color_code: code }
}

#[test]
fn color_code_packs_background_high() {
    assert_eq!(ColorCode::new(Color::LightGreen, Color::Black).0, 0x0a);
    assert_eq!(ColorCode::new(Color::White, Color::Blue).0, 0x1f);
    assert_eq!(Color::Pink.number(), 13);
}

#[test]
fn write_byte_fills_bottom_row() {
    let code = ColorCode::new(Color::Yellow, Color::Red);
    let mut w = Writer::new(code);
    w.write_byte(b'h');
    w.write_byte(b'i');
    assert_eq!(w.char_at(BUFFER_HEIGHT - 1, 0), cell(b'h', code));
    assert_eq!(w.char_at(BUFFER_HEIGHT - 1, 1), cell(b'i', code));
    assert_eq!(w.char_at(BUFFER_HEIGHT - 1, 2), cell(b' ', code));
    assert_eq!(w.char_at(0, 0), cell(b' ', code));
}

#[test]
fn new_line_scrolls_up() {
    let code = ColorCode::new(Color::LightGreen, Color::Black);
    let mut w = Writer::new(code);
    w.write_str(b"ab\ncd");
    assert_eq!(w.char_at(BUFFER_HEIGHT - 2, 0), cell(b'a', code));
    assert_eq!(w.char_at(BUFFER_HEIGHT - 2, 1), cell(b'b', code));
    assert_eq!(w.char_at(BUFFER_HEIGHT - 1, 0), cell(b'c', code));
    assert_eq!(w.char_at(BUFFER_HEIGHT - 1, 1), cell(b'd', code));
    assert_eq!(w.char_at(BUFFER_HEIGHT - 1, 2), cell(b' ', code));
}

#[test]
fn full_row_wraps() {
    let code = ColorCode::new(Color::LightGreen, Color::Black);
    let mut w = Writer::new(code);
    for _ in 0..BUFFER_WIDTH {
        w.write_byte(b'x');
    }
    w.write_byte(b'y');
    assert_eq!(w.char_at(BUFFER_HEIGHT - 2, BUFFER_WIDTH - 1), cell(b'x', code));
    assert_eq!(w.char_at(BUFFER_HEIGHT - 1, 0), cell(b'y', code));
    assert_eq!(w.char_at(BUFFER_HEIGHT - 1, 1), cell(b' ', code));
}

#[test]
fn written_byte_reads_back() {
    let code = ColorCode::new(Color::LightGreen, Color::Black);
    let mut w = Writer::new(code);
    w.write_byte(b'H');
    assert_eq!(w.column_position(), 1);
    assert_eq!(w.char_at(BUFFER_HEIGHT - 1, 0), ScreenChar { ascii_character: b'H', color_code: ColorCode(0x0a) });
}
