use bazos::out::keyboard::{key_action, KeyAction};
use bazos::out::vga::{
    BackgroundColor, ColorCode, ForegroundColor, Writer, _print, BUFFER_HEIGHT, BUFFER_WIDTH,
};

fn row_text(writer: &Writer, row: usize, len: usize) -> String {
    (0..len)
        .map(|col| writer.read(row, col).ascii_character as char)
        .collect()
}

#[test]
fn test_println_simple() {
    let mut writer = Writer::vga();
    writer.write_string("test_println_simple output\n");
    assert_eq!(row_text(&writer, BUFFER_HEIGHT - 2, 26), "test_println_simple output");
}

#[test]
fn test_println_many() {
    let mut writer = Writer::vga();
    for _ in 0..200 {
        writer.write_string("test_println_many output\n");
    }
    assert_eq!(row_text(&writer, BUFFER_HEIGHT - 2, 24), "test_println_many output");
    assert_eq!(row_text(&writer, 0, 24), "test_println_many output");
}

#[test]
fn test_println_output() {
    let s = "Some test string that fits on a single line";
    let mut writer = Writer::vga();
    writer.write_string("\n");
    writer.write_string(s);
    writer.write_string("\n");
    for (i, c) in s.chars().enumerate() {
        let screen_char = writer.read(BUFFER_HEIGHT - 2, i);
        assert_eq!(char::from(screen_char.ascii_character), c);
    }
}

#[test]
fn long_line_wraps() {
    let mut writer = Writer::vga();
    let line: String = std::iter::repeat('x').take(BUFFER_WIDTH + 3).collect();
    writer.write_string(&line);
    assert_eq!(row_text(&writer, BUFFER_HEIGHT - 2, BUFFER_WIDTH), "x".repeat(BUFFER_WIDTH));
    assert_eq!(row_text(&writer, BUFFER_HEIGHT - 1, 4), "xxx ");
}

#[test]
fn unprintable_bytes_show_as_squares() {
    let mut writer = Writer::vga();
    writer.write_string("a\u{e9}b");
    assert_eq!(writer.read(BUFFER_HEIGHT - 1, 0).ascii_character, b'a');
    assert_eq!(writer.read(BUFFER_HEIGHT - 1, 1).ascii_character, 0xfe);
    assert_eq!(writer.read(BUFFER_HEIGHT - 1, 2).ascii_character, 0xfe);
    assert_eq!(writer.read(BUFFER_HEIGHT - 1, 3).ascii_character, b'b');
}

#[test]
fn erase_steps_back() {
    let mut writer = Writer::vga();
    writer.write_string("ab");
    writer.erase();
    assert_eq!(writer.read(BUFFER_HEIGHT - 1, 1).ascii_character, b' ');
    assert_eq!(writer.read(BUFFER_HEIGHT - 1, 0).ascii_character, b'a');
    writer.write_byte(b'c');
    assert_eq!(row_text(&writer, BUFFER_HEIGHT - 1, 2), "ac");
    writer.erase();
    writer.erase();
    writer.erase();
    assert_eq!(row_text(&writer, BUFFER_HEIGHT - 1, 2), "  ");
}

#[test]
fn fill_and_clear_screen() {
    let mut writer = Writer::vga();
    writer.write_string("hello");
    writer.fill(BackgroundColor::Blue);
    let expected = ColorCode::new(ForegroundColor::White, BackgroundColor::Blue);
    for row in 0..BUFFER_HEIGHT {
        for col in 0..BUFFER_WIDTH {
            let c = writer.read(row, col);
            assert_eq!(c.ascii_character, b' ');
            assert_eq!(c.color_code, expected);
        }
    }
    writer.write_string("x");
    assert_eq!(writer.read(BUFFER_HEIGHT - 1, 0).color_code, expected);
    writer.clear();
    assert_eq!(writer.read(BUFFER_HEIGHT - 1, 0).ascii_character, b' ');
    assert_eq!(writer.read(BUFFER_HEIGHT - 1, 0).color_code, expected);
}

#[test]
fn color_codes_split_back() {
    let code = ColorCode::new(ForegroundColor::Yellow, BackgroundColor::Red);
    assert_eq!(code.foreground(), ForegroundColor::Yellow);
    assert_eq!(code.background(), BackgroundColor::Red);
    assert_eq!(ForegroundColor::Yellow.value(), 0xe);
    assert_eq!(BackgroundColor::Red.value(), 0x40);
    let blinking = ColorCode::blinking(ForegroundColor::Pink, BackgroundColor::Cyan);
    assert_eq!(blinking.foreground(), ForegroundColor::Pink);
    assert_eq!(blinking.background(), BackgroundColor::Cyan);
    assert_ne!(blinking, ColorCode::new(ForegroundColor::Pink, BackgroundColor::Cyan));
}

#[test]
fn print_in_color_restores_foreground() {
    let mut writer = Writer::vga();
    writer.fill(BackgroundColor::Green);
    _print(&mut writer, "err", ForegroundColor::Red);
    let red = ColorCode::new(ForegroundColor::Red, BackgroundColor::Green);
    assert_eq!(writer.read(BUFFER_HEIGHT - 1, 0).color_code, red);
    writer.write_string("ok");
    let white = ColorCode::new(ForegroundColor::White, BackgroundColor::Green);
    assert_eq!(writer.read(BUFFER_HEIGHT - 1, 3).color_code, white);
}

#[test]
fn new_line_scrolls() {
    let mut writer = Writer::vga();
    writer.write_string("top");
    writer.new_line();
    assert_eq!(row_text(&writer, BUFFER_HEIGHT - 2, 3), "top");
    assert_eq!(row_text(&writer, BUFFER_HEIGHT - 1, 3), "   ");
}

#[test]
fn key_presses_decide_the_screen_action() {
    assert_eq!(key_action(Some('\u{8}')), KeyAction::Erase);
    assert_eq!(key_action(Some('a')), KeyAction::Print('a'));
    assert_eq!(key_action(Some('\n')), KeyAction::Print('\n'));
    assert_eq!(key_action(None), KeyAction::Nothing);
}
