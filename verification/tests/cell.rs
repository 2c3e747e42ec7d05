use tinyharness_ui::tui::cell::{Cell, Color, Style};

#[test]
fn test_color_fg_escape_default() {
    assert_eq!(Color::Default.fg_escape(), "\x1b[39m");
}

#[test]
fn test_color_fg_escape_standard() {
    assert_eq!(Color::Ansi(0).fg_escape(), "\x1b[30m");
    assert_eq!(Color::Ansi(1).fg_escape(), "\x1b[31m");
    assert_eq!(Color::Ansi(7).fg_escape(), "\x1b[37m");
}

#[test]
fn test_color_fg_escape_bright() {
    assert_eq!(Color::Ansi(8).fg_escape(), "\x1b[90m");
    assert_eq!(Color::Ansi(14).fg_escape(), "\x1b[96m");
}

#[test]
fn test_color_fg_escape_256() {
    assert_eq!(Color::Ansi(208).fg_escape(), "\x1b[38;5;208m");
    assert_eq!(Color::Ansi(236).fg_escape(), "\x1b[38;5;236m");
}

#[test]
fn test_color_fg_escape_rgb() {
    assert_eq!(Color::Rgb(255, 0, 128).fg_escape(), "\x1b[38;2;255;0;128m");
}

#[test]
fn test_color_bg_escape_default() {
    assert_eq!(Color::Default.bg_escape(), "\x1b[49m");
}

#[test]
fn test_color_bg_escape_standard() {
    assert_eq!(Color::Ansi(1).bg_escape(), "\x1b[41m");
}

#[test]
fn test_color_bg_escape_bright() {
    assert_eq!(Color::Ansi(8).bg_escape(), "\x1b[100m");
}

#[test]
fn test_color_bg_escape_256() {
    assert_eq!(Color::Ansi(237).bg_escape(), "\x1b[48;5;237m");
}

#[test]
fn test_color_bg_escape_rgb() {
    assert_eq!(Color::Rgb(10, 20, 30).bg_escape(), "\x1b[48;2;10;20;30m");
}

#[test]
fn test_style_escape() {
    let s = Style { bold: true, dim: false, italic: true, underline: false, blink: false };
    assert_eq!(s.escape(), "\x1b[1m\x1b[3m");
}

#[test]
fn test_style_default_is_empty() {
    let s = Style::default();
    assert_eq!(s.escape(), "");
}

#[test]
fn test_cell_default() {
    let c = Cell::default();
    assert_eq!(c.char, ' ');
    assert_eq!(c.fg, Color::Default);
    assert_eq!(c.bg, Color::Default);
}

#[test]
fn test_cell_char() {
    let c = Cell::char('X');
    assert_eq!(c.char, 'X');
    assert_eq!(c.fg, Color::Default);
}

#[test]
fn test_cell_styled() {
    let c = Cell::styled('A', Color::red(), Color::blue(), Style::bold());
    assert_eq!(c.char, 'A');
    assert_eq!(c.fg, Color::Ansi(1));
    assert_eq!(c.bg, Color::Ansi(4));
    assert!(c.style.bold);
}

#[test]
fn style_reset_and_flags() {
    assert_eq!(Style::reset(), "\x1b[0m");
    let all = Style { bold: true, dim: true, italic: true, underline: true, blink: true };
    assert_eq!(all.escape(), "\x1b[1m\x1b[2m\x1b[3m\x1b[4m\x1b[5m");
    assert_eq!(Style::blink().escape(), "\x1b[5m");
    assert_eq!(Style::bold_dim().escape(), "\x1b[1m\x1b[2m");
}

#[test]
fn cell_wide_continuation_is_marked() {
    let c = Cell::wide_continuation(Color::Ansi(3), Color::Default, Style::new());
    assert!(c.wide);
    assert_eq!(c.char, ' ');
    assert_eq!(Cell::blank(), Cell::default());
}
