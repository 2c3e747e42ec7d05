use tinyharness_ui::tui::terminal::{
    cursor_pos, parse_u16, Size, TermMode, TerminalModes, TestBackend, CONSOLE_SCREEN_BUFFER_INFO, COORD, SMALL_RECT,
};

#[test]
fn test_size_default() {
    let s = Size::default_size();
    assert_eq!(s.cols, 80);
    assert_eq!(s.rows, 24);
}

#[test]
fn test_size_new() {
    let s = Size::new(120, 40);
    assert_eq!(s.cols, 120);
    assert_eq!(s.rows, 40);
}

#[test]
fn size_from_console_window() {
    let info = CONSOLE_SCREEN_BUFFER_INFO {
        dwSize: COORD { X: 120, Y: 9000 },
        dwCursorPosition: COORD::default(),
        wAttributes: 7,
        srWindow: SMALL_RECT { Left: 0, Top: 100, Right: 119, Bottom: 129 },
        dwMaximumWindowSize: COORD { X: 200, Y: 60 },
    };
    assert_eq!(Size::from_console_info(&info), Size::new(120, 30));
}

#[test]
fn modes_switch_once() {
    let mut modes = TerminalModes::new();
    let mut out = Vec::new();
    modes.push_switch(&mut out, TermMode::AlternateScreen, true);
    assert_eq!(out, b"\x1b[?1049h".to_vec());
    modes.set(TermMode::AlternateScreen, true);
    let mut again = Vec::new();
    modes.push_switch(&mut again, TermMode::AlternateScreen, true);
    assert!(again.is_empty());
    let mut mouse = Vec::new();
    modes.push_switch(&mut mouse, TermMode::Mouse, true);
    assert_eq!(mouse, b"\x1b[?1000h\x1b[?1002h\x1b[?1006h".to_vec());
    modes.set(TermMode::Mouse, true);
    let mut off = Vec::new();
    modes.push_switch(&mut off, TermMode::Mouse, false);
    assert_eq!(off, b"\x1b[?1006l\x1b[?1002l\x1b[?1000l".to_vec());
    let mut cur = Vec::new();
    modes.push_switch(&mut cur, TermMode::HiddenCursor, true);
    assert_eq!(cur, b"\x1b[?25l".to_vec());
    let mut paste = Vec::new();
    modes.push_switch(&mut paste, TermMode::BracketedPaste, true);
    assert_eq!(paste, b"\x1b[?2004h".to_vec());
    assert_eq!(cursor_pos(5, 10), b"\x1b[5;10H".to_vec());
}

#[test]
fn test_backend_records_writes() {
    let mut b = TestBackend::new(Size::new(10, 2));
    assert_eq!(b.write(b"ab"), 2);
    assert_eq!(b.write(b"c"), 1);
    assert_eq!(b.buffer, b"abc".to_vec());
}

#[test]
fn size_from_vars_parses_decimal_numbers() {
    assert_eq!(Size::from_vars("80", "24"), Some(Size::new(80, 24)));
    assert_eq!(Size::from_vars("+120", "40"), Some(Size::new(120, 40)));
    assert_eq!(Size::from_vars("80", ""), None);
    assert_eq!(Size::from_vars("abc", "24"), None);
    assert_eq!(parse_u16("65535"), Some(65535));
    assert_eq!(parse_u16("65536"), None);
    assert_eq!(parse_u16("0007"), Some(7));
    assert_eq!(parse_u16("-1"), None);
    assert_eq!(parse_u16("+"), None);
    assert_eq!(parse_u16(" 80"), None);
    assert_eq!(parse_u16("99999999999"), None);
}
