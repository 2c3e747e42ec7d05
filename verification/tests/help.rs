use tinyharness_ui::tui::app::{help_content, help_content_height, HelpOverlay};
use tinyharness_ui::tui::event::{Key, KeyEvent, Modifiers};
use tinyharness_ui::tui::layout::Rect;
use tinyharness_ui::tui::screen::Screen;

fn key(k: Key) -> KeyEvent {
    KeyEvent { key: k, modifiers: Modifiers::new() }
}

fn shown() -> HelpOverlay {
    let mut h = HelpOverlay::new();
    h.toggle();
    h
}

#[test]
fn help_content_lists_all_sections() {
    let lines = help_content();
    assert_eq!(lines.len(), 52);
    assert!(lines.len() > 30);
    assert_eq!(lines[1], "  Keyboard Shortcuts");
    assert!(lines.contains(&"  Confirm Prompt:"));
}

#[test]
fn help_height_leaves_room_for_bars_and_borders() {
    assert_eq!(help_content_height(24), 17);
    assert_eq!(help_content_height(6), 0);
    assert_eq!(help_content_height(0), 0);
}

#[test]
fn help_toggle_twice_hides() {
    let mut h = HelpOverlay::new();
    assert!(!h.visible);
    h.toggle();
    assert!(h.visible);
    h.toggle();
    assert!(!h.visible);
    assert_eq!(h.scroll, 0);
}

#[test]
fn help_scrolls_by_line_and_page() {
    let mut h = shown();
    assert!(!h.handle_key(key(Key::Down), 24));
    assert_eq!(h.scroll, 1);
    h.handle_key(key(Key::Char('j')), 24);
    assert_eq!(h.scroll, 2);
    h.handle_key(key(Key::Up), 24);
    assert_eq!(h.scroll, 1);
    h.handle_key(key(Key::Char('k')), 24);
    h.handle_key(key(Key::Up), 24);
    assert_eq!(h.scroll, 0);
    h.handle_key(key(Key::PageDown), 24);
    assert_eq!(h.scroll, 10);
    h.handle_key(key(Key::PageUp), 24);
    assert_eq!(h.scroll, 0);
    assert!(h.visible);
}

#[test]
fn help_home_and_end() {
    let mut h = shown();
    let mut screen = Screen::new(80, 24);
    h.render(&mut screen, Rect::new(0, 1, 80, 19));
    assert_eq!(h.line_count, 52);
    h.scroll = 5;
    h.handle_key(key(Key::Home), 24);
    assert_eq!(h.scroll, 0);
    h.handle_key(key(Key::End), 24);
    assert_eq!(h.scroll, 35);
}

#[test]
fn help_closing_keys() {
    let mut h = shown();
    h.scroll = 5;
    assert!(!h.handle_key(key(Key::Escape), 24));
    assert!(!h.visible);
    assert_eq!(h.scroll, 0);

    let mut h = shown();
    h.handle_key(key(Key::Char('a')), 24);
    assert!(!h.visible);

    let mut h = shown();
    h.handle_key(key(Key::Enter), 24);
    assert!(!h.visible);

    let mut h = shown();
    assert!(!h.handle_key(KeyEvent { key: Key::Char('h'), modifiers: Modifiers::ctrl() }, 24));
    assert!(!h.visible);

    let mut h = shown();
    assert!(!h.handle_key(key(Key::F(1)), 24));
    assert!(!h.visible);
}

#[test]
fn help_ctrl_c_closes_and_passes_on() {
    let mut h = shown();
    assert!(h.handle_key(KeyEvent { key: Key::Char('c'), modifiers: Modifiers::ctrl() }, 24));
    assert!(!h.visible);
    let mut h = shown();
    assert!(h.handle_key(KeyEvent { key: Key::Char('d'), modifiers: Modifiers::ctrl() }, 24));
}

#[test]
fn help_mouse_wheel() {
    let mut h = shown();
    h.wheel(false);
    assert_eq!(h.scroll, 3);
    h.wheel(true);
    assert_eq!(h.scroll, 0);
    h.wheel(true);
    assert_eq!(h.scroll, 0);
}

#[test]
fn help_clamped_after_resize() {
    let mut h = shown();
    h.line_count = 52;
    h.scroll = 40;
    h.clamp_for_rows(24);
    assert_eq!(h.scroll, 35);
    h.visible = false;
    h.scroll = 50;
    h.clamp_for_rows(24);
    assert_eq!(h.scroll, 50);
}

#[test]
fn help_renders_box_and_hint() {
    let mut h = shown();
    let mut screen = Screen::new(80, 24);
    let area = Rect::new(0, 1, 80, 19);
    h.render(&mut screen, area);
    // 19 rows: 16 text rows + 2 borders = 18 rows, centered at row 1.
    let top = screen.get(1, 14).unwrap();
    assert_eq!(top.char, '┌');
    let title = screen.get(3, 17).unwrap();
    assert_eq!(title.char, 'K');
    // The text scrolls, so the hint mentions scrolling and an arrow shows.
    let hint: String = (15..41).map(|c| screen.get(17, c).unwrap().char).collect();
    assert!(hint.contains("scroll"));
    assert_eq!(screen.get(10, 64).unwrap().char, '↓');
}

#[test]
fn help_render_clamps_scroll() {
    let mut h = shown();
    h.scroll = 100;
    let mut screen = Screen::new(80, 24);
    h.render(&mut screen, Rect::new(0, 1, 80, 19));
    // 15 visible text lines out of 52.
    assert_eq!(h.scroll, 37);
}

#[test]
fn help_render_skips_tiny_area() {
    let mut h = shown();
    let mut screen = Screen::new(80, 24);
    h.render(&mut screen, Rect::new(0, 0, 80, 3));
    assert_eq!(screen.get(0, 14).unwrap().char, ' ');
    assert_eq!(h.line_count, 52);
}
