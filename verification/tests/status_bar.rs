use tinyharness_ui::tui::cell::Color;
use tinyharness_ui::tui::layout::Rect;
use tinyharness_ui::tui::screen::Screen;
use tinyharness_ui::tui::widgets::status_bar::StatusBarWidget;

#[test]
fn test_status_bar_render() {
    let mut screen = Screen::new(80, 24);
    let widget = StatusBarWidget::new("agent", "llama3.1:8b");
    let area = Rect::new(0, 0, 80, 1);
    widget.render_with_tokens(area, &mut screen, "? tokens");
    assert_ne!(screen.get(0, 0).unwrap().char, '\0');
}

#[test]
fn test_status_bar_with_tokens() {
    let mut screen = Screen::new(80, 24);
    let mut widget = StatusBarWidget::new("agent", "llama3.1:8b");
    widget.token_count = Some((5000, 128000));
    widget.message_count = 42;
    let area = Rect::new(0, 0, 80, 1);
    widget.render_with_tokens(area, &mut screen, "5.0k/128k (4%)");
    assert_ne!(screen.get(0, 0).unwrap().char, '\0');
}

#[test]
fn status_bar_layout_and_colors() {
    let mut screen = Screen::new(60, 2);
    let mut widget = StatusBarWidget::new("agent", "m");
    widget.set_message_count(7);
    widget.set_session_name("s1");
    let area = Rect::new(0, 0, 60, 1);
    widget.render_with_tokens(area, &mut screen, "? tokens");
    // " agent " then " │ " then "m" then " │ " then the tokens.
    assert_eq!(screen.get(0, 1).unwrap().char, 'a');
    assert_eq!(screen.get(0, 1).unwrap().fg, Color::Ansi(6));
    assert_eq!(screen.get(0, 8).unwrap().char, '│');
    assert_eq!(screen.get(0, 10).unwrap().char, 'm');
    assert_eq!(screen.get(0, 14).unwrap().char, '?');
    // The session name is right-aligned: " s1 " ends at column 59.
    assert_eq!(screen.get(0, 57).unwrap().char, 's');
    assert_eq!(screen.get(0, 58).unwrap().char, '1');
}

#[test]
fn token_color_thresholds() {
    let mut w = StatusBarWidget::new("agent", "m");
    assert_eq!(w.token_color(), Color::Ansi(8));
    w.set_token_count(950, Some(1000));
    assert_eq!(w.token_color(), Color::Ansi(1));
    w.set_token_count(900, Some(1000));
    assert_eq!(w.token_color(), Color::Ansi(3));
    w.set_token_count(700, Some(1000));
    assert_eq!(w.token_color(), Color::Ansi(2));
    w.set_token_count(5, Some(0));
    assert_eq!(w.token_color(), Color::Ansi(8));
    w.set_token_count(5, None);
    assert_eq!(w.token_count, None);
    w.update_labels("planning", "x");
    assert_eq!(w.mode_color, Color::Ansi(3));
    assert_eq!(w.session_name, "unnamed");
    w.set_focus_label("files");
    assert_eq!(w.focus_label, "files");
}
