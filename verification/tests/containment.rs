use tinyharness_ui::tui::layout::Rect;
use tinyharness_ui::tui::screen::Screen;
use tinyharness_ui::tui::widget::Widget;
use tinyharness_ui::tui::widgets::input_bar::InputBarWidget;
use tinyharness_ui::tui::widgets::sidebar::SidebarWidget;
use tinyharness_ui::tui::widgets::spinner::SpinnerWidget;
use tinyharness_ui::tui::widgets::status_bar::StatusBarWidget;
use tinyharness_ui::tui::widgets::tool_output::{ToolOutputWidget, ToolResult, ToolStatus};

/// A 40x12 screen whose rows outside 4..8 are filled with 'X'.
fn marked() -> Screen {
    let mut screen = Screen::new(40, 12);
    for row in 0..12u16 {
        if (4..8).contains(&row) {
            continue;
        }
        for col in 0..40u16 {
            if let Some(cell) = screen.get_mut(row, col) {
                cell.char = 'X';
            }
        }
    }
    screen
}

fn untouched_outside(screen: &Screen) -> bool {
    (0..12u16)
        .filter(|r| !(4..8).contains(r))
        .all(|r| (0..40u16).all(|c| screen.get(r, c).unwrap().char == 'X'))
}

fn area() -> Rect {
    Rect::new(0, 4, 40, 4)
}

#[test]
fn tool_output_stays_in_its_rows() {
    let mut w = ToolOutputWidget::new();
    for i in 0..3 {
        w.push(ToolResult {
            name: format!("run{}", i),
            args_summary: "cargo test".to_string(),
            content: (0..10).map(|k| format!("out {}", k)).collect::<Vec<_>>().join("\n"),
            is_error: i == 1,
            collapsed: i != 0,
            status: ToolStatus::Running,
        });
    }
    let mut screen = marked();
    w.render(area(), &mut screen);
    assert!(untouched_outside(&screen));
    assert_ne!(screen.get(4, 0).unwrap().char, 'X');
}

#[test]
fn input_bar_stays_in_its_rows() {
    let mut w = InputBarWidget::new("agent", "m");
    w.set_input("line one\nline two\nline three\nline four\nline five");
    let mut screen = marked();
    w.render(area(), &mut screen);
    assert!(untouched_outside(&screen));
    assert_eq!(screen.get(4, 0).unwrap().char, '─');
}

#[test]
fn sidebar_stays_in_its_rows() {
    let mut w = SidebarWidget::new(".");
    w.project_name = "a-very-long-project-name".to_string();
    let mut screen = marked();
    w.render(area(), &mut screen);
    assert!(untouched_outside(&screen));
    assert_eq!(screen.get(4, 0).unwrap().char, '│');
}

#[test]
fn status_bar_and_spinner_stay_in_their_row() {
    let w = StatusBarWidget::new("agent", "model");
    let mut screen = marked();
    w.render_with_tokens(Rect::new(0, 4, 40, 1), &mut screen, "1.2k/8k");
    assert!(untouched_outside(&screen));
    let mut s = SpinnerWidget::new("Thinking");
    s.start();
    s.render(Rect::new(0, 7, 40, 1), &mut screen);
    assert!(untouched_outside(&screen));
}
