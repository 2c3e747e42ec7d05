use tinyharness_ui::tui::event::{Event, Key, KeyEvent, Modifiers};
use tinyharness_ui::tui::layout::Rect;
use tinyharness_ui::tui::screen::Screen;
use tinyharness_ui::tui::widget::Widget;
use tinyharness_ui::tui::widgets::tool_output::{ToolOutputWidget, ToolResult, ToolStatus};

#[test]
fn test_tool_output_new() {
    let widget = ToolOutputWidget::new();
    assert!(widget.is_empty());
    assert_eq!(widget.len(), 0);
}

#[test]
fn test_tool_output_push() {
    let mut widget = ToolOutputWidget::new();
    widget.push(ToolResult {
        name: "read".to_string(),
        args_summary: "src/main.rs".to_string(),
        content: "fn main() {}".to_string(),
        is_error: false,
        collapsed: true,
        status: ToolStatus::Success { duration_ms: 42 },
    });
    assert_eq!(widget.len(), 1);
}

#[test]
fn test_tool_output_toggle() {
    let mut widget = ToolOutputWidget::new();
    widget.push(ToolResult {
        name: "read".to_string(),
        args_summary: "src/main.rs".to_string(),
        content: "fn main() {}".to_string(),
        is_error: false,
        collapsed: true,
        status: ToolStatus::Success { duration_ms: 42 },
    });
    assert!(widget.result(0).unwrap().collapsed);

    widget.toggle(0);
    assert!(!widget.result(0).unwrap().collapsed);

    widget.toggle(0);
    assert!(widget.result(0).unwrap().collapsed);
}

#[test]
fn test_tool_output_clear() {
    let mut widget = ToolOutputWidget::new();
    widget.push(ToolResult {
        name: "read".to_string(),
        args_summary: String::new(),
        content: String::new(),
        is_error: false,
        collapsed: true,
        status: ToolStatus::Success { duration_ms: 0 },
    });
    widget.clear();
    assert!(widget.is_empty());
}

#[test]
fn test_tool_output_render_collapsed() {
    let mut screen = Screen::new(80, 24);
    let widget = ToolOutputWidget::new();
    let mut widget = widget;
    widget.push(ToolResult {
        name: "read".to_string(),
        args_summary: "src/main.rs".to_string(),
        content: "fn main() {}".to_string(),
        is_error: false,
        collapsed: true,
        status: ToolStatus::Success { duration_ms: 42 },
    });

    let area = Rect::new(0, 0, 80, 24);
    widget.render(area, &mut screen);

    // First cell should have content (the status icon)
    assert!(screen.get(0, 0).unwrap().char != '\0');
}

#[test]
fn test_tool_output_render_expanded() {
    let mut screen = Screen::new(80, 24);
    let mut widget = ToolOutputWidget::new();
    widget.push(ToolResult {
        name: "read".to_string(),
        args_summary: "src/main.rs".to_string(),
        content: "fn main() {}\nfn other() {}".to_string(),
        is_error: false,
        collapsed: false,
        status: ToolStatus::Success { duration_ms: 42 },
    });

    let area = Rect::new(0, 0, 80, 24);
    widget.render(area, &mut screen);

    // Should have rendered header and content lines
    assert!(screen.get(0, 0).unwrap().char != '\0');
}

#[test]
fn test_tool_output_render_error() {
    let mut screen = Screen::new(80, 24);
    let mut widget = ToolOutputWidget::new();
    widget.push(ToolResult {
        name: "run".to_string(),
        args_summary: "cargo test".to_string(),
        content: "error: test failed".to_string(),
        is_error: true,
        collapsed: true,
        status: ToolStatus::Error {
            message: "test failed".to_string(),
        },
    });

    let area = Rect::new(0, 0, 80, 24);
    widget.render(area, &mut screen);

    // Should render with error styling
    assert!(screen.get(0, 0).unwrap().char != '\0');
}

#[test]
fn test_tool_output_keyboard_toggle() {
    let mut widget = ToolOutputWidget::new();
    widget.push(ToolResult {
        name: "read".to_string(),
        args_summary: String::new(),
        content: "hello".to_string(),
        is_error: false,
        collapsed: true,
        status: ToolStatus::Success { duration_ms: 0 },
    });

    // Press Enter to expand
    let event = Event::Key(KeyEvent {
        key: Key::Enter,
        modifiers: Modifiers::new(),
    });
    widget.handle_event(&event);
    assert!(!widget.result(0).unwrap().collapsed);

    // Press Enter again to collapse
    widget.handle_event(&event);
    assert!(widget.result(0).unwrap().collapsed);
}

#[test]
fn test_tool_status_equality() {
    let s1 = ToolStatus::Success { duration_ms: 100 };
    let s2 = ToolStatus::Success { duration_ms: 100 };
    assert_eq!(s1, s2);

    let e1 = ToolStatus::Error {
        message: "fail".to_string(),
    };
    let e2 = ToolStatus::Error {
        message: "fail".to_string(),
    };
    assert_eq!(e1, e2);

    assert_ne!(s1, ToolStatus::Running);
}


fn result(name: &str, content: &str, collapsed: bool) -> ToolResult {
    ToolResult {
        name: name.to_string(),
        args_summary: String::new(),
        content: content.to_string(),
        is_error: false,
        collapsed,
        status: ToolStatus::Running,
    }
}

#[test]
fn toggle_twice_restores_and_out_of_range_ignored() {
    let mut w = ToolOutputWidget::new();
    w.push(result("a", "x", true));
    w.push(result("b", "y", false));
    w.toggle(1);
    w.toggle(1);
    assert!(!w.result(1).unwrap().collapsed);
    w.toggle(7);
    assert!(w.result(0).unwrap().collapsed);
    w.un_collapse_all();
    assert!(!w.result(0).unwrap().collapsed);
}

#[test]
fn click_toggles_result_under_row() {
    let mut w = ToolOutputWidget::new();
    w.push(result("a", "l1\nl2", false));
    w.push(result("b", "x", true));
    // Result 0 is expanded: header row 0, 2 lines and a border, then a gap: result 1 at row 5.
    let click = Event::Mouse(tinyharness_ui::tui::event::MouseEvent::Press {
        row: 5,
        col: 0,
        button: tinyharness_ui::tui::event::MouseButton::Left,
    });
    w.handle_event(&click);
    assert!(!w.result(1).unwrap().collapsed);
    let miss = Event::Mouse(tinyharness_ui::tui::event::MouseEvent::Press {
        row: 3,
        col: 0,
        button: tinyharness_ui::tui::event::MouseButton::Left,
    });
    w.handle_event(&miss);
    assert!(!w.result(0).unwrap().collapsed);
}
