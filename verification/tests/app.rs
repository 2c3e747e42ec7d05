use tinyharness_ui::tui::app::{focus_label, next_focus, rect_contains, Focus, TuiState};
use tinyharness_ui::tui::layout::Rect;

#[test]
fn test_tui_state_default() {
    let state = TuiState::default();
    assert_eq!(state.mode, "agent");
    assert!(state.sidebar_visible);
    assert!(!state.streaming);
}

#[test]
fn test_focus_default() {
    assert_eq!(Focus::default(), Focus::InputBar);
}

#[test]
fn focus_cycles_with_and_without_tool_output() {
    assert_eq!(next_focus(Focus::InputBar, true, true), Focus::ToolOutput);
    assert_eq!(next_focus(Focus::ToolOutput, true, true), Focus::Structure);
    assert_eq!(next_focus(Focus::Structure, true, true), Focus::InputBar);
    assert_eq!(next_focus(Focus::InputBar, false, true), Focus::Structure);
    assert_eq!(next_focus(Focus::InputBar, true, false), Focus::Structure);
    assert_eq!(next_focus(Focus::Structure, false, false), Focus::InputBar);
    assert_eq!(next_focus(Focus::Conversation, true, false), Focus::Structure);
    assert_eq!(focus_label(Focus::Sidebar), "files");
    assert_eq!(focus_label(Focus::ToolOutput), "tools");
    assert_eq!(focus_label(Focus::Conversation), "input");
}

#[test]
fn rect_contains_edges() {
    let r = Rect::new(2, 3, 4, 5);
    assert!(rect_contains(r, 3, 2));
    assert!(rect_contains(r, 7, 5));
    assert!(!rect_contains(r, 8, 2));
    assert!(!rect_contains(r, 3, 6));
    assert!(!rect_contains(r, 2, 2));
}
