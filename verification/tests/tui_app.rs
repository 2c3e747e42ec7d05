use tinyharness_ui::tui::agent::{TuiAgentEvent, TuiUserAction};
use tinyharness_ui::tui::app::{help_content, rect_contains, AppLayout, Focus, TuiApp};
use tinyharness_ui::tui::event::{Event, Key, KeyEvent, Modifiers, MouseButton, MouseEvent};
use tinyharness_ui::tui::layout::Rect;
use tinyharness_ui::tui::screen::Screen;
use tinyharness_ui::tui::terminal::Size;
use tinyharness_ui::tui::widget::{Action, Widget};
use tinyharness_ui::tui::widgets::conversation::{ContextWarningLevel, ConversationLine};
use tinyharness_ui::tui::widgets::tool_output::{ToolResult, ToolStatus};

fn make_app() -> TuiApp {
    TuiApp::new(Size::new(80, 24), ".")
}

/// The areas of an 80×24 terminal: status bar on top, a two-row input bar
/// at the bottom, the sidebar (25 columns) right of the conversation.
fn layout() -> AppLayout {
    AppLayout {
        status: Rect::new(0, 0, 80, 1),
        conversation: Rect::new(0, 1, 55, 21),
        sidebar: Rect::new(55, 1, 25, 21),
        input: Rect::new(0, 22, 80, 2),
        tool_output: Rect::new(0, 0, 0, 0),
    }
}

fn key(k: Key) -> Event {
    Event::Key(KeyEvent { key: k, modifiers: Modifiers::new() })
}

fn ctrl(c: char) -> Event {
    Event::Key(KeyEvent { key: Key::Char(c), modifiers: Modifiers::ctrl() })
}

fn render(app: &mut TuiApp) -> Screen {
    let mut screen = Screen::new(80, 24);
    app.render_frame(layout(), &mut screen, "? tokens");
    screen
}

#[test]
fn test_app_new() {
    let app = make_app();
    assert!(app.is_running());
    assert_eq!(app.focus(), Focus::InputBar);
}

#[test]
fn test_app_default_state() {
    let app = make_app();
    assert_eq!(app.state().mode, "agent");
    assert!(app.state().sidebar_visible);
    assert!(!app.state().streaming);
}

#[test]
fn test_app_push_user_message() {
    let mut app = make_app();
    app.push_user_message("Hello");
    assert_eq!(app.state().message_count, 1);
}

#[test]
fn test_app_push_assistant_message() {
    let mut app = make_app();
    app.push_assistant_message("Hi there!");
    assert_eq!(app.conversation().len(), 1);
}

#[test]
fn test_app_push_tool_call() {
    let mut app = make_app();
    app.push_tool_call("read", "src/main.rs");
    assert_eq!(app.conversation().len(), 1);
}

#[test]
fn test_app_push_tool_result() {
    let mut app = make_app();
    app.push_tool_result("read", "fn main() {}", false);
    assert_eq!(app.conversation().len(), 1);
    let r = app.tool_output_mut().result(0).cloned().unwrap();
    assert_eq!(r.name, "read");
    assert_eq!(r.content, "fn main() {}");
    assert!(r.collapsed);
    assert_eq!(r.status, ToolStatus::Success { duration_ms: 0 });
}

#[test]
fn test_app_push_system_message() {
    let mut app = make_app();
    app.push_system_message("Session started");
    assert_eq!(app.conversation().len(), 1);
}

#[test]
fn test_app_push_thinking() {
    let mut app = make_app();
    app.push_thinking("Let me think...");
    assert_eq!(app.conversation().len(), 1);
}

#[test]
fn test_app_set_streaming() {
    let mut app = make_app();
    app.set_streaming(true);
    assert!(app.state().streaming);
    app.set_streaming(false);
    assert!(!app.state().streaming);
}

#[test]
fn test_app_sync_from_state() {
    let mut app = make_app();
    app.state_mut().mode = "planning".to_string();
    app.state_mut().model_name = "gpt-4".to_string();
    app.state_mut().session_name = "test-session".to_string();
    app.state_mut().message_count = 5;
    app.sync_from_state();
    let bar = app.status_bar_mut();
    assert_eq!(bar.mode_label, "planning");
    assert_eq!(bar.model_name, "gpt-4");
    assert_eq!(bar.session_name, "test-session");
    assert_eq!(bar.message_count, 5);
}

#[test]
fn test_app_cycle_focus() {
    let mut app = make_app();
    assert_eq!(app.focus(), Focus::InputBar);
    app.cycle_focus(true);
    assert_eq!(app.focus(), Focus::Structure);
    app.cycle_focus(true);
    assert_eq!(app.focus(), Focus::InputBar);
    app.cycle_focus(false);
    assert_eq!(app.focus(), Focus::Structure);
}

#[test]
fn test_app_set_focus() {
    let mut app = make_app();
    app.set_focus(Focus::InputBar);
    assert!(app.input_bar().focused());
    app.set_focus(Focus::Conversation);
    assert!(app.input_bar().focused());
    app.set_focus(Focus::Structure);
    assert!(!app.input_bar().focused());
}

#[test]
fn test_app_handle_quit() {
    let mut app = make_app();
    let action = app.handle_event(&ctrl('c'), layout());
    app.handle_action(action);
    assert!(!app.is_running());
}

#[test]
fn test_app_handle_ctrl_d() {
    let mut app = make_app();
    let action = app.handle_event(&ctrl('d'), layout());
    app.handle_action(action);
    assert!(!app.is_running());
}

#[test]
fn test_app_handle_toggle_sidebar() {
    let mut app = make_app();
    app.handle_event(&ctrl('s'), layout());
    assert!(!app.state().sidebar_visible);
    app.handle_event(&ctrl('s'), layout());
    assert!(app.state().sidebar_visible);
}

#[test]
fn test_app_handle_tab_focus() {
    let mut app = make_app();
    let action = app.handle_event(&key(Key::Tab), layout());
    app.handle_action(action);
    assert_eq!(app.focus(), Focus::Structure);
}

#[test]
fn test_app_render_frame() {
    let mut app = make_app();
    app.push_user_message("Hello");
    app.push_assistant_message("Hi!");
    let screen = render(&mut app);
    assert_eq!(screen.width(), 80);
}

#[test]
fn test_app_rect_contains() {
    let rect = Rect::new(5, 3, 20, 10);
    assert!(rect_contains(rect, 3, 5));
    assert!(rect_contains(rect, 12, 24));
    assert!(!rect_contains(rect, 2, 5));
    assert!(!rect_contains(rect, 13, 5));
    assert!(!rect_contains(rect, 3, 4));
    assert!(!rect_contains(rect, 3, 25));
}

#[test]
fn test_app_mouse_click_conversation() {
    let mut app = make_app();
    assert_eq!(app.focus(), Focus::InputBar);
    let conv_area = layout().conversation;
    let event = Event::Mouse(MouseEvent::Press { row: conv_area.y, col: conv_area.x, button: MouseButton::Left });
    app.handle_event(&event, layout());
    assert_eq!(app.focus(), Focus::InputBar);
}

#[test]
fn test_app_mouse_click_input_bar() {
    let mut app = make_app();
    let input_area = layout().input;
    let event = Event::Mouse(MouseEvent::Press { row: input_area.y + 1, col: input_area.x, button: MouseButton::Left });
    app.handle_event(&event, layout());
    assert_eq!(app.focus(), Focus::InputBar);
}

#[test]
fn test_app_mouse_click_sidebar() {
    let mut app = make_app();
    assert!(app.state().sidebar_visible);
    let sidebar_area = layout().sidebar;
    let event = Event::Mouse(MouseEvent::Press { row: sidebar_area.y + 2, col: sidebar_area.x + 2, button: MouseButton::Left });
    app.handle_event(&event, layout());
    assert_eq!(app.focus(), Focus::Structure);
    assert!(app.sidebar_mut().is_structure_mode());
}

#[test]
fn test_app_mouse_scroll_conversation() {
    let mut app = make_app();
    for i in 0..30 {
        app.push_user_message(&format!("Message {}", i));
    }
    let conv_area = layout().conversation;
    let conv_row = conv_area.y + 5;
    app.conversation_mut().set_scroll_offset(10);
    app.handle_event(&Event::Mouse(MouseEvent::ScrollUp { row: conv_row, col: conv_area.x }), layout());
    assert_eq!(app.conversation().scroll_offset(), 7);
    app.handle_event(&Event::Mouse(MouseEvent::ScrollDown { row: conv_row, col: conv_area.x }), layout());
    assert_eq!(app.conversation().scroll_offset(), 10);
}

#[test]
fn test_app_mouse_scroll_sidebar() {
    let mut app = make_app();
    app.sidebar_mut().structure = (0..30).map(|i| format!("file_{}.rs", i)).collect();
    let sidebar_area = layout().sidebar;
    let event = Event::Mouse(MouseEvent::ScrollUp { row: sidebar_area.y + 3, col: sidebar_area.x + 2 });
    app.handle_event(&event, layout());
    assert_eq!(app.sidebar_mut().scroll_offset(), 0);
}

#[test]
fn test_ctrl_c_sends_interrupt_while_streaming() {
    let mut app = make_app();
    app.state_mut().streaming = true;
    let action = app.handle_event(&ctrl('c'), layout());
    assert!(matches!(action, Action::Interrupt));
    assert!(!app.state().streaming);
}

#[test]
fn test_ctrl_c_quits_when_not_streaming() {
    let mut app = make_app();
    assert!(!app.state().streaming);
    let action = app.handle_event(&ctrl('c'), layout());
    assert!(matches!(action, Action::Quit));
}

#[test]
fn test_interrupt_action_sends_user_action() {
    let mut app = make_app();
    let sent = app.handle_action(Action::Interrupt);
    assert!(matches!(sent, Some(TuiUserAction::Interrupt)));
}

#[test]
fn test_help_overlay_toggle_ctrl_h() {
    let mut app = make_app();
    assert!(!app.help().visible);
    app.handle_event(&ctrl('h'), layout());
    assert!(app.help().visible);
    app.handle_event(&ctrl('h'), layout());
    assert!(!app.help().visible);
}

#[test]
fn test_help_overlay_toggle_f1() {
    let mut app = make_app();
    app.handle_event(&key(Key::F(1)), layout());
    assert!(app.help().visible);
    app.handle_event(&key(Key::Char('a')), layout());
    assert!(!app.help().visible);
}

#[test]
fn test_help_overlay_dismisses_on_any_key() {
    let mut app = make_app();
    app.help_mut().visible = true;
    app.handle_event(&key(Key::Enter), layout());
    assert!(!app.help().visible);
}

#[test]
fn test_help_overlay_renders() {
    let mut app = make_app();
    app.help_mut().visible = true;
    render(&mut app);
    assert_eq!(app.help().line_count, 52);
}

#[test]
fn test_help_overlay_scroll_up_down() {
    let mut app = make_app();
    app.help_mut().visible = true;
    assert_eq!(app.help().scroll, 0);
    app.handle_event(&key(Key::Down), layout());
    assert_eq!(app.help().scroll, 1);
    app.handle_event(&key(Key::Down), layout());
    assert_eq!(app.help().scroll, 2);
    app.handle_event(&key(Key::Up), layout());
    assert_eq!(app.help().scroll, 1);
    app.help_mut().scroll = 0;
    app.handle_event(&key(Key::Up), layout());
    assert_eq!(app.help().scroll, 0);
}

#[test]
fn test_help_overlay_scroll_page() {
    let mut app = make_app();
    app.help_mut().visible = true;
    assert_eq!(app.help().scroll, 0);
    app.handle_event(&key(Key::PageDown), layout());
    assert_eq!(app.help().scroll, 10);
    app.handle_event(&key(Key::PageUp), layout());
    assert_eq!(app.help().scroll, 0);
}

#[test]
fn test_help_overlay_home_end() {
    let mut app = make_app();
    app.help_mut().visible = true;
    assert_eq!(app.help().scroll, 0);
    app.help_mut().scroll = 5;
    app.handle_event(&key(Key::Home), layout());
    assert_eq!(app.help().scroll, 0);
    render(&mut app);
    app.handle_event(&key(Key::End), layout());
    assert!(app.help().scroll > 0);
}

#[test]
fn test_help_overlay_escape_dismisses() {
    let mut app = make_app();
    app.help_mut().visible = true;
    app.help_mut().scroll = 5;
    app.handle_event(&key(Key::Escape), layout());
    assert!(!app.help().visible);
    assert_eq!(app.help().scroll, 0);
}

#[test]
fn test_help_overlay_mouse_scroll() {
    let mut app = make_app();
    app.help_mut().visible = true;
    assert_eq!(app.help().scroll, 0);
    app.handle_event(&Event::Mouse(MouseEvent::ScrollDown { row: 5, col: 5 }), layout());
    assert_eq!(app.help().scroll, 3);
    app.handle_event(&Event::Mouse(MouseEvent::ScrollUp { row: 5, col: 5 }), layout());
    assert_eq!(app.help().scroll, 0);
}

#[test]
fn test_help_content_static() {
    let lines = help_content();
    assert!(!lines.is_empty());
    assert!(lines.len() > 30);
}

#[test]
fn test_tool_output_toggle_ctrl_t() {
    let mut app = make_app();
    assert!(!app.tool_output_visible());
    app.handle_event(&ctrl('t'), layout());
    assert!(app.tool_output_visible());
    app.handle_event(&ctrl('t'), layout());
    assert!(!app.tool_output_visible());
}

#[test]
fn test_tool_output_cycle_focus_includes_tool_output() {
    let mut app = make_app();
    app.set_tool_output_visible(true);
    app.cycle_focus(true);
    assert_eq!(app.focus(), Focus::ToolOutput);
    app.cycle_focus(true);
    assert_eq!(app.focus(), Focus::Structure);
    app.cycle_focus(true);
    assert_eq!(app.focus(), Focus::InputBar);
}

#[test]
fn test_tool_output_renders_when_visible() {
    let mut app = make_app();
    app.set_tool_output_visible(true);
    app.tool_output_mut().push(ToolResult {
        name: "read".to_string(),
        args_summary: "src/main.rs".to_string(),
        content: "fn main() {}".to_string(),
        is_error: false,
        collapsed: true,
        status: ToolStatus::Success { duration_ms: 42 },
    });
    let mut screen = Screen::new(80, 24);
    let mut l = layout();
    l.conversation = Rect::new(0, 1, 55, 13);
    l.tool_output = Rect::new(0, 14, 55, 8);
    app.render_frame(l, &mut screen, "? tokens");
    assert_eq!(app.tool_output_mut().len(), 1);
}

// ── Agent events and actions ─────────────────────────────────────────────

fn last_line(app: &TuiApp) -> ConversationLine {
    app.conversation().lines().last().cloned().unwrap()
}

#[test]
fn streaming_text_builds_one_assistant_line() {
    let mut app = make_app();
    app.handle_agent_event(TuiAgentEvent::StreamingStarted);
    assert!(app.state().streaming);
    app.handle_agent_event(TuiAgentEvent::StreamingText("Hel".to_string()));
    app.handle_agent_event(TuiAgentEvent::StreamingText("lo".to_string()));
    assert_eq!(app.conversation().len(), 1);
    match last_line(&app) {
        ConversationLine::Assistant { text } => assert_eq!(text, "Hello"),
        other => panic!("unexpected line {:?}", other),
    }
    app.handle_agent_event(TuiAgentEvent::StreamingDone);
    assert!(!app.state().streaming);
}

#[test]
fn thinking_is_previewed_then_shown_whole() {
    let mut app = make_app();
    app.handle_agent_event(TuiAgentEvent::StreamingStarted);
    let long = "x".repeat(90);
    app.handle_agent_event(TuiAgentEvent::StreamingThinking(long.clone()));
    assert_eq!(app.conversation().len(), 2);
    assert!(matches!(app.conversation().lines()[0], ConversationLine::Separator));
    match last_line(&app) {
        ConversationLine::Thinking { text } => assert_eq!(text, format!("{}…", "x".repeat(78))),
        other => panic!("unexpected line {:?}", other),
    }
    app.handle_agent_event(TuiAgentEvent::StreamingText("answer".to_string()));
    match &app.conversation().lines()[1] {
        ConversationLine::Thinking { text } => assert_eq!(text, &long),
        other => panic!("unexpected line {:?}", other),
    }
    assert_eq!(app.conversation().len(), 3);
}

#[test]
fn agent_error_is_reported() {
    let mut app = make_app();
    app.handle_agent_event(TuiAgentEvent::StreamingStarted);
    app.handle_agent_event(TuiAgentEvent::Error("timeout".to_string()));
    match last_line(&app) {
        ConversationLine::System { text } => assert_eq!(text, "⚠ Error: timeout"),
        other => panic!("unexpected line {:?}", other),
    }
    assert!(!app.state().streaming);
}

#[test]
fn tool_events_fill_conversation_and_panel() {
    let mut app = make_app();
    app.handle_agent_event(TuiAgentEvent::ToolCall { name: "run".to_string(), args_summary: "ls".to_string() });
    app.handle_agent_event(TuiAgentEvent::ToolResult { name: "run".to_string(), content: "boom".to_string(), is_error: true });
    assert_eq!(app.conversation().len(), 2);
    let r = app.tool_output_mut().result(0).cloned().unwrap();
    assert_eq!(r.status, ToolStatus::Error { message: "boom".to_string() });
    assert_eq!(r.args_summary, "");
}

#[test]
fn mode_and_token_events_update_status_bar() {
    let mut app = make_app();
    app.handle_agent_event(TuiAgentEvent::ModeChanged("research".to_string()));
    app.handle_agent_event(TuiAgentEvent::ModelChanged("qwen".to_string()));
    app.handle_agent_event(TuiAgentEvent::TokenUpdate { count: 12000, limit: Some(128000) });
    assert_eq!(app.state().mode, "research");
    assert_eq!(app.state().token_count, Some(12000));
    let bar = app.status_bar_mut();
    assert_eq!(bar.mode_label, "research");
    assert_eq!(bar.model_name, "qwen");
    assert_eq!(bar.token_count, Some((12000, 128000)));
}

#[test]
fn context_warning_event_sets_banner() {
    let mut app = make_app();
    app.handle_agent_event(TuiAgentEvent::ContextWarning { percentage: 93, critical: true });
    assert_eq!(*app.conversation().context_warning(), ContextWarningLevel::Critical(93));
    app.handle_agent_event(TuiAgentEvent::ContextWarning { percentage: 75, critical: false });
    assert_eq!(*app.conversation().context_warning(), ContextWarningLevel::Warning(75));
}

#[test]
fn confirmation_round_trip() {
    let mut app = make_app();
    app.set_focus(Focus::Structure);
    app.handle_agent_event(TuiAgentEvent::ConfirmTool {
        name: "write".to_string(),
        args_summary: "a.txt".to_string(),
        needs_approval: true,
        diff_preview: None,
    });
    assert!(app.is_confirming());
    assert_eq!(app.focus(), Focus::InputBar);
    let action = app.handle_event(&key(Key::Char('a')), layout());
    assert!(matches!(action, Action::ConfirmAll));
    let sent = app.handle_action(action);
    assert!(matches!(sent, Some(TuiUserAction::ConfirmResponse { approved: true, auto_accept: true })));
    assert!(!app.is_confirming());
}

#[test]
fn question_answer_by_number_and_by_text() {
    let mut app = make_app();
    app.handle_agent_event(TuiAgentEvent::Question {
        question: "Pick".to_string(),
        answers: vec!["red".to_string(), "blue".to_string()],
    });
    let sent = app.handle_action(Action::AnswerQuestion("2".to_string()));
    match sent {
        Some(TuiUserAction::QuestionAnswer(a)) => assert_eq!(a, "blue"),
        other => panic!("unexpected {:?}", other),
    }
    for input in ["3", "0", "green", "+1"] {
        let mut probe = make_app();
        probe.handle_agent_event(TuiAgentEvent::Question {
            question: "Pick".to_string(),
            answers: vec!["red".to_string(), "blue".to_string()],
        });
        let expected = if input == "+1" { "red" } else { input };
        match probe.handle_action(Action::AnswerQuestion(input.to_string())) {
            Some(TuiUserAction::QuestionAnswer(a)) => assert_eq!(a, expected),
            other => panic!("unexpected {:?}", other),
        }
    }
}

#[test]
fn send_message_is_added_and_counted() {
    let mut app = make_app();
    let sent = app.handle_action(Action::SendMessage("hi".to_string()));
    assert!(matches!(sent, Some(TuiUserAction::SendMessage(ref t)) if t == "hi"));
    assert_eq!(app.state().message_count, 1);
    assert_eq!(app.conversation().len(), 1);
}

#[test]
fn ctrl_f_opens_and_closes_search() {
    let mut app = make_app();
    app.handle_event(&ctrl('f'), layout());
    assert!(app.conversation().is_search_active());
    assert_eq!(app.focus(), Focus::Conversation);
    app.handle_event(&ctrl('f'), layout());
    assert!(!app.conversation().is_search_active());
    assert_eq!(app.focus(), Focus::InputBar);
}

#[test]
fn resize_keeps_help_scroll_in_range() {
    let mut app = make_app();
    app.help_mut().visible = true;
    render(&mut app);
    app.help_mut().scroll = 40;
    app.handle_event(&Event::Resize { cols: 100, rows: 30 }, layout());
    assert_eq!(app.size(), Size::new(100, 30));
    // 52 help lines, 30 - 4 - 3 = 23 rows for them: at most 29 rows scrolled.
    assert_eq!(app.help().scroll, 29);
}
