use tinyharness_ui::tui::cell::Color;
use tinyharness_ui::tui::event::{Event, Key, KeyEvent, Modifiers};
use tinyharness_ui::tui::layout::Rect;
use tinyharness_ui::tui::screen::Screen;
use tinyharness_ui::tui::widget::{Action, Widget};
use tinyharness_ui::tui::widgets::conversation::{ContextWarningLevel, ConversationLine, ConversationWidget};

#[test]
fn test_conversation_new() {
    let conv = ConversationWidget::new();
    assert!(conv.is_empty());
    assert!(conv.auto_scroll());
}

#[test]
fn test_conversation_push() {
    let mut conv = ConversationWidget::new();
    conv.push(ConversationLine::User {
        text: "Hello".to_string(),
    });
    conv.push(ConversationLine::Assistant {
        text: "Hi there!".to_string(),
    });
    assert_eq!(conv.len(), 2);
}

#[test]
fn test_conversation_scroll() {
    let mut conv = ConversationWidget::new();
    for i in 0..50 {
        conv.push(ConversationLine::User {
            text: format!("Message {}", i),
        });
    }
    assert!(conv.auto_scroll());

    conv.scroll_up(10);
    assert!(!conv.auto_scroll());

    conv.scroll_down(10);
}

#[test]
fn test_conversation_clear() {
    let mut conv = ConversationWidget::new();
    conv.push(ConversationLine::User {
        text: "Hello".to_string(),
    });
    conv.clear();
    assert!(conv.is_empty());
}

#[test]
fn test_conversation_render() {
    let mut screen = Screen::new(80, 24);
    let mut conv = ConversationWidget::new();
    conv.push(ConversationLine::User {
        text: "Hello".to_string(),
    });
    conv.push(ConversationLine::Separator);
    conv.push(ConversationLine::Assistant {
        text: "Hi there!".to_string(),
    });

    let area = Rect::new(0, 0, 80, 20);
    conv.render(area, &mut screen);

    assert!(screen.get(0, 0).unwrap().char != '\0');
}

#[test]
fn test_tool_result_line_height() {
    let conv = ConversationWidget::new();
    let line = ConversationLine::ToolResult {
        name: "read".to_string(),
        content: "line1\nline2\nline3".to_string(),
        is_error: false,
    };
    assert_eq!(conv.line_height(&line, 80), 3);
}

#[test]
fn test_tool_result_trailing_newlines() {
    let conv = ConversationWidget::new();
    // Trailing newlines should be trimmed
    let line = ConversationLine::ToolResult {
        name: "read".to_string(),
        content: "line1\nline2\n\n\n".to_string(),
        is_error: false,
    };
    // Should count 2 visible lines, not 4
    assert_eq!(conv.line_height(&line, 80), 2);
}

#[test]
fn test_tool_result_truncated() {
    let conv = ConversationWidget::new();
    // Content with more than 20 lines should be capped
    let long_content: String = (0..30)
        .map(|i| format!("line {}", i))
        .collect::<Vec<_>>()
        .join("\n");
    let line = ConversationLine::ToolResult {
        name: "run".to_string(),
        content: long_content,
        is_error: false,
    };
    // Should be capped at 20 lines + truncation indicator
    let height = conv.line_height(&line, 80);
    assert!(
        height <= 21,
        "Tool result should be capped at ~20 lines, got {}",
        height
    );
}

#[test]
fn test_tool_result_single_line() {
    let conv = ConversationWidget::new();
    let line = ConversationLine::ToolResult {
        name: "read".to_string(),
        content: "single line".to_string(),
        is_error: false,
    };
    assert_eq!(conv.line_height(&line, 80), 1);
}

#[test]
fn test_assistant_wrapping_line_height() {
    let conv = ConversationWidget::new();
    // With width=20, prefix "  AI:  " (7 chars), text "12345678901234567890" (20 chars)
    // First row: prefix + 13 chars, second row: 7 more chars
    let line = ConversationLine::Assistant {
        text: "12345678901234567890".to_string(),
    };
    let height = conv.line_height(&line, 20);
    assert!(
        height >= 2,
        "Long text should wrap to multiple rows, got {}",
        height
    );
}

#[test]
fn test_confirm_prompt_line_height() {
    let conv = ConversationWidget::new();
    let line = ConversationLine::ConfirmPrompt {
        name: "run".to_string(),
        args_summary: "cargo test".to_string(),
        diff_preview: None,
    };
    // ConfirmPrompt with no diff takes 1 row
    assert_eq!(conv.line_height(&line, 80), 1);
}

#[test]
fn test_confirm_prompt_with_diff_line_height() {
    let conv = ConversationWidget::new();
    let diff = "-  old line\n+  new line\n  context line".to_string();
    let line = ConversationLine::ConfirmPrompt {
        name: "edit".to_string(),
        args_summary: "src/main.rs".to_string(),
        diff_preview: Some(diff),
    };
    // 1 row for prompt + 3 rows for diff lines
    assert_eq!(conv.line_height(&line, 80), 4);
}

#[test]
fn test_confirm_prompt_push() {
    let mut conv = ConversationWidget::new();
    conv.push(ConversationLine::ConfirmPrompt {
        name: "run".to_string(),
        args_summary: "cargo build".to_string(),
        diff_preview: None,
    });
    assert_eq!(conv.len(), 1);
}

// ── Search tests ────────────────────────────────────────────────────

#[test]
fn test_search_toggle() {
    let mut conv = ConversationWidget::new();
    assert!(!conv.is_search_active());
    conv.toggle_search();
    assert!(conv.is_search_active());
    conv.toggle_search();
    assert!(!conv.is_search_active());
}

#[test]
fn test_search_close() {
    let mut conv = ConversationWidget::new();
    conv.toggle_search();
    assert!(conv.is_search_active());
    conv.close_search();
    assert!(!conv.is_search_active());
}

#[test]
fn test_search_type_char_and_backspace() {
    let mut conv = ConversationWidget::new();
    conv.toggle_search();
    conv.search_type_char('h');
    conv.search_type_char('i');
    assert_eq!(conv.search_query(), "hi");
    assert_eq!(conv.search_cursor(), 2);
    conv.search_backspace();
    assert_eq!(conv.search_query(), "h");
    assert_eq!(conv.search_cursor(), 1);
    conv.search_backspace();
    assert_eq!(conv.search_query(), "");
    assert_eq!(conv.search_cursor(), 0);
    // Backspace on empty query is a no-op
    conv.search_backspace();
    assert_eq!(conv.search_query(), "");
}

#[test]
fn test_search_cursor_movement() {
    let mut conv = ConversationWidget::new();
    conv.toggle_search();
    conv.search_type_char('a');
    conv.search_type_char('b');
    conv.search_type_char('c');
    assert_eq!(conv.search_cursor(), 3);
    conv.search_cursor_left();
    assert_eq!(conv.search_cursor(), 2);
    conv.search_cursor_left();
    assert_eq!(conv.search_cursor(), 1);
    conv.search_cursor_right();
    assert_eq!(conv.search_cursor(), 2);
    // Can't go past the end
    conv.search_cursor_right();
    conv.search_cursor_right();
    assert_eq!(conv.search_cursor(), 3);
}

#[test]
fn test_search_matches() {
    let mut conv = ConversationWidget::new();
    conv.push(ConversationLine::User {
        text: "Hello world".to_string(),
    });
    conv.push(ConversationLine::Assistant {
        text: "Hi there!".to_string(),
    });
    conv.push(ConversationLine::User {
        text: "Hello again".to_string(),
    });
    conv.toggle_search();
    conv.search_type_char('h');
    conv.search_type_char('e');
    conv.search_type_char('l');
    // "hel" matches "Hello world" and "Hello again" (case-insensitive)
    assert_eq!(conv.search_matches().len(), 2);
}

#[test]
fn test_search_no_matches() {
    let mut conv = ConversationWidget::new();
    conv.push(ConversationLine::User {
        text: "Hello world".to_string(),
    });
    conv.toggle_search();
    conv.search_type_char('z');
    conv.search_type_char('z');
    conv.search_type_char('z');
    assert!(conv.search_matches().is_empty());
}

#[test]
fn test_search_navigation() {
    let mut conv = ConversationWidget::new();
    conv.push(ConversationLine::User {
        text: "First match".to_string(),
    });
    conv.push(ConversationLine::Assistant {
        text: "No hit here".to_string(),
    });
    conv.push(ConversationLine::User {
        text: "Second match".to_string(),
    });
    conv.toggle_search();
    conv.search_type_char('m');
    conv.search_type_char('a');
    conv.search_type_char('t');
    conv.search_type_char('c');
    conv.search_type_char('h');
    assert_eq!(conv.search_matches().len(), 2);
    assert_eq!(conv.current_match(), 0);
    conv.search_next();
    assert_eq!(conv.current_match(), 1);
    conv.search_next();
    assert_eq!(conv.current_match(), 0); // wraps around
    conv.search_prev();
    assert_eq!(conv.current_match(), 1); // wraps around
}

#[test]
fn test_search_clears_on_close() {
    let mut conv = ConversationWidget::new();
    conv.toggle_search();
    conv.search_type_char('x');
    conv.close_search();
    assert!(!conv.is_search_active());
    assert!(conv.search_query().is_empty());
    assert!(conv.search_matches().is_empty());
}

// ── Context warning tests ──────────────────────────────────────────

#[test]
fn test_context_warning_default() {
    let conv = ConversationWidget::new();
    assert!(matches!(conv.context_warning(), ContextWarningLevel::Normal));
}

#[test]
fn test_context_warning_set_warning() {
    let mut conv = ConversationWidget::new();
    conv.set_context_warning(ContextWarningLevel::Warning(75));
    assert!(matches!(
        conv.context_warning(),
        ContextWarningLevel::Warning(75)
    ));
}

#[test]
fn test_context_warning_set_critical() {
    let mut conv = ConversationWidget::new();
    conv.set_context_warning(ContextWarningLevel::Critical(92));
    assert!(matches!(
        conv.context_warning(),
        ContextWarningLevel::Critical(92)
    ));
}

#[test]
fn test_context_warning_render() {
    let mut screen = Screen::new(80, 24);
    let mut conv = ConversationWidget::new();
    conv.push(ConversationLine::User {
        text: "Hello".to_string(),
    });
    conv.set_context_warning(ContextWarningLevel::Warning(75));
    let area = Rect::new(0, 0, 80, 20);
    conv.render(area, &mut screen);
    // First row should have the warning banner (non-default background)
    let first_cell = screen.get(0, 0).unwrap();
    assert_ne!(first_cell.bg, Color::Default);
    assert_eq!(first_cell.char, ' ');
}

#[test]
fn test_context_warning_critical_render() {
    let mut screen = Screen::new(80, 24);
    let mut conv = ConversationWidget::new();
    conv.push(ConversationLine::User {
        text: "Hello".to_string(),
    });
    conv.set_context_warning(ContextWarningLevel::Critical(95));
    let area = Rect::new(0, 0, 80, 20);
    conv.render(area, &mut screen);
    let first_cell = screen.get(0, 0).unwrap();
    assert_eq!(first_cell.bg, Color::Ansi(52)); // dark red bg for critical
}

// ── Diff coloring tests ─────────────────────────────────────────────

#[test]
fn test_diff_coloring_in_tool_result() {
    let mut screen = Screen::new(80, 24);
    let mut conv = ConversationWidget::new();
    conv.push(ConversationLine::ToolResult {
        name: "edit".to_string(),
        content:
            "--- a/file.rs\n+++ b/file.rs\n@@ -1,3 +1,3 @@\n- old line\n+ new line\n  context"
                .to_string(),
        is_error: false,
    });
    let area = Rect::new(0, 0, 80, 20);
    conv.render(area, &mut screen);
    // Just verify it doesn't panic and renders something
    assert!(screen.get(0, 0).unwrap().char != '\0');
}

#[test]
fn test_diff_coloring_in_confirm_prompt() {
    let mut screen = Screen::new(80, 24);
    let mut conv = ConversationWidget::new();
    conv.push(ConversationLine::ConfirmPrompt {
        name: "edit".to_string(),
        args_summary: "src/main.rs".to_string(),
        diff_preview: Some("@@ -1,3 +1,3 @@\n- old line\n+ new line".to_string()),
    });
    let area = Rect::new(0, 0, 80, 20);
    conv.render(area, &mut screen);
    assert!(screen.get(0, 0).unwrap().char != '\0');
}

#[test]
fn test_search_bar_render() {
    let mut screen = Screen::new(80, 24);
    let mut conv = ConversationWidget::new();
    conv.push(ConversationLine::User {
        text: "Hello".to_string(),
    });
    conv.toggle_search();
    conv.search_type_char('H');
    let area = Rect::new(0, 0, 80, 20);
    conv.render(area, &mut screen);
    // Search bar should be at the bottom row (row 19)
    let search_bar_row = 19u16;
    let cell = screen.get(search_bar_row, 1).unwrap();
    assert_eq!(cell.char, 'S'); // "Search: " starts with S
}

// ── Overflow / clipping tests ─────────────────────────────────────────

/// Check that no non-default cells are written outside the render area.
fn check_no_overflow(screen: &Screen, area: Rect) -> Vec<(u16, u16, char)> {
    let mut overflows = Vec::new();
    for row in 0..screen.height() {
        for col in 0..screen.width() {
            // Only check cells outside the render area
            if row >= area.y
                && row < area.y + area.height
                && col >= area.x
                && col < area.x + area.width
            {
                continue;
            }
            let cell = screen.get(row, col).unwrap();
            if cell.char != ' ' && cell.char != '\0' {
                overflows.push((row, col, cell.char));
            }
        }
    }
    overflows
}

#[test]
fn test_tool_call_does_not_overflow_small_area() {
    // Create a small screen (40 cols, 10 rows)
    // Conversation gets only 5 rows (rows 0-4), rest is "input area"
    let mut screen = Screen::new(40, 10);
    let mut conv = ConversationWidget::new();

    // Push a multiline tool call
    conv.push(ConversationLine::ToolCall {
        name: "run".to_string(),
        args_summary: "line1\nline2\nline3\nline4\nline5\nline6\nline7\nline8".to_string(),
    });

    // Render into a small 5-row area
    let area = Rect::new(0, 0, 40, 5);
    conv.render(area, &mut screen);

    // Check for overflow past the bottom of the area (rows 5-9)
    let overflows = check_no_overflow(&screen, area);
    assert!(
        overflows.is_empty(),
        "ToolCall content overflows past area: {:?}",
        overflows
    );
}

#[test]
fn test_tool_result_does_not_overflow_small_area() {
    // Create a small screen (40 cols, 10 rows)
    let mut screen = Screen::new(40, 10);
    let mut conv = ConversationWidget::new();

    // Push a long tool result
    let content: String = (0..15)
        .map(|i| format!("output line number {}", i))
        .collect::<Vec<_>>()
        .join("\n");

    conv.push(ConversationLine::ToolResult {
        name: "run".to_string(),
        content,
        is_error: false,
    });

    // Render into a small 5-row area
    let area = Rect::new(0, 0, 40, 5);
    conv.render(area, &mut screen);

    // Check for overflow past the bottom of the area
    let overflows = check_no_overflow(&screen, area);
    assert!(
        overflows.is_empty(),
        "ToolResult content overflows past area: {:?}",
        overflows
    );
}

#[test]
fn test_tool_call_wrapping_does_not_overflow() {
    // Long args_summary that wraps in a narrow area
    let mut screen = Screen::new(30, 10);
    let mut conv = ConversationWidget::new();

    conv.push(ConversationLine::ToolCall {
        name: "run".to_string(),
        args_summary:
            "cargo test --all-features --workspace -- --test-threads=1 2>&1 | head -100"
                .to_string(),
    });

    // 4-row area — the wrapping should be clipped, not overflow
    let area = Rect::new(0, 0, 30, 4);
    conv.render(area, &mut screen);

    let overflows = check_no_overflow(&screen, area);
    assert!(
        overflows.is_empty(),
        "ToolCall wrapping overflows past area: {:?}",
        overflows
    );
}

#[test]
fn test_error_tool_result_does_not_overflow() {
    // Error tool result with background fill should not overflow
    let mut screen = Screen::new(40, 10);
    let mut conv = ConversationWidget::new();

    conv.push(ConversationLine::ToolResult {
        name: "run".to_string(),
        content: "error line 1\nerror line 2\nerror line 3\nerror line 4\nerror line 5"
            .to_string(),
        is_error: true,
    });

    let area = Rect::new(0, 0, 40, 3);
    conv.render(area, &mut screen);

    let overflows = check_no_overflow(&screen, area);
    assert!(
        overflows.is_empty(),
        "Error ToolResult overflows past area: {:?}",
        overflows
    );
}

#[test]
fn test_tool_call_line_height_matches_rendering() {
    // Verify that line_height for ToolCall matches actual rendered height
    let conv = ConversationWidget::new();

    // Test 1: short args that fit on one line
    let line = ConversationLine::ToolCall {
        name: "read".to_string(),
        args_summary: "file.txt".to_string(),
    };
    let height = conv.line_height(&line, 40);
    // With header "  ── read" (9 display cols) and args "file.txt" (8 cols),
    // total is 17 cols which fits in 39 cols (40-1 scrollbar). Height = 1.
    assert_eq!(
        height, 1,
        "Short ToolCall should have height 1, got {}",
        height
    );

    // Test 2: args with newlines
    let line = ConversationLine::ToolCall {
        name: "run".to_string(),
        args_summary: "cmd1\ncmd2".to_string(),
    };
    let height = conv.line_height(&line, 40);
    // "  ── run" (9 display cols) + "cmd1" fits on line 1, then wrap to "cmd2" on line 2
    assert_eq!(
        height, 2,
        "ToolCall with newline should have height 2, got {}",
        height
    );

    // Test 3: very long args that wrap
    let line = ConversationLine::ToolCall {
        name: "run".to_string(),
        args_summary: "cargo test --all-features --workspace".to_string(),
    };
    let height = conv.line_height(&line, 20);
    // In a 20-wide area (19 content cols), "  ── run" is 9 cols wide.
    // But header.len() = 9 (ASCII only) so args start at col 9.
    // Wait — "  ── run" where ── is U+2500 (3 bytes each) = "  " (2) + "──" (6 bytes, 2 display cols) + " run" (4) = 12 bytes, 8 display cols
    // header.len() = 12 (bytes), not 8 (display cols)
    // So args start at col 12 (should be col 8), causing wrapping earlier than needed.
    // With wrap_col = 19, args start at col 12, leaving only 7 cols for text.
    // "cargo test" is 10 chars, so it wraps.
    // This is a known byte-vs-display-width bug but height calculation should still be consistent.
    assert!(
        height >= 2,
        "Long ToolCall should wrap to >= 2 rows, got {}",
        height
    );
}

#[test]
fn test_tool_result_line_height_consistency() {
    // ToolResult line_height uses line_height_for_text which wraps,
    // but actual rendering truncates. Verify the height is at least
    // as large as the actual number of rendered rows.
    let conv = ConversationWidget::new();

    // Single-line result
    let line = ConversationLine::ToolResult {
        name: "run".to_string(),
        content: "hello world".to_string(),
        is_error: false,
    };
    let height = conv.line_height(&line, 40);
    assert_eq!(height, 1, "Single-line result should have height 1");

    // Multi-line result (no wrapping needed at width 40)
    let line = ConversationLine::ToolResult {
        name: "run".to_string(),
        content: "line1\nline2\nline3".to_string(),
        is_error: false,
    };
    let height = conv.line_height(&line, 40);
    assert_eq!(height, 3, "3-line result should have height 3");

    // Multi-line result with long lines (wrapping in height calculation)
    // The height should be >= the number of actual rendered lines (which truncate)
    let long_line = "a".repeat(100); // Way wider than 40 cols
    let line = ConversationLine::ToolResult {
        name: "run".to_string(),
        content: long_line,
        is_error: false,
    };
    let height = conv.line_height(&line, 40);
    // Since the content is one long line that wraps in height calculation,
    // height should be > 1 (it wraps in the height calc even though rendering truncates)
    assert!(
        height >= 1,
        "Long single-line result height should be >= 1, got {}",
        height
    );
    // Note: This reveals a height overestimation bug — the height calculation
    // wraps long lines, but rendering truncates them. This means line_height
    // overestimates, causing gaps in the conversation but not overflow.
}

#[test]
fn test_conversation_tool_call_scroll_clipping() {
    // Test that a scrolled conversation with a ToolCall clips correctly
    let mut screen = Screen::new(40, 10);
    let mut conv = ConversationWidget::new();

    // Add enough lines to fill the area and require scrolling
    for i in 0..20 {
        conv.push(ConversationLine::User {
            text: format!("Message {}", i),
        });
    }
    // Add a multiline tool call near the bottom
    conv.push(ConversationLine::ToolCall {
        name: "run".to_string(),
        args_summary: "line1\nline2\nline3\nline4\nline5".to_string(),
    });
    conv.push(ConversationLine::ToolResult {
        name: "run".to_string(),
        content: "output".to_string(),
        is_error: false,
    });

    // Render in a 5-row area (rows 0-4)
    let area = Rect::new(0, 0, 40, 5);
    conv.render(area, &mut screen);

    // Check that rows 5-9 have no non-default content (i.e., no overflow)
    let overflows = check_no_overflow(&screen, area);
    assert!(
        overflows.is_empty(),
        "Scrolled conversation with ToolCall overflows: {:?}",
        overflows
    );
}

#[test]
fn test_tool_result_overestimation_does_not_cause_overflow() {
    // When line_height overestimates (wrapping in height calc, truncation in render),
    // the outer loop should still not cause overflow because screen_row is clamped
    // to content_area.bottom().
    let mut screen = Screen::new(40, 10);
    let mut conv = ConversationWidget::new();

    // Add a ToolResult with a very long single line (will be truncated in rendering)
    let long_content = "x".repeat(200);
    conv.push(ConversationLine::ToolResult {
        name: "run".to_string(),
        content: long_content,
        is_error: false,
    });

    // Render in a 3-row area
    let area = Rect::new(0, 0, 40, 3);
    conv.render(area, &mut screen);

    // Check that rows 3-9 have no overflow
    let overflows = check_no_overflow(&screen, area);
    assert!(
        overflows.is_empty(),
        "ToolResult with long line overflows: {:?}",
        overflows
    );
}

#[test]
fn test_tool_call_with_offset_area_no_overflow() {
    // Simulate the actual TUI layout: conversation area starts at row 1
    // (below status bar), with input bar below it.
    // Screen: 80x24, status bar at row 0, conversation at rows 1-19, input at 20-23
    let mut screen = Screen::new(80, 24);

    // First, "draw" the input bar area (rows 20-23) with identifiable content
    for row in 20u16..24 {
        for col in 0..80 {
            if let Some(cell) = screen.get_mut(row, col) {
                cell.char = 'I'; // I for Input
                cell.fg = Color::green();
            }
        }
    }

    let mut conv = ConversationWidget::new();

    // Add a tool call with multiline args that should fill the conversation area
    conv.push(ConversationLine::User {
        text: "Please run this command".to_string(),
    });
    conv.push(ConversationLine::ToolCall {
        name: "run".to_string(),
        args_summary: "cargo build --release && cargo test --all-features --workspace 2>&1 | tee build.log".to_string(),
    });
    // Add a large tool result
    let result_lines: Vec<String> = (0..25)
        .map(|i| format!("Compiling crate v{}.{}/{}.0...", i / 10, i % 10, i))
        .collect();
    conv.push(ConversationLine::ToolResult {
        name: "run".to_string(),
        content: result_lines.join("\n"),
        is_error: false,
    });
    // Add another tool call after the result
    conv.push(ConversationLine::ToolCall {
        name: "read".to_string(),
        args_summary: "build.log".to_string(),
    });

    // Render conversation in the area rows 1-19 (height 19)
    let area = Rect::new(0, 1, 80, 19);
    conv.render(area, &mut screen);

    // Check that the input bar area (rows 20-23) is not overwritten
    for row in 20u16..24 {
        for col in 0..80 {
            let cell = screen.get(row, col).unwrap();
            // The input bar cells should still have 'I' character
            // (conversation should not have overflowed into them)
            assert_eq!(
                cell.char, 'I',
                "Input bar cell at row={}, col={} was overwritten by conversation (char='{}')",
                row, col, cell.char
            );
        }
    }
}

#[test]
fn test_tool_result_error_with_bg_fill_no_overflow() {
    // Error tool results fill background color across the row width.
    // Make sure this doesn't overflow the area.
    let mut screen = Screen::new(80, 24);

    // Mark rows below the conversation area
    for row in 10u16..24 {
        for col in 0..80 {
            if let Some(cell) = screen.get_mut(row, col) {
                cell.char = 'X';
            }
        }
    }

    let mut conv = ConversationWidget::new();
    conv.push(ConversationLine::ToolResult {
        name: "run".to_string(),
        content: "error: could not compile\nerror: build failed\ncargo test failed".to_string(),
        is_error: true,
    });

    // Render in a small area (rows 0-9, height 10)
    let area = Rect::new(0, 0, 80, 10);
    conv.render(area, &mut screen);

    // Check that rows 10-23 still have 'X' (not overwritten)
    for row in 10u16..24 {
        for col in 0..80 {
            let cell = screen.get(row, col).unwrap();
            assert_eq!(
                cell.char, 'X',
                "Row {} col {} was overwritten (char='{}'), should be 'X'",
                row, col, cell.char
            );
        }
    }
}

#[test]
fn test_tool_call_multiline_args_render_height() {
    // Verify that a ToolCall with multiline args renders correctly
    // within the area bounds and that screen_row tracking is accurate.
    let mut screen = Screen::new(40, 20);
    let mut conv = ConversationWidget::new();

    // Tool call with newlines in args_summary
    conv.push(ConversationLine::ToolCall {
        name: "run".to_string(),
        args_summary: "cmd1 && cmd2 && cmd3 && cmd4 && cmd5".to_string(),
    });
    // Add a marker line after to check screen_row tracking
    conv.push(ConversationLine::User {
        text: "after tool call".to_string(),
    });

    let area = Rect::new(0, 0, 40, 20);
    conv.render(area, &mut screen);

    // Verify something is rendered
    assert!(
        screen.get(0, 2).unwrap().char != ' ',
        "Tool call header should be rendered"
    );

    // The "after tool call" user message should appear after the tool call
    // Find where the user message appears
    let mut found_after = false;
    for row in 1..20 {
        for col in 0..40 {
            let cell = screen.get(row, col).unwrap();
            if cell.char == 'a' {
                // Check if this is "after tool call"
                let mut text = String::new();
                for c in col..40 {
                    if let Some(cell) = screen.get(row, c) {
                        if cell.char == ' ' {
                            break;
                        }
                        text.push(cell.char);
                    }
                }
                if text.starts_with("after") {
                    found_after = true;
                    break;
                }
            }
        }
        if found_after {
            break;
        }
    }
    assert!(
        found_after,
        "User message 'after tool call' should be rendered"
    );
}

#[test]
fn test_confirm_prompt_line_height_matches_rendering() {
    // Verify that ConfirmPrompt line_height matches actual rendered height.
    // This was a bug where line_height used line_height_for_text (which counts wrapping)
    // but rendering truncates each diff line to 1 row.
    let conv = ConversationWidget::new();

    // ConfirmPrompt with multi-line diff
    let line = ConversationLine::ConfirmPrompt {
        name: "edit".to_string(),
        args_summary: "src/main.rs".to_string(),
        diff_preview: Some(
            "@@ -1,3 +1,3 @@\n- old line that is very long and should be wrapped in line_height_for_text\n+ new line\n context line"
                .to_string(),
        ),
    };
    let height = conv.line_height(&line, 40);
    // Prompt line (1) + diff lines (4: hunk header, removed, added, context) = 5
    // Each diff line is 1 row because rendering truncates, not wraps.
    assert_eq!(
        height, 5,
        "ConfirmPrompt with 4 diff lines should have height 5 (1 prompt + 4 diff), got {}",
        height
    );
}

#[test]
fn test_confirm_prompt_does_not_create_stairs() {
    // The "stairs" bug: ConfirmPrompt line_height overcounts (using line_height_for_text
    // which wraps), but rendering truncates. This causes the outer loop's screen_row
    // to advance past where content was actually rendered, creating gaps/stairs.
    let mut screen = Screen::new(80, 24);
    let mut conv = ConversationWidget::new();

    // Add a ConfirmPrompt with a diff containing long lines
    conv.push(ConversationLine::ConfirmPrompt {
        name: "edit".to_string(),
        args_summary: "src/main.rs".to_string(),
        diff_preview: Some(
            "@@ -1,3 +1,3 @@\n- old line that is very long and should be truncated in rendering\n+ new line\n context line"
                .to_string(),
        ),
    });
    // Add a user message after — this should appear immediately after the ConfirmPrompt
    conv.push(ConversationLine::User {
        text: "after confirm".to_string(),
    });

    let area = Rect::new(0, 0, 80, 24);
    conv.render(area, &mut screen);

    // Find where the "after confirm" user message starts
    let mut found_after_row = None;
    for row in 0..24u16 {
        for col in 0..80u16 {
            let cell = screen.get(row, col).unwrap();
            if cell.char == 'a' {
                let mut text = String::new();
                for c in col..80u16 {
                    if let Some(cell) = screen.get(row, c) {
                        if cell.char == ' ' {
                            break;
                        }
                        text.push(cell.char);
                    }
                }
                if text.starts_with("after") {
                    found_after_row = Some(row);
                    break;
                }
            }
        }
        if found_after_row.is_some() {
            break;
        }
    }
    let after_row = found_after_row.expect("'after confirm' message should be rendered");

    // ConfirmPrompt should be: 1 prompt line + 4 diff lines = 5 rows
    // So "after confirm" should start at row 5 (0-indexed)
    assert!(
        after_row <= 5,
        "After-confirm message should be at row 5 or less (got {}), \
         stairs bug would push it further",
        after_row
    );
}

#[test]
fn test_question_wrapping_height_matches() {
    // Verify that Question rendering and line_height are consistent
    // when question or answer text wraps.
    let mut screen = Screen::new(30, 20);
    let mut conv = ConversationWidget::new();

    // Question with a long question that wraps in narrow area
    conv.push(ConversationLine::Question {
        question:
            "What is the best approach for handling very long questions that need to wrap?"
                .to_string(),
        answers: vec!["Short answer".to_string()],
    });

    let area = Rect::new(0, 0, 30, 20);
    conv.render(area, &mut screen);

    // Check no overflow
    let overflows = check_no_overflow(&screen, area);
    assert!(
        overflows.is_empty(),
        "Question with wrapping overflows: {:?}",
        overflows
    );
}

#[test]
fn test_confirm_prompt_long_text_does_not_overflow() {
    // The main bug: long confirmation text (like a `run` command) should not
    // overflow past the conversation area into adjacent widgets (input bar,
    // sidebar, etc.). The prompt text must wrap within the area boundaries.
    let mut screen = Screen::new(40, 10);

    // Mark rows 5-9 with identifiable content to detect overflow
    for row in 5u16..10 {
        for col in 0..40 {
            if let Some(cell) = screen.get_mut(row, col) {
                cell.char = 'X';
                cell.fg = Color::red();
            }
        }
    }

    let mut conv = ConversationWidget::new();

    // Long confirmation prompt that would overflow if not wrapped/clipped
    conv.push(ConversationLine::ConfirmPrompt {
        name: "run".to_string(),
        args_summary:
            "cargo test --all-features --workspace -- --test-threads=1 2>&1 | head -100"
                .to_string(),
        diff_preview: None,
    });

    // Render into a 5-row area (rows 0-4)
    let area = Rect::new(0, 0, 40, 5);
    conv.render(area, &mut screen);

    // Check that rows 5-9 still have 'X' (not overwritten by overflow)
    for row in 5u16..10 {
        for col in 0..40 {
            let cell = screen.get(row, col).unwrap();
            assert_eq!(
                cell.char, 'X',
                "Row {} col {} was overwritten (char='{}') — ConfirmPrompt overflowed",
                row, col, cell.char
            );
        }
    }
}

#[test]
fn test_confirm_prompt_long_text_with_offset_area() {
    // Test that ConfirmPrompt doesn't overflow when rendered in an area
    // that doesn't start at row 0 (simulating the real TUI layout where
    // the conversation area starts below a status bar).
    let mut screen = Screen::new(80, 24);

    // Mark the input bar area (rows 20-23) with identifiable content
    for row in 20u16..24 {
        for col in 0..80 {
            if let Some(cell) = screen.get_mut(row, col) {
                cell.char = 'I';
            }
        }
    }

    let mut conv = ConversationWidget::new();

    // Add a user message, then a long ConfirmPrompt
    conv.push(ConversationLine::User {
        text: "Please run the tests".to_string(),
    });
    conv.push(ConversationLine::ConfirmPrompt {
        name: "run".to_string(),
        args_summary: "cargo test --all-features --workspace -- --test-threads=1 2>&1 | head -100 && echo 'done'".to_string(),
        diff_preview: None,
    });

    // Render conversation in the area rows 1-19 (height 19)
    let area = Rect::new(0, 1, 80, 19);
    conv.render(area, &mut screen);

    // Check that the input bar area (rows 20-23) is not overwritten
    for row in 20u16..24 {
        for col in 0..80 {
            let cell = screen.get(row, col).unwrap();
            assert_eq!(
                cell.char, 'I',
                "Input bar cell at row={}, col={} was overwritten (char='{}')",
                row, col, cell.char
            );
        }
    }
}

#[test]
fn test_confirm_prompt_suffix_on_new_line_when_wrapped() {
    // When the prompt text is long enough to wrap, the [y/n/a]? suffix
    // should appear on a new line if it doesn't fit after the wrapped text.
    // For short text, the suffix should appear on the same line.
    let mut screen = Screen::new(30, 10);
    let mut conv = ConversationWidget::new();

    // Short args that should fit on one line with the suffix
    conv.push(ConversationLine::ConfirmPrompt {
        name: "edit".to_string(),
        args_summary: "file.rs".to_string(),
        diff_preview: None,
    });

    let area = Rect::new(0, 0, 30, 10);
    conv.render(area, &mut screen);

    // The suffix "[y/n/a]?" should appear somewhere in the first few rows
    let mut found_suffix = false;
    for row in 0..3u16 {
        let mut row_text = String::new();
        for col in 0..30u16 {
            row_text.push(screen.get(row, col).unwrap().char);
        }
        if row_text.contains("[y/n/a]") {
            found_suffix = true;
            break;
        }
    }
    assert!(
        found_suffix,
        "ConfirmPrompt suffix [y/n/a]? should appear in rendered output for short text"
    );
}


/// Print a visual representation of what the screen looks like for a ConfirmPrompt
/// with very long text (simulating a `run` command with lorem ipsum).
#[test]
fn test_confirm_prompt_lorem_ipsum_visual() {
    let lorem = "Lorem ipsum dolor sit amet, consectetur adipiscing elit, sed do eiusmod tempor incididunt ut labore et dolore magna aliqua. Ut enim ad minim veniam, quis nostrud exercitation ullamco laboris nisi ut aliquip ex ea commodo consequat. Duis aute irure dolor in reprehenderit in voluptate velit esse cillum dolore eu fugiat nulla pariatur. Excepteur sint occaecat cupidatat non proident, sunt in culpa qui officia deserunt mollit anim id est laborum.";

    // Test with various narrow widths to simulate small terminals
    for width in [40, 60, 80, 120] {
        let mut screen = Screen::new(width, 20);

        // Mark rows below the conversation area
        let conv_height = 15u16;
        for row in conv_height..20 {
            for col in 0..width {
                if let Some(cell) = screen.get_mut(row, col) {
                    cell.char = 'I'; // Mark input bar area
                    cell.fg = Color::green();
                }
            }
        }

        // Mark columns beyond conversation width (simulating sidebar)
        let conv_width = width;
        for row in 0..conv_height {
            // (no sidebar in this test, but we could add one)
        }

        let mut conv = ConversationWidget::new();
        conv.push(ConversationLine::ConfirmPrompt {
            name: "run".to_string(),
            args_summary: format!("echo \"{}\"", lorem),
            diff_preview: None,
        });
        // Add a message after to verify layout isn't broken
        conv.push(ConversationLine::User {
            text: "after confirm".to_string(),
        });

        let area = Rect::new(0, 0, conv_width, conv_height);
        conv.render(area, &mut screen);

        // Check no overflow into input bar area
        let mut overflow_count = 0;
        for row in conv_height..20 {
            for col in 0..width {
                let cell = screen.get(row, col).unwrap();
                if cell.char != 'I' {
                    overflow_count += 1;
                }
            }
        }
        assert_eq!(
            overflow_count, 0,
            "ConfirmPrompt with lorem ipsum overflows into input area at width {} ({} cells overwritten)",
            width, overflow_count
        );

        // Print the rendered output for visual inspection
        println!("\n=== ConfirmPrompt at width {} ===", width);
        for row in 0..conv_height {
            let mut line = String::new();
            for col in 0..conv_width {
                let ch = screen.get(row, col).unwrap().char;
                line.push(if ch == '\0' || ch == ' ' { '.' } else { ch });
            }
            println!("{}", line);
        }
        println!("=== end ===\n");
    }
}

/// Test that a very long ConfirmPrompt with diff preview also doesn't overflow.
#[test]
fn test_confirm_prompt_long_text_with_diff_no_overflow() {
    let long_cmd = "echo \"Lorem ipsum dolor sit amet, consectetur adipiscing elit, sed do eiusmod tempor incididunt ut labore et dolore magna aliqua.\"";

    for width in [40, 60, 80] {
        let mut screen = Screen::new(width, 30);

        // Mark rows below conversation
        let conv_height = 20u16;
        for row in conv_height..30 {
            for col in 0..width {
                if let Some(cell) = screen.get_mut(row, col) {
                    cell.char = 'B'; // Below
                }
            }
        }

        let mut conv = ConversationWidget::new();
        conv.push(ConversationLine::ConfirmPrompt {
            name: "run".to_string(),
            args_summary: long_cmd.to_string(),
            diff_preview: Some(
                "@@ -1,5 +1,5 @@\n-old line that is also quite long and should be truncated properly\n+new line that replaces it\n context line".to_string(),
            ),
        });

        let area = Rect::new(0, 0, width, conv_height);
        conv.render(area, &mut screen);

        // Check no overflow
        let mut overflow_count = 0;
        for row in conv_height..30 {
            for col in 0..width {
                let cell = screen.get(row, col).unwrap();
                if cell.char != 'B' {
                    overflow_count += 1;
                }
            }
        }
        assert_eq!(
            overflow_count, 0,
            "ConfirmPrompt with diff overflows at width {} ({} cells)",
            width, overflow_count
        );
    }
}

// ── Question scroll/skip tests ──────────────────────────────────────

#[test]
fn test_question_scroll_skip_does_not_panic() {
    // Regression test: scrolling past a Question line should not panic
    // or leave content at wrong positions. The old code had an immutable
    // skip_top that was never decremented, causing misrendering.
    let mut screen = Screen::new(40, 10);
    let mut conv = ConversationWidget::new();

    // Add enough lines before the question to scroll past them
    for i in 0..10 {
        conv.push(ConversationLine::User {
            text: format!("Message {}", i),
        });
    }
    conv.push(ConversationLine::Question {
        question: "Which option?".to_string(),
        answers: vec![
            "First answer that is long enough to wrap".to_string(),
            "Second answer".to_string(),
            "Third answer".to_string(),
        ],
    });
    conv.push(ConversationLine::User {
        text: "after question".to_string(),
    });

    // Scroll so the question is partially visible
    conv.set_scroll_offset(8);

    let area = Rect::new(0, 0, 40, 5);
    conv.render(area, &mut screen);

    // Should not panic — that's the core assertion
}

#[test]
fn test_question_scroll_past_question_shows_answers() {
    // When scrolled past the question text, the answers should be visible.
    let mut screen = Screen::new(40, 20);
    let mut conv = ConversationWidget::new();

    // Add padding lines before the question so scrolling is possible.
    // We need total_height > visible_rows + scroll_offset so the
    // scroll offset isn't clamped.
    for i in 0..30 {
        conv.push(ConversationLine::User {
            text: format!("Padding {}", i),
        });
    }
    conv.push(ConversationLine::Question {
        question: "Pick one".to_string(),
        answers: vec![
            "Answer A".to_string(),
            "Answer B".to_string(),
            "Answer C".to_string(),
            "Answer D".to_string(),
            "Answer E".to_string(),
        ],
    });

    // Skip past the 30 padding lines + 1 question row = scroll 31
    conv.set_scroll_offset(31);

    let area = Rect::new(0, 0, 40, 5);
    conv.render(area, &mut screen);

    // After skipping, the first answer's label "    1. " should be visible.
    let row_text: String = (0..20u16).map(|c| screen.get(0, c).unwrap().char).collect();
    assert!(
        row_text.contains("1"),
        "First answer label should be visible after skipping question. Row 0: {:?}",
        row_text
    );
    assert!(
        row_text.contains("Answer"),
        "First answer text should be visible. Row 0: {:?}",
        row_text
    );
}

// ── Laws and formulas ───────────────────────────────────────────────────

#[test]
fn search_toggle_twice_clears_query() {
    let mut conv = ConversationWidget::new();
    conv.toggle_search();
    conv.search_type_char('q');
    conv.toggle_search();
    assert!(!conv.is_search_active());
    conv.toggle_search();
    assert!(conv.is_search_active());
    assert_eq!(conv.search_query(), "");
    assert_eq!(conv.search_cursor(), 0);
}

#[test]
fn search_type_then_backspace_restores_query() {
    let mut conv = ConversationWidget::new();
    conv.toggle_search();
    conv.search_type_char('a');
    conv.search_type_char('c');
    conv.search_cursor_left();
    conv.search_type_char('é');
    assert_eq!(conv.search_query(), "aéc");
    assert_eq!(conv.search_cursor(), 3);
    conv.search_backspace();
    assert_eq!(conv.search_query(), "ac");
    assert_eq!(conv.search_cursor(), 1);
}

#[test]
fn search_next_cycles_through_every_match() {
    let mut conv = ConversationWidget::new();
    for t in ["apple", "banana", "apricot", "cherry", "grape"] {
        conv.push(ConversationLine::User { text: t.to_string() });
    }
    conv.toggle_search();
    conv.search_type_char('A');
    conv.search_type_char('p');
    assert_eq!(conv.search_matches().clone(), vec![0, 2, 4]);
    conv.search_next();
    assert_eq!(conv.current_match(), 1);
    assert_eq!(conv.scroll_offset(), 2);
    assert!(!conv.auto_scroll());
    conv.search_next();
    conv.search_next();
    assert_eq!(conv.current_match(), 0);
    assert_eq!(conv.scroll_offset(), 0);
    conv.search_prev();
    assert_eq!(conv.current_match(), 2);
    conv.search_next();
    assert_eq!(conv.current_match(), 0);
}

#[test]
fn search_covers_tool_calls_and_answers() {
    let mut conv = ConversationWidget::new();
    conv.push(ConversationLine::ToolCall { name: "run".to_string(), args_summary: "ls".to_string() });
    conv.push(ConversationLine::Question { question: "Pick".to_string(), answers: vec!["x".to_string(), "Zed".to_string()] });
    conv.push(ConversationLine::Separator);
    conv.toggle_search();
    conv.search_type_char('n');
    conv.search_type_char(' ');
    conv.search_type_char('l');
    assert_eq!(conv.search_matches().clone(), vec![0]);
    conv.close_search();
    conv.toggle_search();
    conv.search_type_char('x');
    conv.search_type_char(' ');
    conv.search_type_char('z');
    assert_eq!(conv.search_matches().clone(), vec![1]);
}

#[test]
fn search_mode_keys_through_events() {
    let mut conv = ConversationWidget::new();
    conv.push(ConversationLine::User { text: "hello".to_string() });
    let ctrl_f = Event::Key(KeyEvent { key: Key::Char('f'), modifiers: Modifiers::ctrl() });
    assert!(matches!(conv.handle_event(&ctrl_f), Action::NoOp));
    assert!(conv.is_search_active());
    let h = Event::Key(KeyEvent { key: Key::Char('h'), modifiers: Modifiers::new() });
    conv.handle_event(&h);
    assert_eq!(conv.search_query(), "h");
    let tab = Event::Key(KeyEvent { key: Key::Tab, modifiers: Modifiers::new() });
    assert!(matches!(conv.handle_event(&tab), Action::NoOp));
    let esc = Event::Key(KeyEvent { key: Key::Escape, modifiers: Modifiers::new() });
    conv.handle_event(&esc);
    assert!(!conv.is_search_active());
    assert!(matches!(conv.handle_event(&tab), Action::CycleFocusForward));
    let back = Event::Key(KeyEvent { key: Key::BackTab, modifiers: Modifiers::shift() });
    assert!(matches!(conv.handle_event(&back), Action::CycleFocusBackward));
}

#[test]
fn line_heights_follow_wrapping() {
    let conv = ConversationWidget::new();
    // "  You: " takes 7 columns; 13 more fit in a 20-column pane.
    let line = ConversationLine::User { text: "a".repeat(13) };
    assert_eq!(conv.line_height(&line, 20), 1);
    let line = ConversationLine::User { text: "a".repeat(14) };
    assert_eq!(conv.line_height(&line, 20), 2);
    let line = ConversationLine::System { text: "x\ny\nz".to_string() };
    assert_eq!(conv.line_height(&line, 80), 3);
    assert_eq!(conv.line_height(&ConversationLine::User { text: String::new() }, 80), 1);
    assert_eq!(conv.line_height(&ConversationLine::User { text: "abc".to_string() }, 0), 1);
    assert_eq!(conv.line_height(&ConversationLine::Separator, 80), 1);
    let line = ConversationLine::ToolCall { name: "run".to_string(), args_summary: String::new() };
    assert_eq!(conv.line_height(&line, 80), 1);
}

#[test]
fn tool_result_height_is_capped() {
    let conv = ConversationWidget::new();
    let content: String = (0..30).map(|i| format!("line {}", i)).collect::<Vec<_>>().join("\n");
    let line = ConversationLine::ToolResult { name: "run".to_string(), content, is_error: false };
    assert_eq!(conv.line_height(&line, 80), 21);
    let line = ConversationLine::ToolResult { name: "run".to_string(), content: "\n\n".to_string(), is_error: false };
    assert_eq!(conv.line_height(&line, 80), 1);
}

#[test]
fn question_and_confirm_heights() {
    let conv = ConversationWidget::new();
    let line = ConversationLine::Question {
        question: "Which?".to_string(),
        answers: vec!["A".to_string(), "B".to_string()],
    };
    assert_eq!(conv.line_height(&line, 80), 3);
    // The suffix does not fit after a prompt that fills the row.
    let line = ConversationLine::ConfirmPrompt {
        name: "run".to_string(),
        args_summary: "x".repeat(20),
        diff_preview: Some(String::new()),
    };
    assert_eq!(conv.line_height(&line, 40), 2);
    assert_eq!(conv.line_height(&line, 80), 1);
}

#[test]
fn total_height_sums_lines() {
    let mut conv = ConversationWidget::new();
    conv.push(ConversationLine::User { text: "hi".to_string() });
    conv.push(ConversationLine::Separator);
    conv.push(ConversationLine::System { text: "a\nb".to_string() });
    assert_eq!(conv.total_visual_height(80), 4);
}

#[test]
fn scrolling_saturates() {
    let mut conv = ConversationWidget::new();
    conv.scroll_up(5);
    assert_eq!(conv.scroll_offset(), 0);
    conv.scroll_down(usize::MAX);
    conv.scroll_down(3);
    assert_eq!(conv.scroll_offset(), usize::MAX);
    conv.scroll_home();
    assert_eq!(conv.scroll_offset(), 0);
    assert!(!conv.auto_scroll());
    conv.scroll_to_bottom();
    assert!(conv.auto_scroll());
}

#[test]
fn last_line_editing() {
    let mut conv = ConversationWidget::new();
    assert!(conv.last_mut().is_none());
    assert!(!conv.last_is_assistant());
    conv.push(ConversationLine::Assistant { text: "par".to_string() });
    assert!(conv.last_is_assistant());
    if let Some(ConversationLine::Assistant { text }) = conv.last_mut() {
        text.push_str("tial");
    }
    assert!(matches!(&conv.lines()[0], ConversationLine::Assistant { text } if text == "partial"));
    conv.extend(vec![ConversationLine::Separator, ConversationLine::User { text: "u".to_string() }]);
    assert_eq!(conv.len(), 3);
    conv.clear();
    assert!(conv.is_empty());
    assert_eq!(conv.scroll_offset(), 0);
}

#[test]
fn warning_banner_shows_rounded_percentage() {
    let mut screen = Screen::new(60, 10);
    let mut conv = ConversationWidget::new();
    conv.set_context_warning(ContextWarningLevel::Warning(75));
    conv.render(Rect::new(0, 0, 60, 10), &mut screen);
    let row: String = (0..60).map(|c| screen.get(0, c).unwrap().char).collect();
    assert!(row.contains("Context 75% full"));
    assert_eq!(screen.get(0, 0).unwrap().bg, Color::Ansi(17));
}
