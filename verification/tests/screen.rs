use tinyharness_ui::tui::cell::{Cell, Color, Style};
use tinyharness_ui::tui::layout::Rect;
use tinyharness_ui::tui::screen::{DiffOp, Screen};

#[test]
fn test_screen_new() {
    let s = Screen::new(10, 5);
    assert_eq!(s.width(), 10);
    assert_eq!(s.height(), 5);
    assert_eq!(s.get(0, 0).unwrap().char, ' ');
}

#[test]
fn test_screen_set_get_cell() {
    let mut s = Screen::new(10, 5);
    let cell = Cell::styled('X', Color::red(), Color::Default, Style::bold());
    s.set_cell(2, 3, cell.clone());
    assert_eq!(s.get(2, 3).unwrap(), &cell);
}

#[test]
fn test_screen_out_of_bounds() {
    let s = Screen::new(10, 5);
    assert!(s.get(5, 0).is_none());
    assert!(s.get(0, 10).is_none());
}

#[test]
fn test_screen_write_str() {
    let mut s = Screen::new(20, 5);
    s.write_str(1, 2, "Hello", Color::green(), Color::Default, Style::new());
    assert_eq!(s.get(1, 2).unwrap().char, 'H');
    assert_eq!(s.get(1, 3).unwrap().char, 'e');
    assert_eq!(s.get(1, 6).unwrap().char, 'o');
    assert_eq!(s.get(1, 7).unwrap().char, ' ');
}

#[test]
fn test_screen_write_str_truncates() {
    let mut s = Screen::new(5, 1);
    s.write_str(0, 0, "Hello World", Color::Default, Color::Default, Style::new());
    assert_eq!(s.get(0, 4).unwrap().char, 'o');
}

#[test]
fn test_screen_clear() {
    let mut s = Screen::new(10, 5);
    s.set_cell(0, 0, Cell::char('X'));
    s.clear();
    assert_eq!(s.get(0, 0).unwrap().char, ' ');
}

#[test]
fn test_screen_resize() {
    let mut s = Screen::new(10, 5);
    s.set_cell(0, 0, Cell::char('X'));
    s.resize(20, 10);
    assert_eq!(s.width(), 20);
    assert_eq!(s.height(), 10);
    assert_eq!(s.get(0, 0).unwrap().char, ' ');
}

#[test]
fn test_screen_draw_box() {
    let mut s = Screen::new(10, 5);
    s.draw_box(Rect { x: 0, y: 0, width: 10, height: 5 }, Color::blue(), Color::Default, Style::default());
    assert_eq!(s.get(0, 0).unwrap().char, '┌');
    assert_eq!(s.get(0, 9).unwrap().char, '┐');
    assert_eq!(s.get(4, 0).unwrap().char, '└');
    assert_eq!(s.get(4, 9).unwrap().char, '┘');
    assert_eq!(s.get(0, 5).unwrap().char, '─');
    assert_eq!(s.get(2, 0).unwrap().char, '│');
}

#[test]
fn test_screen_diff_no_changes() {
    let s1 = Screen::new(10, 5);
    let s2 = Screen::new(10, 5);
    let diff = s2.diff_from(&s1);
    assert!(diff.is_empty());
}

#[test]
fn test_screen_diff_with_changes() {
    let s1 = Screen::new(10, 5);
    let mut s2 = Screen::new(10, 5);
    s2.set_cell(1, 2, Cell::char('X'));
    s2.set_cell(3, 4, Cell::char('Y'));
    let diff = s2.diff_from(&s1);
    assert_eq!(diff.len(), 2);
}

#[test]
fn test_screen_render_diff() {
    let s1 = Screen::new(10, 5);
    let mut s2 = Screen::new(10, 5);
    s2.set_cell(0, 0, Cell::styled('A', Color::red(), Color::Default, Style::bold()));
    let diff = s2.diff_from(&s1);
    let rendered = Screen::render_diff(&diff, 10);
    assert!(rendered.contains("\x1b[1;1H"));
    assert!(rendered.contains('A'));
    assert!(rendered.contains("\x1b[0m"));
}

#[test]
fn test_screen_hline() {
    let mut s = Screen::new(10, 5);
    s.hline(2, 1, 8, '─', Color::Default, Color::Default);
    assert_eq!(s.get(2, 1).unwrap().char, '─');
    assert_eq!(s.get(2, 8).unwrap().char, '─');
    assert_eq!(s.get(2, 0).unwrap().char, ' ');
}

#[test]
fn test_screen_vline() {
    let mut s = Screen::new(10, 5);
    s.vline(5, 1, 3, '│', Color::Default, Color::Default);
    assert_eq!(s.get(1, 5).unwrap().char, '│');
    assert_eq!(s.get(2, 5).unwrap().char, '│');
    assert_eq!(s.get(3, 5).unwrap().char, '│');
    assert_eq!(s.get(0, 5).unwrap().char, ' ');
}

#[test]
fn test_screen_fill_rect() {
    let mut s = Screen::new(10, 5);
    let rect = Rect { x: 2, y: 1, width: 3, height: 2 };
    s.fill_rect(rect, Cell::char('█'));
    assert_eq!(s.get(1, 2).unwrap().char, '█');
    assert_eq!(s.get(1, 4).unwrap().char, '█');
    assert_eq!(s.get(2, 2).unwrap().char, '█');
    assert_eq!(s.get(0, 2).unwrap().char, ' ');
}

#[test]
fn test_screen_write_str_wrapped() {
    let mut s = Screen::new(5, 5);
    let end_row = s.write_str_wrapped(0, 0, "ABCDEFGH", Color::Default, Color::Default, Style::new(), true);
    assert_eq!(s.get(0, 0).unwrap().char, 'A');
    assert_eq!(s.get(0, 4).unwrap().char, 'E');
    assert_eq!(s.get(1, 0).unwrap().char, 'F');
    assert_eq!(s.get(1, 2).unwrap().char, 'H');
    assert_eq!(end_row, 1);
}

#[test]
fn test_screen_write_str_wrapped_skip_clipped() {
    let mut s = Screen::new(5, 5);
    s.write_str_wrapped_skip_clipped(0, 0, "ABCDEFGH", Color::Default, Color::Default, Style::new(), 0, 4, 5, 1);
    assert_eq!(s.get(0, 0).unwrap().char, 'F');
    assert_eq!(s.get(0, 2).unwrap().char, 'H');
    assert_eq!(s.get(1, 0).unwrap().char, ' ');
}

#[test]
fn test_screen_write_str_wrapped_skip_clipped_newlines() {
    let mut s = Screen::new(5, 5);
    s.write_str_wrapped_skip_clipped(0, 0, "AB\nCD", Color::Default, Color::Default, Style::new(), 0, 4, 5, 1);
    assert_eq!(s.get(0, 0).unwrap().char, 'C');
    assert_eq!(s.get(0, 1).unwrap().char, 'D');
}

#[test]
fn test_screen_write_str_wide_char() {
    let mut s = Screen::new(10, 3);
    s.write_str(0, 0, "一x", Color::Default, Color::Default, Style::new());
    let cell_0 = s.get(0, 0).unwrap();
    assert_eq!(cell_0.char, '一');
    assert!(!cell_0.wide);
    let cell_1 = s.get(0, 1).unwrap();
    assert!(cell_1.wide);
    let cell_2 = s.get(0, 2).unwrap();
    assert_eq!(cell_2.char, 'x');
    assert!(!cell_2.wide);
}

#[test]
fn test_screen_write_str_wide_char_at_edge() {
    let mut s = Screen::new(3, 1);
    s.write_str(0, 0, "一", Color::Default, Color::Default, Style::new());
    assert_eq!(s.get(0, 0).unwrap().char, '一');
    assert!(s.get(0, 1).unwrap().wide);
    assert_eq!(s.get(0, 2).unwrap().char, ' ');
}

#[test]
fn test_cell_default_not_wide() {
    let cell = Cell::default();
    assert!(!cell.wide);
    assert_eq!(cell.char, ' ');
}

#[test]
fn test_cell_wide_continuation() {
    let cell = Cell::wide_continuation(Color::red(), Color::blue(), Style::bold());
    assert!(cell.wide);
    assert_eq!(cell.char, ' ');
    assert_eq!(cell.fg, Color::red());
    assert_eq!(cell.bg, Color::blue());
    assert!(cell.style.bold);
}

#[test]
fn test_screen_diff_wide_char_tracking() {
    let mut s1 = Screen::new(10, 1);
    let mut s2 = Screen::new(10, 1);
    s1.write_str(0, 0, "AB", Color::Default, Color::Default, Style::new());
    s2.write_str(0, 0, "一x", Color::Default, Color::Default, Style::new());
    let diff = s2.diff_from(&s1);
    assert!(diff.len() >= 2);
    let col0_op = diff.iter().find(|op| matches!(op, DiffOp::SetCell { col: 0, .. }));
    assert!(col0_op.is_some());
    let DiffOp::SetCell { cell: cell0, .. } = col0_op.unwrap();
    assert_eq!(cell0.char, '一');
    assert!(!cell0.wide);
    let col1_op = diff.iter().find(|op| matches!(op, DiffOp::SetCell { col: 1, .. }));
    assert!(col1_op.is_some());
    let DiffOp::SetCell { cell: cell1, .. } = col1_op.unwrap();
    assert!(cell1.wide);
}

#[test]
fn test_screen_write_str_wrapped_long_message_with_spaces() {
    let mut s = Screen::new(10, 5);
    let _end_row = s.write_str_wrapped(0, 0, "Hello World This Is A Test", Color::white(), Color::Default, Style::default(), true);
    assert_eq!(s.get(0, 0).unwrap().char, 'H');
    assert_eq!(s.get(0, 5).unwrap().char, ' ');
    assert_eq!(s.get(1, 0).unwrap().char, 'd');
    assert_eq!(s.get(1, 1).unwrap().char, ' ');
    assert_eq!(s.get(2, 0).unwrap().char, 'A');
    assert_eq!(s.get(2, 1).unwrap().char, ' ');
    assert_eq!(s.get(2, 2).unwrap().char, 'T');
}

#[test]
fn test_screen_write_str_wrapped_clipped_multiline() {
    let mut s = Screen::new(10, 5);
    let _end_row = s.write_str_wrapped_clipped(0, 2, "AB CD", Color::white(), Color::Default, Style::default(), 2, 4, 10);
    assert_eq!(s.get(0, 2).unwrap().char, 'A');
    assert_eq!(s.get(0, 3).unwrap().char, 'B');
    assert_eq!(s.get(0, 4).unwrap().char, ' ');
    assert_eq!(s.get(0, 5).unwrap().char, 'C');
    assert_eq!(s.get(0, 6).unwrap().char, 'D');
}

#[test]
fn test_screen_write_str_wrapped_newlines() {
    let mut s = Screen::new(10, 5);
    s.write_str_wrapped(0, 0, "AB\nCD", Color::white(), Color::Default, Style::default(), true);
    assert_eq!(s.get(0, 0).unwrap().char, 'A');
    assert_eq!(s.get(0, 1).unwrap().char, 'B');
    assert_eq!(s.get(1, 0).unwrap().char, 'C');
    assert_eq!(s.get(1, 1).unwrap().char, 'D');
}

#[test]
fn test_screen_write_str_wrapped_clipped_with_left_margin() {
    let mut s = Screen::new(20, 5);
    let _end_row = s.write_str_wrapped_clipped(
        0,
        7,
        "Hello World This Is A Long Message That Wraps",
        Color::white(),
        Color::Default,
        Style::default(),
        7,
        4,
        20,
    );
    assert_eq!(s.get(0, 7).unwrap().char, 'H');
}

#[test]
fn test_screen_clear_replaces_with_spaces() {
    let mut s = Screen::new(10, 3);
    s.write_str(0, 0, "ABCDEFGHIJ", Color::white(), Color::Default, Style::default());
    assert_eq!(s.get(0, 0).unwrap().char, 'A');
    assert_eq!(s.get(0, 5).unwrap().char, 'F');
    s.clear();
    assert_eq!(s.get(0, 0).unwrap().char, ' ');
    assert_eq!(s.get(0, 5).unwrap().char, ' ');
}

#[test]
fn test_screen_write_str_wrapped_skip_clipped_preserves_spaces() {
    let mut s = Screen::new(20, 5);
    s.write_str_wrapped_skip_clipped(0, 2, "Hello World", Color::white(), Color::Default, Style::default(), 2, 4, 20, 0);
    assert_eq!(s.get(0, 2).unwrap().char, 'H');
    assert_eq!(s.get(0, 7).unwrap().char, ' ');
    assert_eq!(s.get(0, 8).unwrap().char, 'W');
}

#[test]
fn test_screen_write_str_wrapped_skip_clipped_multirow() {
    let mut s = Screen::new(10, 5);
    s.write_str_wrapped_skip_clipped(0, 0, "ABCDEFGHIJKLMNO", Color::white(), Color::Default, Style::default(), 0, 4, 10, 1);
    assert_eq!(s.get(0, 0).unwrap().char, 'K');
    assert_eq!(s.get(0, 1).unwrap().char, 'L');
    assert_eq!(s.get(0, 4).unwrap().char, 'O');
}

#[test]
fn test_screen_render_diff_dedupes_styles() {
    let s1 = Screen::new(80, 24);
    let mut s2 = Screen::new(80, 24);
    s2.write_str(5, 0, "ABCDEFGHIJ", Color::white(), Color::Default, Style::default());
    let diff = s2.diff_from(&s1);
    let rendered = Screen::render_diff(&diff, 80);
    let fg_count = rendered.matches("\x1b[37m").count();
    let reset_count = rendered.matches("\x1b[0m").count();
    assert!(fg_count <= 2, "Expected at most 2 fg sequences, got {}", fg_count);
    assert!(reset_count <= 2, "Expected at most 2 resets (initial + final), got {}", reset_count);
}

#[test]
fn test_screen_render_diff_preserves_correct_output() {
    let s1 = Screen::new(80, 24);
    let mut s2 = Screen::new(80, 24);
    s2.write_str(5, 0, "wrong chars", Color::white(), Color::Default, Style::default());
    let diff = s2.diff_from(&s1);
    let rendered = Screen::render_diff(&diff, 80);
    let printable: String = rendered.chars().filter(|c| !c.is_control() && *c != '\x1b').collect();
    assert!(printable.contains("wrong chars"), "Output should contain 'wrong chars', got printable: {:?}", printable);
}

#[test]
fn test_screen_render_diff_style_change_forces_reset() {
    let s1 = Screen::new(80, 24);
    let mut s2 = Screen::new(80, 24);
    s2.write_str(0, 0, "AB", Color::white(), Color::Default, Style::bold());
    s2.write_str(0, 2, "CD", Color::white(), Color::Default, Style::dim());
    let diff = s2.diff_from(&s1);
    let rendered = Screen::render_diff(&diff, 80);
    let reset_count = rendered.matches("\x1b[0m").count();
    assert!(reset_count >= 1, "Expected at least 1 reset for style change, got {}", reset_count);
}

#[test]
fn render_diff_exact_output() {
    let s1 = Screen::new(10, 2);
    let mut s2 = Screen::new(10, 2);
    s2.write_str(1, 3, "ab", Color::Ansi(1), Color::Default, Style::new());
    let diff = s2.diff_from(&s1);
    assert_eq!(Screen::render_diff(&diff, 10), "\x1b[2;4H\x1b[0m\x1b[31m\x1b[49mab\x1b[0m");
    assert_eq!(Screen::render_diff(&[], 10), "");
}

#[test]
fn diff_applied_reproduces_screen() {
    let mut s1 = Screen::new(6, 3);
    s1.write_str(0, 0, "old", Color::Default, Color::Default, Style::new());
    let mut s2 = Screen::new(6, 3);
    s2.write_str(2, 1, "new!", Color::Ansi(2), Color::Default, Style::bold());
    let diff = s2.diff_from(&s1);
    let mut replay = s1.clone();
    for op in &diff {
        let DiffOp::SetCell { row, col, cell } = op;
        replay.set_cell(*row, *col, *cell);
    }
    assert!(replay.diff_from(&s2).is_empty());
    assert!(s2.diff_from(&s2).is_empty());
}

#[test]
fn diff_to_wider_screen_sets_new_columns() {
    let mut s1 = Screen::new(3, 2);
    s1.write_str(0, 0, "abc", Color::Default, Color::Default, Style::new());
    let mut s2 = Screen::new(5, 3);
    s2.write_str(0, 0, "abcde", Color::Default, Color::Default, Style::new());
    let diff = s2.diff_from(&s1);
    let mut replay = Screen::new(5, 3);
    replay.write_str(0, 0, "abc", Color::Default, Color::Default, Style::new());
    for op in &diff {
        let DiffOp::SetCell { row, col, cell } = op;
        replay.set_cell(*row, *col, *cell);
    }
    assert!(replay.diff_from(&s2).is_empty());
    assert!(diff.iter().any(|op| matches!(op, DiffOp::SetCell { row: 0, col: 4, .. })));
    assert!(diff.iter().any(|op| matches!(op, DiffOp::SetCell { row: 1, col: 3, .. })));
    assert_eq!(diff.len(), 2 + 2 + 5);
}
