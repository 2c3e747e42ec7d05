use tinyharness_ui::ui::confirm::{
    argument_line, command_line_texts, confirm_preview, confirmation_footer, confirmation_header, confirmation_question,
    format_arg_value, parse_confirmation, skip_keys, Confirmation, ConfirmPreview, CMD_FIRST_AVAIL,
};
use tinyharness_ui::ui::input::{complete, hint, highlight, highlight_hint, validate, LineStatus};

/// Remove `ESC [ digits/semicolons m|K` sequences.
fn strip_ansi(s: &str) -> String {
    let mut out = String::new();
    let cs: Vec<char> = s.chars().collect();
    let mut i = 0;
    while i < cs.len() {
        if cs[i] == '\x1b' && i + 1 < cs.len() && cs[i + 1] == '[' {
            let mut j = i + 2;
            while j < cs.len() && (cs[j].is_ascii_digit() || cs[j] == ';') {
                j += 1;
            }
            if j < cs.len() && (cs[j] == 'm' || cs[j] == 'K') {
                i = j + 1;
                continue;
            }
        }
        out.push(cs[i]);
        i += 1;
    }
    out
}

fn command_output(cmd: &str) -> String {
    let mut s = String::new();
    for line in command_line_texts(cmd) {
        s.push_str(&line);
        s.push('\n');
    }
    strip_ansi(&s)
}

#[test]
fn test_short_command_single_line() {
    let output = command_output("ls -la");
    assert!(output.contains("$ ls -la\n"), "short command should be on a single line, got:\n{output}");
    assert!(!output.contains(">"), "short command should not have continuation lines, got:\n{output}");
}

#[test]
fn test_long_command_wraps() {
    let long_cmd: Vec<String> = (0..50).map(|i| format!("arg{i}")).collect();
    let cmd = long_cmd.join(" ");
    assert!(cmd.len() > CMD_FIRST_AVAIL, "test command must exceed first-line limit");
    let output = command_output(&cmd);
    let lines: Vec<&str> = output.lines().collect();
    assert!(lines.len() > 1, "long command should wrap to multiple lines, got:\n{output}");
    assert!(lines[0].contains("$ "), "first line should have $ prompt");
    assert!(lines[1].contains("> "), "continuation lines should have > prompt");
}

#[test]
fn test_command_no_spaces_hard_breaks() {
    let cmd = "a".repeat(CMD_FIRST_AVAIL + 50);
    let output = command_output(&cmd);
    let lines: Vec<&str> = output.lines().collect();
    assert!(lines.len() > 1, "no-space command should hard-break, got:\n{output}");
}

#[test]
fn command_breaks_at_last_space() {
    let cmd = format!("{} {}", "x".repeat(90), "y".repeat(10));
    let output = command_output(&cmd);
    let lines: Vec<&str> = output.lines().collect();
    assert_eq!(lines.len(), 2);
    assert!(lines[0].ends_with(&"x".repeat(90)));
    assert!(lines[1].ends_with(&"y".repeat(10)));
}

#[test]
fn confirmation_answers() {
    assert_eq!(parse_confirmation(" YES \n"), Confirmation::Yes);
    assert_eq!(parse_confirmation("y"), Confirmation::Yes);
    assert_eq!(parse_confirmation("Auto"), Confirmation::AutoAccept);
    assert_eq!(parse_confirmation("a"), Confirmation::AutoAccept);
    assert_eq!(parse_confirmation("nope"), Confirmation::No);
    assert_eq!(parse_confirmation(""), Confirmation::No);
    assert_eq!(skip_keys("edit"), vec!["old_str", "new_str", "content"]);
    assert_eq!(skip_keys("run"), vec!["command"]);
    assert!(skip_keys("read").is_empty());
}

#[test]
fn long_argument_values_are_cut() {
    let long = "z".repeat(150);
    assert_eq!(format_arg_value(&long), format!("{}... (150 chars)", "z".repeat(97)));
    assert_eq!(format_arg_value("short"), "short");
}

#[test]
fn completion_of_commands_and_arguments() {
    assert_eq!(complete("/mo", 3), (0, vec!["/mode".to_string(), "/model".to_string()]));
    assert_eq!(complete("/co", 3).1, vec!["/command".to_string(), "/compact".to_string(), "/context".to_string()]);
    assert_eq!(complete("/mode p", 7).1, vec!["/mode planning".to_string()]);
    assert_eq!(complete("/THINK ", 7).1.len(), 4);
    assert!(complete("hello", 5).1.is_empty());
    assert!(complete("/", 0).1.is_empty());
}

#[test]
fn hints_for_commands() {
    assert_eq!(hint("/quo", 4), None);
    assert_eq!(hint("/qu", 3), Some("it".to_string()));
    assert_eq!(hint("/mo", 3), Some("  (/mode  /model)".to_string()));
    assert_eq!(hint("/session ", 9), Some(" delete".to_string()));
    assert_eq!(hint("/think l", 8), Some("ow".to_string()).map(|_| "  (low)".to_string()));
    assert_eq!(hint("/autoaccept on", 14), None);
    assert_eq!(hint("/mo", 2), None);
}

#[test]
fn validation_and_highlighting() {
    assert_eq!(validate("hello"), LineStatus::Valid);
    assert_eq!(validate("line \\  "), LineStatus::Incomplete);
    assert_eq!(validate("```rust"), LineStatus::Incomplete);
    assert_eq!(validate("```rust\n```"), LineStatus::Valid);
    assert_eq!(validate("a `b"), LineStatus::Incomplete);
    assert_eq!(highlight("/help"), "\x1b[36m/help\x1b[0m");
    assert_eq!(highlight("hi"), "hi");
    assert_eq!(highlight_hint("x"), "\x1b[90mx\x1b[0m");
}

#[test]
fn prompt_lines_layout() {
    assert_eq!(
        confirmation_header("run"),
        "\x1b[48;5;17m  \x1b[37m─── \x1b[93m⚠ \x1b[37mrun\x1b[37m ───\x1b[K\x1b[0m"
    );
    assert_eq!(argument_line("path", "a.rs"), "\x1b[48;5;17m  \x1b[96mpath: \x1b[37ma.rs\x1b[K\x1b[0m");
    assert_eq!(
        confirmation_footer(),
        format!("\x1b[48;5;17m  \x1b[2m{}\x1b[K\x1b[0m", "─".repeat(31))
    );
    assert_eq!(confirmation_question(), "  \x1b[1mAllow? \x1b[32my\x1b[1m/n/a\x1b[0m: ");
}

#[test]
fn preview_choice_by_tool() {
    assert_eq!(confirm_preview("edit", "a.rs", "x", "", ""), ConfirmPreview::EditDiff);
    assert_eq!(confirm_preview("edit", "  ", "x", "", ""), ConfirmPreview::Nothing);
    assert_eq!(confirm_preview("edit", "a.rs", "", "", ""), ConfirmPreview::Nothing);
    assert_eq!(confirm_preview("run", "", "", "ls", ""), ConfirmPreview::Command);
    assert_eq!(confirm_preview("run", "", "", "", ""), ConfirmPreview::Nothing);
    assert_eq!(confirm_preview("write", "b.rs", "", "", "text"), ConfirmPreview::WritePreview);
    assert_eq!(confirm_preview("write", "b.rs", "", "", ""), ConfirmPreview::Nothing);
    assert_eq!(confirm_preview("read", "b.rs", "x", "ls", "t"), ConfirmPreview::Nothing);
}
