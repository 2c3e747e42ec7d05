use tinyharness_ui::output::Output;
use tinyharness_ui::style::{BLUE, BOLD, GRAY, GREEN, ORANGE, RED, RESET};

fn captured_output() -> Output<Vec<u8>> {
    Output::new(Vec::new())
}

fn captured_string(out: Output<Vec<u8>>) -> String {
    String::from_utf8(out.into_inner()).unwrap()
}

/// Remove `ESC [ digits/semicolons m` sequences.
fn strip_ansi(s: &str) -> String {
    let mut out = String::new();
    let cs: Vec<char> = s.chars().collect();
    let mut i = 0;
    while i < cs.len() {
        if cs[i] == '\x1b' && i + 1 < cs.len() && cs[i + 1] == '[' {
            let mut j = i + 2;
            while j < cs.len() && (cs[j].is_ascii_digit() || cs[j] == ';') {
                j += 1;
            }
            if j < cs.len() && cs[j] == 'm' {
                i = j + 1;
                continue;
            }
        }
        out.push(cs[i]);
        i += 1;
    }
    out
}

#[test]
fn line_writes_text_with_newline() {
    let mut out = captured_output();
    out.line("hello").unwrap();
    assert_eq!(captured_string(out), "hello\n");
}

#[test]
fn line_empty_string() {
    let mut out = captured_output();
    out.line("").unwrap();
    assert_eq!(captured_string(out), "\n");
}

#[test]
fn blank_writes_newline() {
    let mut out = captured_output();
    out.blank().unwrap();
    assert_eq!(captured_string(out), "\n");
}

#[test]
fn raw_writes_bytes_exactly() {
    let mut out = captured_output();
    out.raw(b"no newline").unwrap();
    assert_eq!(captured_string(out), "no newline");
}

#[test]
fn raw_empty_bytes() {
    let mut out = captured_output();
    out.raw(b"").unwrap();
    assert!(captured_string(out).is_empty());
}

#[test]
fn raw_no_newline_appended() {
    let mut out = captured_output();
    out.raw(b"abc").unwrap();
    assert!(!captured_string(out).ends_with('\n'));
}

#[test]
fn success_wraps_in_green() {
    let mut out = captured_output();
    out.success("OK").unwrap();
    let raw = captured_string(out);
    assert!(raw.contains(GREEN), "should contain GREEN ANSI code");
    assert!(raw.contains(RESET), "should contain RESET");
    assert_eq!(strip_ansi(&raw), "OK\n");
}

#[test]
fn error_wraps_in_red() {
    let mut out = captured_output();
    out.error("FAIL").unwrap();
    let raw = captured_string(out);
    assert!(raw.contains(RED), "should contain RED ANSI code");
    assert!(raw.contains(RESET), "should contain RESET");
    assert_eq!(strip_ansi(&raw), "FAIL\n");
}

#[test]
fn warning_wraps_in_orange() {
    let mut out = captured_output();
    out.warning("careful").unwrap();
    let raw = captured_string(out);
    assert!(raw.contains(ORANGE), "should contain ORANGE ANSI code");
    assert!(raw.contains(RESET), "should contain RESET");
    assert_eq!(strip_ansi(&raw), "careful\n");
}

#[test]
fn info_wraps_in_blue() {
    let mut out = captured_output();
    out.info("note").unwrap();
    let raw = captured_string(out);
    assert!(raw.contains(BLUE), "should contain BLUE ANSI code");
    assert!(raw.contains(RESET), "should contain RESET");
    assert_eq!(strip_ansi(&raw), "note\n");
}

#[test]
fn dim_wraps_in_gray() {
    let mut out = captured_output();
    out.dim("subtle").unwrap();
    let raw = captured_string(out);
    assert!(raw.contains(GRAY), "should contain GRAY ANSI code");
    assert!(raw.contains(RESET), "should contain RESET");
    assert_eq!(strip_ansi(&raw), "subtle\n");
}

#[test]
fn bold_wraps_in_bold() {
    let mut out = captured_output();
    out.bold("loud").unwrap();
    let raw = captured_string(out);
    assert!(raw.contains(BOLD), "should contain BOLD ANSI code");
    assert!(raw.contains(RESET), "should contain RESET");
    assert_eq!(strip_ansi(&raw), "loud\n");
}

#[test]
fn styled_line_custom_prefix_and_suffix() {
    let mut out = captured_output();
    out.styled_line("[", "body", "]").unwrap();
    assert_eq!(captured_string(out), "[body]\n");
}

#[test]
fn styled_line_with_ansi_codes() {
    let mut out = captured_output();
    out.styled_line(BOLD, "Header", RESET).unwrap();
    let raw = captured_string(out);
    assert!(raw.starts_with(BOLD));
    assert!(raw.trim_end().ends_with(RESET));
    assert_eq!(strip_ansi(&raw), "Header\n");
}

#[test]
fn multiple_operations_append() {
    let mut out = captured_output();
    out.line("first").unwrap();
    out.success("ok").unwrap();
    out.styled_line(BOLD, "bold", RESET).unwrap();
    let raw = captured_string(out);
    let plain = strip_ansi(&raw);
    assert_eq!(plain, "first\nok\nbold\n");
}

#[test]
fn blank_between_lines() {
    let mut out = captured_output();
    out.line("a").unwrap();
    out.blank().unwrap();
    out.line("b").unwrap();
    assert_eq!(captured_string(out), "a\n\nb\n");
}

#[test]
fn success_empty_message() {
    let mut out = captured_output();
    out.success("").unwrap();
    let raw = captured_string(out);
    assert!(raw.contains(GREEN));
    assert!(raw.contains(RESET));
    assert_eq!(strip_ansi(&raw), "\n");
}

#[test]
fn unicode_text() {
    let mut out = captured_output();
    out.line("zażółć gęślą jaźń 🦀").unwrap();
    assert_eq!(captured_string(out), "zażółć gęślą jaźń 🦀\n");
}

#[test]
fn long_text_no_panic() {
    let mut out = captured_output();
    let long = "x".repeat(10_000);
    out.line(&long).unwrap();
    assert_eq!(captured_string(out).len(), 10_001);
}

#[test]
fn new_with_boxed_writer() {
    let buf: Vec<u8> = Vec::new();
    let mut out = Output::new(buf);
    out.line("test").unwrap();
}

#[test]
fn write_then_flush() {
    let mut out = captured_output();
    out.raw(b"partial").unwrap();
    assert!(out.flush().is_ok());
    assert_eq!(captured_string(out), "partial");
}

#[test]
fn success_exact_bytes() {
    let mut out = captured_output();
    out.success("OK").unwrap();
    assert_eq!(captured_string(out), "\x1b[32mOK\x1b[0m\n");
}

#[test]
fn writeln_macro_works() {
    let mut out = captured_output();
    let _ = out.line(&format!("formatted {}", 42));
    assert_eq!(captured_string(out), "formatted 42\n");
}

#[test]
fn write_macro_no_newline() {
    let mut out = captured_output();
    let _ = out.raw("no newline".as_bytes());
    assert_eq!(captured_string(out), "no newline");
}

#[test]
fn writeln_empty() {
    let mut out = captured_output();
    let _ = out.blank();
    assert_eq!(captured_string(out), "\n");
}

#[test]
fn take_bytes_empties_the_output() {
    let mut out = captured_output();
    let _ = out.line("first");
    assert_eq!(out.take_bytes(), b"first\n".to_vec());
    let _ = out.line("second");
    assert_eq!(captured_string(out), "second\n");
}
