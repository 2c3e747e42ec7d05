use tinyharness_ui::tui::widget::{truncate_str, truncate_str_width};

#[test]
fn test_truncate_str_ascii() {
    assert_eq!(truncate_str("hello", 3), "hel");
    assert_eq!(truncate_str("hello", 10), "hello");
    assert_eq!(truncate_str("hello", 0), "");
}

#[test]
fn test_truncate_str_multibyte() {
    // 🦀 is 4 bytes
    assert_eq!(truncate_str("🦀hello", 5), "🦀h"); // 🦀=4 bytes, +h=5
    assert_eq!(truncate_str("🦀hello", 3), ""); // 🦀=4 bytes, boundary=0
    // ⚙ is 3 bytes — truncating at byte 4 should include it
    let s = "⚙hello";
    assert_eq!(truncate_str(s, 4), "⚙h"); // ⚙=3 bytes + h=1 = 4
}

#[test]
fn test_truncate_str_no_panic() {
    // Should never panic even with tricky byte boundaries
    let s = "naïve café 🦀";
    for i in 0..=s.len() + 5 {
        let _ = truncate_str(s, i);
    }
}

#[test]
fn test_truncate_str_width_ascii() {
    assert_eq!(truncate_str_width("hello", 3), "hel");
    assert_eq!(truncate_str_width("hello", 10), "hello");
    assert_eq!(truncate_str_width("hello", 0), "");
}

#[test]
fn test_truncate_str_width_cjk() {
    // CJK characters have display width 2
    assert_eq!(truncate_str_width("你好", 1), "");
    assert_eq!(truncate_str_width("你好", 2), "你");
    assert_eq!(truncate_str_width("你好", 3), "你"); // "好" would make width 4 > 3
    assert_eq!(truncate_str_width("你好", 4), "你好");
}

#[test]
fn test_truncate_str_width_combining_mark() {
    // Combining marks have zero display width and should not be
    // counted toward the truncation width.
    // 'e' + combining acute (U+0301) = display width 1
    let s = "e\u{0301}x";
    assert_eq!(truncate_str_width(s, 1), "e\u{0301}"); // combining mark kept with 'e'
    assert_eq!(truncate_str_width(s, 2), "e\u{0301}x"); // all fits in width 2
}


#[test]
fn truncate_str_exact_boundaries() {
    assert_eq!(truncate_str("héllo", 2), "h");
    assert_eq!(truncate_str("héllo", 3), "hé");
    assert_eq!(truncate_str("", 5), "");
    assert_eq!(truncate_str_width("a\u{0007}b", 1), "a\u{0007}");
}
